use abcrend::placeholder;
use abcrend::symbol::{MusicLine, Symbol, Tune};
use abcrend::reach::parser_input_is_in_bounds;
use abcrend::tune::{first_tune_body, select_first_body, RenderError};

fn parse_ok(input: &str) -> Vec<MusicLine> {
    assert!(parser_input_is_in_bounds(input));
    match first_tune_body(input) {
        Ok(lines) => lines,
        Err(RenderError::Parse(msg)) => panic!("parse error: {msg}"),
        Err(RenderError::NoTune) => panic!("no tune"),
        Err(RenderError::NoBody) => panic!("no body"),
    }
}

#[test]
fn cooleys_parses() {
    let input =
        "X: 1\nT: Cooley's\nR: reel\nM: 4/4\nL: 1/8\nK: Edor\n|:D2|EBBA B2 EB|B2 AB dBAG:|\n";
    assert!(parser_input_is_in_bounds(input));
    assert!(first_tune_body(input).is_ok());
}

#[test]
fn first_tune_body_holds_the_symbols() {
    let lines = parse_ok("X:1\nT:Scale\nK:C\nC/2 D4 c,|\n");
    assert_eq!(lines.len(), 1);
    assert_eq!(
        lines[0].symbols,
        vec![
            Symbol::Note { letter: 'C', octave: 1, length: 0.5f32.to_bits() },
            Symbol::VisualBreak,
            Symbol::Note { letter: 'D', octave: 1, length: 4.0f32.to_bits() },
            Symbol::VisualBreak,
            Symbol::Note { letter: 'C', octave: 1, length: 1.0f32.to_bits() },
            Symbol::Bar,
        ]
    );
}

#[test]
fn only_the_first_tune_is_taken() {
    let lines = parse_ok("X:1\nT:One\nK:C\nE|\nX:2\nT:Two\nK:C\nG|\n");
    assert_eq!(lines.len(), 1);
    assert_eq!(
        lines[0].symbols[0],
        Symbol::Note { letter: 'E', octave: 1, length: 1.0f32.to_bits() }
    );
}

#[test]
fn tune_without_body_is_refused() {
    let input = "X:1\nT:Some Title\nK:G\n";
    assert!(parser_input_is_in_bounds(input));
    assert!(matches!(first_tune_body(input), Err(RenderError::NoBody)));
}

#[test]
fn empty_book_has_no_tune() {
    assert!(matches!(first_tune_body(""), Err(RenderError::NoTune)));
}

#[test]
fn malformed_text_is_a_parse_error() {
    match first_tune_body("a") {
        Err(RenderError::Parse(msg)) => assert!(!msg.is_empty()),
        _ => panic!("expected a parse error"),
    }
}

#[test]
fn selecting_from_tunes() {
    assert!(matches!(select_first_body(Vec::new()), Err(RenderError::NoTune)));
    assert!(matches!(select_first_body(vec![Tune { body: None }]), Err(RenderError::NoBody)));
    let line = MusicLine { symbols: vec![Symbol::Bar] };
    let r = select_first_body(vec![Tune { body: Some(vec![line]) }, Tune { body: None }]);
    match r {
        Ok(lines) => assert_eq!(lines[0].symbols, vec![Symbol::Bar]),
        _ => panic!("expected the first body"),
    }
}

fn tune(music: &str) -> String {
    format!("X:1\nT:t\nK:C\n{}\n", music)
}

#[test]
fn parser_bounds_in_music_lines() {
    assert!(parser_input_is_in_bounds(&tune("(3abc|")));
    assert!(!parser_input_is_in_bounds(&tune("(1a|")));
    assert!(!parser_input_is_in_bounds(&tune("(12abcdefgabcde|")));
    assert!(parser_input_is_in_bounds(&tune("(12abc|")));
    assert!(!parser_input_is_in_bounds(&tune("(10ABCDEFGABC|")));
    assert!(parser_input_is_in_bounds(&tune("(10ABCDEFGAB|")));
    assert!(!parser_input_is_in_bounds(&tune("(1:2:3a|")));
    assert!(!parser_input_is_in_bounds(&tune("(1::a|")));
    assert!(!parser_input_is_in_bounds(&tune("(1:2 a|")));
    assert!(!parser_input_is_in_bounds(&tune("(1 !trill!^^a,2-|")));
    assert!(parser_input_is_in_bounds(&tune("(1")));
    assert!(parser_input_is_in_bounds(&tune("(1|a")));
    assert!(parser_input_is_in_bounds(&tune("C4294967295|")));
    assert!(!parser_input_is_in_bounds(&tune("C4294967296|")));
    assert!(!parser_input_is_in_bounds(&tune("C99999999999|")));
    assert!(parser_input_is_in_bounds(&tune(&format!("C{}|", ",".repeat(129)))));
    assert!(!parser_input_is_in_bounds(&tune(&format!("C{}|", ",".repeat(130)))));
    assert!(parser_input_is_in_bounds(&tune(&format!("c{}|", "'".repeat(125)))));
    assert!(!parser_input_is_in_bounds(&tune(&format!("c{}|", "'".repeat(126)))));
    assert!(parser_input_is_in_bounds(&tune(&format!("A{}|", "'".repeat(126)))));
    assert!(!parser_input_is_in_bounds(&tune(&format!("A{}|", "'".repeat(127)))));
    assert!(parser_input_is_in_bounds(&tune(&format!("|{}|", "'".repeat(300)))));
    assert!(parser_input_is_in_bounds(&tune("(0")));
    assert!(parser_input_is_in_bounds(&tune("(")));
}

#[test]
fn parser_bounds_skip_header_text() {
    assert!(parser_input_is_in_bounds("X:1\nT:Reel (1st)\nK:D\nABC|\n"));
    assert!(parser_input_is_in_bounds("X:1\nT:Call 12345678901\nK:D\nABC|\n"));
    assert!(parser_input_is_in_bounds(&format!("X:1\nT:{}\nK:D\nABC|\n", "'".repeat(300))));
    assert!(parser_input_is_in_bounds("N:(1 note\nX:1\nT:t\nK:D\nABC|\n"));
    assert!(parser_input_is_in_bounds("K:C\nN:99999999999\n\nX:1\nT:t\nK:C\nABC\n"));
    assert!(!parser_input_is_in_bounds("K:C\nN:t\n\nX:1\nT:t\nK:C\nC99999999999\n"));
    assert!(parser_input_is_in_bounds("X:1\nT:t\nK:C\n"));
    assert!(!parser_input_is_in_bounds("X:12345678901\nT:t\nK:D\nABC|\n"));
    assert!(!parser_input_is_in_bounds("X:1\nT:t\nK:D\nABC|\nX:2\nT:t (1\nK:D\n(1a|\n"));
    assert!(parser_input_is_in_bounds("X:1\nT:t\nK:D\nABC|\nX:2\nT:t (1\nK:D\nD|\n"));
}

#[test]
fn accepted_extremes_parse_without_panicking() {
    for text in [
        tune("C4294967295|"),
        tune(&format!("C{}|", ",".repeat(129))),
        tune(&format!("c{}|", "'".repeat(125))),
        tune("(3abc|"),
        "X:1\nT:Reel (1st)\nK:D\nABC|\n".to_string(),
        "K:C\nN:99999999999\n\nX:1\nT:t\nK:C\nABC\n".to_string(),
        tune(&format!("A{}|", "'".repeat(126))),
    ] {
        assert!(parser_input_is_in_bounds(&text));
        assert!(first_tune_body(&text).is_ok());
    }
}

#[test]
fn accepted_failures_are_parse_errors() {
    for text in [tune("(1"), tune("(1|a"), tune("(12abc|D"), tune("(10ABCDEFGAB|")] {
        assert!(parser_input_is_in_bounds(&text));
        assert!(matches!(first_tune_body(&text), Err(RenderError::Parse(_))));
    }
}

#[test]
fn file_header_is_text() {
    let lines = parse_ok("K:C\nN:99999999999\n\nX:1\nT:t\nK:C\nABC\n");
    assert_eq!(lines[0].symbols.len(), 3);
}

#[test]
fn digit_lengths() {
    let lines = parse_ok(&tune("A2B/4C3/2D"));
    assert_eq!(
        lines[0].symbols,
        vec![
            Symbol::Note { letter: 'A', octave: 1, length: 2.0f32.to_bits() },
            Symbol::Note { letter: 'B', octave: 1, length: 0.25f32.to_bits() },
            Symbol::Note { letter: 'C', octave: 1, length: 1.5f32.to_bits() },
            Symbol::Note { letter: 'D', octave: 1, length: 1.0f32.to_bits() },
        ]
    );
}

#[test]
fn title_with_parenthesis_renders() {
    let lines = parse_ok("X:1\nT:Reel (1st)\nK:D\nABC|\n");
    assert_eq!(lines[0].symbols.len(), 4);
}

#[test]
fn slash_lengths_halve() {
    let lines = parse_ok(&tune("A/ B//"));
    assert_eq!(
        lines[0].symbols,
        vec![
            Symbol::Note { letter: 'A', octave: 1, length: 0.5f32.to_bits() },
            Symbol::VisualBreak,
            Symbol::Note { letter: 'B', octave: 1, length: 0.25f32.to_bits() },
        ]
    );
}

#[test]
fn placeholder_text() {
    assert_eq!(placeholder(), "abcrend - coming soon!");
}
