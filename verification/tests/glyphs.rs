use abcrend::glyph::{
    note_head, push_svg_vec, render_sym, stem_glyphs, NoteHead, StemGlyphs, StemType,
    NOTEHEAD_BLACK, NOTEHEAD_HALF, NOTEHEAD_WHOLE, STEM,
};
use abcrend::symbol::{get_space, get_sym_weight, Symbol};

fn bits(x: f32) -> u32 {
    x.to_bits()
}

#[test]
fn note_heads_by_length() {
    assert_eq!(note_head(bits(1.0)), Some(NOTEHEAD_BLACK));
    assert_eq!(note_head(bits(0.5)), Some(NOTEHEAD_BLACK));
    assert_eq!(note_head(bits(1.5)), Some(NOTEHEAD_BLACK));
    assert_eq!(note_head(bits(1.999_999_9)), Some(NOTEHEAD_BLACK));
    assert_eq!(note_head(bits(f32::from_bits(1))), Some(NOTEHEAD_BLACK));
    assert_eq!(note_head(bits(2.0)), Some(NOTEHEAD_HALF));
    assert_eq!(note_head(bits(4.0)), Some(NOTEHEAD_WHOLE));
    assert_eq!(note_head(bits(3.0)), None);
    assert_eq!(note_head(bits(8.0)), None);
    assert_eq!(note_head(bits(0.0)), None);
    assert_eq!(note_head(bits(-0.0)), None);
    assert_eq!(note_head(bits(-1.0)), None);
    assert_eq!(note_head(bits(f32::NAN)), None);
    assert_eq!(note_head(bits(f32::INFINITY)), None);
    assert_eq!(note_head(bits(f32::NEG_INFINITY)), None);
}

#[test]
fn stems_and_flags_by_length() {
    assert_eq!(
        stem_glyphs(StemType::Up, bits(0.5)),
        StemGlyphs { stem: Some(STEM), flag: Some('\u{E240}') }
    );
    assert_eq!(
        stem_glyphs(StemType::Down, bits(0.5)),
        StemGlyphs { stem: Some(STEM), flag: Some('\u{E241}') }
    );
    assert_eq!(stem_glyphs(StemType::Up, bits(0.25)).flag, Some('\u{E242}'));
    assert_eq!(stem_glyphs(StemType::Down, bits(0.125)).flag, Some('\u{E245}'));
    assert_eq!(stem_glyphs(StemType::Up, bits(0.0625)).flag, Some('\u{E246}'));
    assert_eq!(stem_glyphs(StemType::Down, bits(0.03125)).flag, Some('\u{E249}'));
    assert_eq!(stem_glyphs(StemType::Down, bits(0.015625)).flag, Some('\u{E24B}'));
    assert_eq!(stem_glyphs(StemType::Up, bits(0.0078125)).flag, None);
    assert_eq!(stem_glyphs(StemType::Up, bits(1.0)), StemGlyphs { stem: Some(STEM), flag: None });
    assert_eq!(stem_glyphs(StemType::Up, bits(4.0)), StemGlyphs { stem: None, flag: None });
    assert_eq!(stem_glyphs(StemType::Down, bits(-0.5)), StemGlyphs { stem: Some(STEM), flag: None });
    assert_eq!(stem_glyphs(StemType::Down, bits(f32::NAN)), StemGlyphs { stem: Some(STEM), flag: None });
}

#[test]
fn weights_and_spaces() {
    let note = Symbol::Note { letter: 'G', octave: 1, length: bits(0.5) };
    assert_eq!(get_sym_weight(&note), bits(0.5));
    assert_eq!(get_sym_weight(&Symbol::Bar), bits(1.0));
    assert_eq!(get_sym_weight(&Symbol::VisualBreak), bits(1.0));
    assert_eq!(get_sym_weight(&Symbol::Rest), bits(0.0));
    assert_eq!(get_sym_weight(&Symbol::Chord), bits(0.0));
    assert_eq!(get_sym_weight(&Symbol::Ending(1)), bits(0.0));
    assert_eq!(get_space(&note, bits(3.0), 30), bits(0.5));
    assert_eq!(get_space(&Symbol::Bar, bits(3.0), 30), bits(1.0));
    assert_eq!(get_space(&Symbol::Tuplet, bits(3.0), 30), bits(1.0));
    assert_eq!(get_space(&Symbol::GraceNotes, bits(3.0), 30), bits(1.0));
}

#[test]
fn render_sym_places_note_heads() {
    let g = Symbol::Note { letter: 'G', octave: 1, length: bits(1.0) };
    assert_eq!(render_sym(&g), Some(NoteHead { glyph: NOTEHEAD_BLACK, offset_half_units: 2 }));
    let c = Symbol::Note { letter: 'C', octave: 2, length: bits(2.0) };
    assert_eq!(render_sym(&c), Some(NoteHead { glyph: NOTEHEAD_HALF, offset_half_units: 5 }));
    let d = Symbol::Note { letter: 'D', octave: 1, length: bits(4.0) };
    assert_eq!(render_sym(&d), Some(NoteHead { glyph: NOTEHEAD_WHOLE, offset_half_units: -1 }));
    let long = Symbol::Note { letter: 'E', octave: 1, length: bits(8.0) };
    assert_eq!(render_sym(&long), None);
    assert_eq!(render_sym(&Symbol::Bar), None);
    let odd = Symbol::Note { letter: 'x', octave: 1, length: bits(1.0) };
    assert_eq!(render_sym(&odd), None);
}

#[test]
fn pushed_nodes_keep_their_order() {
    let mut a = vec![1, 2];
    push_svg_vec(&mut a, vec![3, 4, 5]);
    assert_eq!(a, vec![1, 2, 3, 4, 5]);
    push_svg_vec(&mut a, Vec::new());
    assert_eq!(a, vec![1, 2, 3, 4, 5]);
}
