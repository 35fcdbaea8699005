//! Reading ABC text: parsing a tune book with `abc_parser` and picking the
//! body of its first tune.

use vstd::prelude::*;
use abc_parser::datatypes::MusicSymbol as ParsedSymbol;
use crate::symbol::{Symbol, MusicLine, Tune, lines_view, tunes_view};
use crate::reach::parser_input_in_bounds;
use crate::pitch::Note;

verus! {

#[verifier::external_type_specification]
#[verifier::external_body]
pub struct ExParsedSymbol(abc_parser::datatypes::MusicSymbol);

/// A symbol with its note length left out (set to 0).
pub open spec fn shape_symbol(sym: Symbol) -> Symbol {
    match sym {
        Symbol::Note { letter, octave, .. } => Symbol::Note { letter, octave, length: 0 },
        _ => sym,
    }
}

/// Whether a symbol the parser gave agrees with the named symbol: the same
/// but for the note length, which is the same too wherever the named length
/// is not 0.
pub open spec fn symbol_agrees(actual: Symbol, named: Symbol) -> bool {
    &&& shape_symbol(actual) == shape_symbol(named)
    &&& (named matches Symbol::Note { length, .. } && length != 0) ==> actual == named
}

/// Whether music lines agree symbol by symbol with the named lines.
pub open spec fn lines_agree(actual: Seq<Seq<Symbol>>, named: Seq<Seq<Symbol>>) -> bool {
    &&& actual.len() == named.len()
    &&& forall|i: int| 0 <= i < named.len() ==> #[trigger] actual[i].len() == named[i].len()
    &&& forall|i: int, k: int|
        0 <= i < named.len() && 0 <= k < named[i].len() ==> symbol_agrees(
            #[trigger] actual[i][k],
            named[i][k],
        )
}

/// Whether a parse outcome agrees with the named one: the same error text,
/// or the same number of tunes, each with a body exactly when the named one
/// has one, and lines that agree.
pub open spec fn book_agrees(
    actual: Result<Seq<Option<Seq<Seq<Symbol>>>>, Seq<char>>,
    named: Result<Seq<Option<Seq<Seq<Symbol>>>>, Seq<char>>,
) -> bool {
    match (actual, named) {
        (Err(m1), Err(m2)) => m1 == m2,
        (Ok(t1), Ok(t2)) => t1.len() == t2.len() && forall|t: int|
            0 <= t < t2.len() ==> match (#[trigger] t1[t], t2[t]) {
                (Some(a), Some(b)) => lines_agree(a, b),
                (None, None) => true,
                _ => false,
            },
        _ => false,
    }
}

/// What `abc_parser::abc::tune_book` makes of an ABC text: on success, the
/// tunes of the book with, for each tune that has a body, its music lines as
/// `Symbol`s (notes by the letter that `abc_parser`'s `From<Note> for char`
/// gives, lengths by their `f32` encodings); on failure, the text of the
/// parse error (its `Display`). A note length written as a run of slashes
/// (`A/`, `A//`) appears as 0 here: the parser computes it with `f32::exp2`,
/// whose precision std leaves unspecified. No length written with digits, nor
/// the default length 1, is 0.
pub uninterp spec fn parsed_tune_book(abc: Seq<char>) -> Result<
    Seq<Option<Seq<Seq<Symbol>>>>,
    Seq<char>,
>;

/// A parse result seen as values.
pub open spec fn parse_outcome(r: Result<Vec<Tune>, String>) -> Result<
    Seq<Option<Seq<Seq<Symbol>>>>,
    Seq<char>,
> {
    match r {
        Ok(tunes) => Ok(tunes_view(tunes@)),
        Err(msg) => Err(msg@),
    }
}

/// A symbol that is a note names one of the seven letters.
pub open spec fn symbol_is_lettered(sym: Symbol) -> bool {
    sym matches Symbol::Note { letter, .. } ==> Note::spec_from_letter(letter) is Some
}

/// Every note of the lines names one of the seven letters.
pub open spec fn lines_lettered(lines: Seq<Seq<Symbol>>) -> bool {
    forall|i: int, k: int|
        0 <= i < lines.len() && 0 <= k < lines[i].len() ==> symbol_is_lettered(
            #[trigger] lines[i][k],
        )
}

/// One symbol of `abc_parser`'s output as the library's `Symbol`: a note
/// keeps its letter (through `abc_parser`'s `From<Note> for char`), its octave
/// and the bits of its length; a bar keeps no text, an ending its number; the
/// other kinds keep only their kind. Nothing is claimed of it on its own: it
/// is part of `parse_tune_book`, whose contract covers what it gives.
#[verifier::external_body]
fn symbol_of(sym: &abc_parser::datatypes::MusicSymbol) -> Symbol {
    match sym {
        ParsedSymbol::Note { note, octave, length, .. } => Symbol::Note {
            letter: char::from(*note),
            octave: *octave,
            length: length.to_bits(),
        },
        ParsedSymbol::Chord { .. } => Symbol::Chord,
        ParsedSymbol::GraceNotes { .. } => Symbol::GraceNotes,
        ParsedSymbol::Tuplet { .. } => Symbol::Tuplet,
        ParsedSymbol::Bar(_) => Symbol::Bar,
        ParsedSymbol::Rest(_) => Symbol::Rest,
        ParsedSymbol::Ending(n) => Symbol::Ending(*n),
        ParsedSymbol::VisualBreak => Symbol::VisualBreak,
    }
}

/// Calls `abc_parser::abc::tune_book`, the PEG parser of a whole ABC file.
/// Which rules match, and so whether it succeeds, the tunes, bodies, lines,
/// kinds of symbol, note letters and octaves, ending numbers, the error's
/// `Display`, and the lengths written with digits or left to the default,
/// depend on the text alone (those lengths come from `as f32` and `/`, which
/// round correctly): the result agrees with `parsed_tune_book`. Lengths
/// written as slashes are not claimed. Every note letter is one of `A` to
/// `G`, since `From<Note> for char` gives nothing else. The parser panics
/// on some texts (a number beyond `u32`, an octave beyond `i8`, a tuplet of
/// 1 or of 10 and more notes); `requires` keeps to the texts where it cannot.
#[verifier::external_body]
fn parse_tune_book(abc: &str) -> (r: Result<Vec<Tune>, String>)
    requires
        parser_input_in_bounds(abc@),
    ensures
        book_agrees(parse_outcome(r), parsed_tune_book(abc@)),
        r matches Ok(tunes) ==> forall|t: int|
            0 <= t < tunes@.len() ==> (#[trigger] tunes@[t]@ matches Some(lines) ==> lines_lettered(
                lines,
            )),
{
    match abc_parser::abc::tune_book(abc) {
        Ok(book) => Ok(book.tunes.into_iter().map(|t| Tune {
            body: t.body.map(|b| b.music.iter().map(|l| MusicLine {
                symbols: l.symbols.iter().map(symbol_of).collect(),
            }).collect()),
        }).collect()),
        Err(e) => Err(format!("{}", e)),
    }
}

/// Why no tune body could be rendered.
pub enum RenderError {
    /// The text is not a tune book; the parser's message.
    Parse(String),
    /// The tune book holds no tune.
    NoTune,
    /// The first tune has a header only.
    NoBody,
}

/// Whether `r` is what rendering gets from a tune book parsed as `parsed`:
/// the parse error, no tune, no body, or the lines of the first tune's body.
pub open spec fn first_body_outcome(
    parsed: Result<Seq<Option<Seq<Seq<Symbol>>>>, Seq<char>>,
    r: Result<Vec<MusicLine>, RenderError>,
) -> bool {
    match parsed {
        Err(msg) => r matches Err(RenderError::Parse(m)) && m@ == msg,
        Ok(tunes) => if tunes.len() == 0 {
            r matches Err(RenderError::NoTune)
        } else {
            match tunes[0] {
                None => r matches Err(RenderError::NoBody),
                Some(body) => r matches Ok(lines) && lines_view(lines@) == body,
            }
        },
    }
}

/// The body of the first tune of a parsed tune book.
pub fn select_first_body(tunes: Vec<Tune>) -> (r: Result<Vec<MusicLine>, RenderError>)
    ensures
        first_body_outcome(Ok(tunes_view(tunes@)), r),
        tunes@.len() == 0 ==> r matches Err(RenderError::NoTune),
        tunes@.len() > 0 && tunes@[0].body is None ==> r matches Err(RenderError::NoBody),
        tunes@.len() > 0 ==> (tunes@[0].body matches Some(b) ==> (r matches Ok(lines) && lines@
            == b@)),
{
    let mut tunes = tunes;
    if tunes.len() == 0 {
        return Err(RenderError::NoTune);
    }
    let first = tunes.remove(0);
    match first.body {
        Some(lines) => Ok(lines),
        None => Err(RenderError::NoBody),
    }
}

/// The same outcome as `first_body_outcome`, with the lines compared by
/// `lines_agree` to the named lines.
pub open spec fn first_body_agrees(
    named: Result<Seq<Option<Seq<Seq<Symbol>>>>, Seq<char>>,
    r: Result<Vec<MusicLine>, RenderError>,
) -> bool {
    match named {
        Err(msg) => r matches Err(RenderError::Parse(m)) && m@ == msg,
        Ok(tunes) => if tunes.len() == 0 {
            r matches Err(RenderError::NoTune)
        } else {
            match tunes[0] {
                None => r matches Err(RenderError::NoBody),
                Some(body) => r matches Ok(lines) && lines_agree(lines_view(lines@), body),
            }
        },
    }
}

/// Parses an ABC text and returns the music lines of its first tune: the
/// parser's message if it fails, `NoTune` for a book without tunes, `NoBody`
/// if the first tune has only a header, else that tune's lines, as the parser
/// gave them: equal to the named lines, note lengths included except those
/// written as slashes.
pub fn first_tune_body(abc: &str) -> (r: Result<Vec<MusicLine>, RenderError>)
    requires
        parser_input_in_bounds(abc@),
    ensures
        first_body_agrees(parsed_tune_book(abc@), r),
        r matches Ok(lines) ==> lines_lettered(lines_view(lines@)),
{
    match parse_tune_book(abc) {
        Ok(tunes) => {
            let r = select_first_body(tunes);
            proof {
                if tunes_view(tunes@).len() > 0 {
                    assert(tunes@[0]@ == tunes_view(tunes@)[0]);
                }
            }
            r
        },
        Err(msg) => Err(RenderError::Parse(msg)),
    }
}

} // verus!
