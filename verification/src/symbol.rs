//! The parts of a parsed tune that the layout reads, and how much horizontal
//! weight and space each symbol takes.

use vstd::prelude::*;
use crate::float_bits::{F32_ONE, F32_ZERO, f32_equals, lemma_f32_is_pow2};

verus! {

/// One symbol of a music line, holding what the layout reads of it.
///
/// Lengths are the encodings (`f32::to_bits`) of the lengths that the ABC
/// parser gives, in multiples of the tune's unit note length.
#[derive(Clone, Copy, PartialEq, Eq, Debug, Structural)]
pub enum Symbol {
    /// A single note: its upper-case letter, its octave (1 for the octave of
    /// the capital letters) and its length.
    Note { letter: char, octave: i8, length: u32 },
    Chord,
    GraceNotes,
    Tuplet,
    Bar,
    Rest,
    Ending(u32),
    VisualBreak,
}

/// One line of music.
pub struct MusicLine {
    pub symbols: Vec<Symbol>,
}

impl View for MusicLine {
    type V = Seq<Symbol>;

    open spec fn view(&self) -> Seq<Symbol> {
        self.symbols@
    }
}

/// The lines of a tune body, each seen as its sequence of symbols.
pub open spec fn lines_view(lines: Seq<MusicLine>) -> Seq<Seq<Symbol>> {
    lines.map_values(|l: MusicLine| l@)
}

/// A tune of a tune book; a tune without a body has only a header.
pub struct Tune {
    pub body: Option<Vec<MusicLine>>,
}

impl View for Tune {
    type V = Option<Seq<Seq<Symbol>>>;

    open spec fn view(&self) -> Option<Seq<Seq<Symbol>>> {
        match self.body {
            Some(lines) => Some(lines_view(lines@)),
            None => None,
        }
    }
}

/// The tunes of a tune book, each seen through its view.
pub open spec fn tunes_view(tunes: Seq<Tune>) -> Seq<Option<Seq<Seq<Symbol>>>> {
    tunes.map_values(|t: Tune| t@)
}

/// Horizontal weight of a symbol: a note weighs its length, a bar line and a
/// visual break weigh one unit, everything else weighs nothing.
pub open spec fn sym_weight(sym: Symbol) -> u32 {
    match sym {
        Symbol::Note { length, .. } => length,
        Symbol::Bar => F32_ONE,
        Symbol::VisualBreak => F32_ONE,
        _ => F32_ZERO,
    }
}

/// Horizontal space a symbol advances the pen by: a note its length,
/// everything else one unit.
pub open spec fn sym_space(sym: Symbol) -> u32 {
    match sym {
        Symbol::Note { length, .. } => length,
        _ => F32_ONE,
    }
}

/// A note weighs exactly its length and advances the pen by exactly its
/// length, whatever its letter and octave; every other symbol advances the pen
/// by one unit, and weighs one unit if it is a bar line or a visual break and
/// nothing otherwise.
pub proof fn lemma_note_weight_and_space_are_its_length(sym: Symbol)
    ensures
        sym matches Symbol::Note { length, .. } ==> sym_weight(sym) == length && sym_space(sym)
            == length,
        !(sym is Note) ==> f32_equals(sym_space(sym), 1, 1),
        (sym is Bar || sym is VisualBreak) ==> f32_equals(sym_weight(sym), 1, 1),
        !(sym is Note || sym is Bar || sym is VisualBreak) ==> f32_equals(sym_weight(sym), 0, 1),
{
    lemma_one_and_zero();
}

proof fn lemma_one_and_zero()
    ensures
        f32_equals(F32_ONE, 1, 1),
        f32_equals(F32_ZERO, 0, 1),
{
    vstd::arithmetic::power2::lemma2_to64();
    lemma_f32_is_pow2(F32_ONE, 0);
    vstd::arithmetic::power2::lemma_pow2_pos(149);
}

/// The weight of a symbol, as an `f32` encoding.
pub fn get_sym_weight(sym: &Symbol) -> (w: u32)
    ensures
        w == sym_weight(*sym),
        *sym matches Symbol::Note { length, .. } ==> w == length,
        (*sym is Bar || *sym is VisualBreak) ==> f32_equals(w, 1, 1),
        !(*sym is Note || *sym is Bar || *sym is VisualBreak) ==> f32_equals(w, 0, 1),
{
    proof {
        lemma_one_and_zero();
    }
    match sym {
        Symbol::Note { length, .. } => *length,
        Symbol::Bar => F32_ONE,
        Symbol::VisualBreak => F32_ONE,
        _ => F32_ZERO,
    }
}

/// The space a symbol takes, as an `f32` encoding. The total weight of the
/// line (an `f32` encoding) and the available width do not change it.
pub fn get_space(sym: &Symbol, total_weight: u32, available_px: i32) -> (s: u32)
    ensures
        s == sym_space(*sym),
        *sym matches Symbol::Note { length, .. } ==> s == length,
        !(*sym is Note) ==> f32_equals(s, 1, 1),
{
    proof {
        lemma_one_and_zero();
    }
    match sym {
        Symbol::Note { length, .. } => *length,
        _ => F32_ONE,
    }
}

} // verus!
