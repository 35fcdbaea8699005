//! Which glyphs of the music font (SMuFL code points, as in Bravura) a note
//! is drawn with: its head, its stem and its flag.

use vstd::prelude::*;
use crate::float_bits::{
    F32_TWO,
    F32_FOUR,
    f32_equals,
    f32_greater_than,
    f32_less_than,
    f32_is_pow2,
    pow2_encoding,
    lemma_f32_is_pow2,
    lemma_f32_between_zero_and_two,
};
use crate::pitch::{Note, note_offset_half_units, note_offset_steps};
use crate::symbol::Symbol;

verus! {

/// SMuFL `gClef`.
pub const G_CLEF: char = '\u{E050}';

/// SMuFL `noteheadWhole`.
pub const NOTEHEAD_WHOLE: char = '\u{E0A2}';

/// SMuFL `noteheadHalf`.
pub const NOTEHEAD_HALF: char = '\u{E0A3}';

/// SMuFL `noteheadBlack`.
pub const NOTEHEAD_BLACK: char = '\u{E0A4}';

/// SMuFL `stem`.
pub const STEM: char = '\u{E210}';

/// Direction of a note stem.
#[derive(Clone, Copy, PartialEq, Eq, Debug, Structural)]
pub enum StemType {
    Up,
    Down,
}

/// The head a note of the given length gets, if any: black for lengths
/// strictly between 0 and 2, half for 2, whole for 4, none otherwise.
pub open spec fn spec_note_head(length: u32) -> Option<char> {
    if f32_greater_than(length, 0, 1) && f32_less_than(length, 2, 1) {
        Some(NOTEHEAD_BLACK)
    } else if f32_equals(length, 2, 1) {
        Some(NOTEHEAD_HALF)
    } else if f32_equals(length, 4, 1) {
        Some(NOTEHEAD_WHOLE)
    } else {
        None
    }
}

/// The note head for a length given as an `f32` encoding.
pub fn note_head(length: u32) -> (r: Option<char>)
    ensures
        r == spec_note_head(length),
        f32_greater_than(length, 0, 1) && f32_less_than(length, 2, 1) ==> r == Some(
            NOTEHEAD_BLACK,
        ),
        f32_equals(length, 2, 1) ==> r == Some(NOTEHEAD_HALF),
        f32_equals(length, 4, 1) ==> r == Some(NOTEHEAD_WHOLE),
        r is Some ==> (f32_greater_than(length, 0, 1) && f32_less_than(length, 2, 1)) || f32_equals(
            length,
            2,
            1,
        ) || f32_equals(length, 4, 1),
{
    proof {
        lemma_f32_between_zero_and_two(length);
        vstd::arithmetic::power2::lemma2_to64();
        lemma_f32_is_pow2(length, 1);
        lemma_f32_is_pow2(length, 2);
    }
    if 0 < length && length < F32_TWO {
        Some(NOTEHEAD_BLACK)
    } else if length == F32_TWO {
        Some(NOTEHEAD_HALF)
    } else if length == F32_FOUR {
        Some(NOTEHEAD_WHOLE)
    } else {
        None
    }
}

/// Every length strictly between 0 and 2 gets a black head, exactly 2 a half
/// head, exactly 4 a whole head, and every other length (0, negative, 3, 8,
/// NaN, infinite, ...) none.
pub proof fn lemma_note_head_by_length(length: u32)
    ensures
        f32_greater_than(length, 0, 1) && f32_less_than(length, 2, 1) ==> spec_note_head(length)
            == Some(NOTEHEAD_BLACK),
        f32_equals(length, 2, 1) ==> spec_note_head(length) == Some(NOTEHEAD_HALF),
        f32_equals(length, 4, 1) ==> spec_note_head(length) == Some(NOTEHEAD_WHOLE),
        !(f32_greater_than(length, 0, 1) && f32_less_than(length, 2, 1)) && !f32_equals(length, 2, 1)
            && !f32_equals(length, 4, 1) ==> spec_note_head(length) is None,
{
    lemma_f32_between_zero_and_two(length);
    vstd::arithmetic::power2::lemma2_to64();
    lemma_f32_is_pow2(length, 1);
    lemma_f32_is_pow2(length, 2);
}

/// A note head to draw: the glyph and the staff offset of the pitch in half
/// staff units.
#[derive(Clone, Copy, PartialEq, Eq, Debug, Structural)]
pub struct NoteHead {
    pub glyph: char,
    pub offset_half_units: i32,
}

/// What a symbol draws as a note head: only notes whose letter names a note
/// and whose length has a head.
pub open spec fn spec_sym_note_head(sym: Symbol) -> Option<NoteHead> {
    match sym {
        Symbol::Note { letter, octave, length } => match Note::spec_from_letter(letter) {
            Some(note) => match spec_note_head(length) {
                Some(glyph) => Some(
                    NoteHead {
                        glyph,
                        offset_half_units: note_offset_half_units(note, octave as int) as i32,
                    },
                ),
                None => None,
            },
            None => None,
        },
        _ => None,
    }
}

/// The symbols the layout can place: a note's octave must leave room to
/// count down to octave 0.
pub open spec fn sym_is_placeable(sym: Symbol) -> bool {
    match sym {
        Symbol::Note { octave, .. } => octave > i8::MIN,
        _ => true,
    }
}

/// The note head that a symbol is rendered with, placed on the staff.
pub fn render_sym(sym: &Symbol) -> (r: Option<NoteHead>)
    requires
        sym_is_placeable(*sym),
    ensures
        r == spec_sym_note_head(*sym),
        r matches Some(h) ==> h.offset_half_units == (match *sym {
            Symbol::Note { letter, octave, .. } => note_offset_half_units(
                Note::spec_from_letter(letter).unwrap(),
                octave as int,
            ),
            _ => 0,
        }),
        r matches Some(h) ==> (*sym matches Symbol::Note { length, .. } && spec_note_head(length)
            == Some(h.glyph)),
        (*sym matches Symbol::Note { letter, length, .. } && Note::spec_from_letter(letter) is Some
            && spec_note_head(length) is Some) ==> r is Some,
        !(*sym is Note) ==> r is None,
{
    match sym {
        Symbol::Note { letter, octave, length } => {
            match Note::from_letter(*letter) {
                Some(note) => {
                    let offset = note_offset_steps(note, *octave);
                    match note_head(*length) {
                        Some(glyph) => Some(NoteHead { glyph, offset_half_units: offset }),
                        None => None,
                    }
                },
                None => None,
            }
        },
        _ => None,
    }
}

/// The flag glyph for a note of length `2^-k` (`k` from 1 to 6: eighth to
/// 256th of the unit) on a stem of the given direction.
pub open spec fn flag_glyph(t: StemType, k: int) -> char {
    match t {
        StemType::Up => if k == 1 {
            '\u{E240}'
        } else if k == 2 {
            '\u{E242}'
        } else if k == 3 {
            '\u{E244}'
        } else if k == 4 {
            '\u{E246}'
        } else if k == 5 {
            '\u{E248}'
        } else {
            '\u{E24A}'
        },
        StemType::Down => if k == 1 {
            '\u{E241}'
        } else if k == 2 {
            '\u{E243}'
        } else if k == 3 {
            '\u{E245}'
        } else if k == 4 {
            '\u{E247}'
        } else if k == 5 {
            '\u{E249}'
        } else {
            '\u{E24B}'
        },
    }
}

/// The SMuFL code point of the flag for a note of length `2^-k`: `flag8thUp`
/// is U+E240, each halving of the length adds a hook and moves two code points
/// on, and each down flag follows its up flag.
pub open spec fn flag_code_point(t: StemType, k: int) -> int {
    0xE240 + 2 * (k - 1) + (if t == StemType::Down {
        1int
    } else {
        0int
    })
}

/// The flag glyphs are the SMuFL flags by code point: different lengths get
/// different flags, and each down flag is its up flag's code point plus one.
pub proof fn lemma_flag_code_points(t: StemType, k: int)
    requires
        1 <= k <= 6,
    ensures
        flag_glyph(t, k) as int == flag_code_point(t, k),
{
}

/// The glyphs a stem draws: the stem itself, absent for a whole note (length
/// 4), and a flag for lengths `1/2` down to `1/64`.
#[derive(Clone, Copy, PartialEq, Eq, Debug, Structural)]
pub struct StemGlyphs {
    pub stem: Option<char>,
    pub flag: Option<char>,
}

/// The stem and flag glyphs of a note of the given length (an `f32`
/// encoding) with a stem in direction `t`.
pub fn stem_glyphs(t: StemType, length: u32) -> (r: StemGlyphs)
    ensures
        r.stem == (if f32_equals(length, 4, 1) {
            None
        } else {
            Some(STEM)
        }),
        forall|k: int| 1 <= k <= 6 && #[trigger] f32_is_pow2(length, -k) ==> r.flag == Some(
            flag_glyph(t, k),
        ),
        forall|k: int|
            1 <= k <= 6 && #[trigger] f32_is_pow2(length, -k) ==> (r.flag matches Some(f) && f as int
                == flag_code_point(t, k)),
        (forall|k: int| 1 <= k <= 6 ==> !#[trigger] f32_is_pow2(length, -k)) ==> r.flag is None,
{
    proof {
        vstd::arithmetic::power2::lemma2_to64();
        lemma_f32_is_pow2(length, 2);
        lemma_f32_is_pow2(length, -1);
        lemma_f32_is_pow2(length, -2);
        lemma_f32_is_pow2(length, -3);
        lemma_f32_is_pow2(length, -4);
        lemma_f32_is_pow2(length, -5);
        lemma_f32_is_pow2(length, -6);
        assert(pow2_encoding(-1) == 0x3F00_0000);
        assert forall|k: int| 1 <= k <= 6 implies #[trigger] flag_glyph(t, k) as int
            == flag_code_point(t, k) by {
            lemma_flag_code_points(t, k);
        }
        assert(pow2_encoding(-6) == 0x3C80_0000);
    }
    let up = match t {
        StemType::Up => true,
        StemType::Down => false,
    };
    let flag = if length == 0x3F00_0000 {
        Some(if up { '\u{E240}' } else { '\u{E241}' })
    } else if length == 0x3E80_0000 {
        Some(if up { '\u{E242}' } else { '\u{E243}' })
    } else if length == 0x3E00_0000 {
        Some(if up { '\u{E244}' } else { '\u{E245}' })
    } else if length == 0x3D80_0000 {
        Some(if up { '\u{E246}' } else { '\u{E247}' })
    } else if length == 0x3D00_0000 {
        Some(if up { '\u{E248}' } else { '\u{E249}' })
    } else if length == 0x3C80_0000 {
        Some(if up { '\u{E24A}' } else { '\u{E24B}' })
    } else {
        None
    };
    let stem = if length != F32_FOUR {
        Some(STEM)
    } else {
        None
    };
    StemGlyphs { stem, flag }
}

/// Appends the drawn nodes of `vec2` to `vec1`, keeping their order.
pub fn push_svg_vec<T>(vec1: &mut Vec<T>, vec2: Vec<T>)
    ensures
        final(vec1)@ == old(vec1)@ + vec2@,
{
    let mut rest = vec2;
    vec1.append(&mut rest);
}

} // verus!
