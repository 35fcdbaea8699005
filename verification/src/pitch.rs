//! Vertical placement of pitches on the staff.
//!
//! A pitch is a note letter and an octave (octave 1 holds the notes written
//! with capital letters in ABC). Its staff offset is measured from E in
//! octave 1, the bottom line of the treble staff, and each diatonic step moves
//! it by half a staff unit. The offsets are computed here in half units, where
//! they are integers; the staff offset is half of the value returned.

use vstd::prelude::*;

verus! {

/// The seven note letters.
#[derive(Clone, Copy, PartialEq, Eq, Debug, Structural)]
pub enum Note {
    C,
    D,
    E,
    F,
    G,
    A,
    B,
}

impl Note {
    /// Position of the letter in the scale that starts on C.
    pub open spec fn scale_index(self) -> int {
        match self {
            Note::C => 0,
            Note::D => 1,
            Note::E => 2,
            Note::F => 3,
            Note::G => 4,
            Note::A => 5,
            Note::B => 6,
        }
    }

    /// Offset of the letter from E within one octave, in half staff units.
    pub open spec fn base_offset(self) -> int {
        self.scale_index() - 2
    }

    /// The letter that ABC writes for this note, in upper case.
    pub open spec fn spec_letter(self) -> char {
        match self {
            Note::C => 'C',
            Note::D => 'D',
            Note::E => 'E',
            Note::F => 'F',
            Note::G => 'G',
            Note::A => 'A',
            Note::B => 'B',
        }
    }

    /// The note named by an upper-case letter, if it names one.
    pub open spec fn spec_from_letter(c: char) -> Option<Note> {
        if c == 'C' {
            Some(Note::C)
        } else if c == 'D' {
            Some(Note::D)
        } else if c == 'E' {
            Some(Note::E)
        } else if c == 'F' {
            Some(Note::F)
        } else if c == 'G' {
            Some(Note::G)
        } else if c == 'A' {
            Some(Note::A)
        } else if c == 'B' {
            Some(Note::B)
        } else {
            None
        }
    }

    /// The note named by an upper-case letter `'A'` to `'G'`.
    pub fn from_letter(c: char) -> (r: Option<Note>)
        ensures
            r == Note::spec_from_letter(c),
            r matches Some(n) ==> n.spec_letter() == c,
    {
        if c == 'C' {
            Some(Note::C)
        } else if c == 'D' {
            Some(Note::D)
        } else if c == 'E' {
            Some(Note::E)
        } else if c == 'F' {
            Some(Note::F)
        } else if c == 'G' {
            Some(Note::G)
        } else if c == 'A' {
            Some(Note::A)
        } else if c == 'B' {
            Some(Note::B)
        } else {
            None
        }
    }

    /// The letter that ABC writes for this note, in upper case.
    pub fn letter(&self) -> (c: char)
        ensures
            c == self.spec_letter(),
            Note::spec_from_letter(c) == Some(*self),
    {
        match self {
            Note::C => 'C',
            Note::D => 'D',
            Note::E => 'E',
            Note::F => 'F',
            Note::G => 'G',
            Note::A => 'A',
            Note::B => 'B',
        }
    }
}

/// Staff offset of a pitch in half staff units: twice the distance from E in
/// octave 1, counted in staff units.
pub open spec fn note_offset_half_units(note: Note, octave: int) -> int {
    note.base_offset() + 7 * (octave - 1)
}

/// The pitch one diatonic step above `(note, octave)`.
pub open spec fn next_pitch(note: Note, octave: int) -> (Note, int) {
    match note {
        Note::C => (Note::D, octave),
        Note::D => (Note::E, octave),
        Note::E => (Note::F, octave),
        Note::F => (Note::G, octave),
        Note::G => (Note::A, octave),
        Note::A => (Note::B, octave),
        Note::B => (Note::C, octave + 1),
    }
}

/// Pitch order: octave first, then the letter's place in the scale from C.
pub open spec fn pitch_below(n1: Note, o1: int, n2: Note, o2: int) -> bool {
    o1 < o2 || (o1 == o2 && n1.scale_index() < n2.scale_index())
}

/// The staff offset of a note, in half staff units.
///
/// The offset in staff units is half of the result: E in octave 1 sits at 0,
/// each diatonic step adds one half unit and each octave adds seven.
pub fn note_offset_steps(note: Note, octave: i8) -> (r: i32)
    requires
        octave > i8::MIN,
    ensures
        r == note_offset_half_units(note, octave as int),
{
    let base: i32 = match note {
        Note::C => -2,
        Note::D => -1,
        Note::E => 0,
        Note::F => 1,
        Note::G => 2,
        Note::A => 3,
        Note::B => 4,
    };
    let lowered: i8 = octave - 1;
    base + (lowered as i32) * 7
}

/// E in octave 1, the reference pitch, is at offset zero.
pub proof fn lemma_reference_pitch_is_zero()
    ensures
        note_offset_half_units(Note::E, 1) == 0,
{
}

/// Every step up the diatonic scale raises the offset by exactly half a staff
/// unit, across octave boundaries too.
pub proof fn lemma_step_is_half_unit(note: Note, octave: int)
    ensures
        note_offset_half_units(next_pitch(note, octave).0, next_pitch(note, octave).1)
            == note_offset_half_units(note, octave) + 1,
{
}

/// Raising a note by an octave raises its offset by seven half units.
pub proof fn lemma_octave_is_seven_steps(note: Note, octave: int)
    ensures
        note_offset_half_units(note, octave + 1) == note_offset_half_units(note, octave) + 7,
{
}

/// Offsets strictly increase with pitch.
pub proof fn lemma_offset_increases_with_pitch(n1: Note, o1: int, n2: Note, o2: int)
    requires
        pitch_below(n1, o1, n2, o2),
    ensures
        note_offset_half_units(n1, o1) < note_offset_half_units(n2, o2),
{
}

} // verus!
