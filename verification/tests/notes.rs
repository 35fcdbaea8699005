use abcrend::pitch::{note_offset_steps, Note};

// The staff offset in staff units: half of the library's offset in half units.
fn get_note_offset(note: &Note, octave: i8) -> f32 {
    note_offset_steps(*note, octave) as f32 * 0.5
}

// All 14 notes in ascending pitch order (note, octave).
const ASCENDING: [(Note, i8); 14] = [
    (Note::C, 1),
    (Note::D, 1),
    (Note::E, 1),
    (Note::F, 1),
    (Note::G, 1),
    (Note::A, 1),
    (Note::B, 1),
    (Note::C, 2),
    (Note::D, 2),
    (Note::E, 2),
    (Note::F, 2),
    (Note::G, 2),
    (Note::A, 2),
    (Note::B, 2),
];

// The offset of each note must be strictly greater than the one before it.
#[test]
fn note_offsets_increase_with_pitch() {
    let offsets: Vec<f32> = ASCENDING
        .iter()
        .map(|&(n, o)| get_note_offset(&n, o))
        .collect();
    for w in offsets.windows(2) {
        assert!(w[0] < w[1], "expected {} < {}", w[0], w[1]);
    }
}

// Every adjacent step in the diatonic sequence is exactly 0.5 units.
#[test]
fn note_offsets_are_uniform_half_unit_steps() {
    let offsets: Vec<f32> = ASCENDING
        .iter()
        .map(|&(n, o)| get_note_offset(&n, o))
        .collect();
    for w in offsets.windows(2) {
        assert!((w[1] - w[0] - 0.5).abs() < 1e-6, "step was {}", w[1] - w[0]);
    }
}

// E is the reference pitch; its offset is 0.
#[test]
fn e4_offset_is_zero() {
    assert_eq!(get_note_offset(&Note::E, 1), 0.0);
}

#[test]
fn offsets_in_half_units_match_the_scale() {
    assert_eq!(note_offset_steps(Note::C, 1), -2);
    assert_eq!(note_offset_steps(Note::D, 1), -1);
    assert_eq!(note_offset_steps(Note::B, 1), 4);
    assert_eq!(note_offset_steps(Note::C, 2), 5);
    assert_eq!(note_offset_steps(Note::G, 0), -5);
    assert_eq!(note_offset_steps(Note::E, -127), -896);
    assert_eq!(note_offset_steps(Note::B, 127), 886);
}

#[test]
fn octave_up_is_seven_half_units() {
    for &(n, o) in &ASCENDING {
        assert_eq!(note_offset_steps(n, o + 1), note_offset_steps(n, o) + 7);
    }
}

#[test]
fn letters_round_trip() {
    for &(n, _) in &ASCENDING {
        assert_eq!(Note::from_letter(n.letter()), Some(n));
    }
    assert_eq!(Note::from_letter('c'), None);
    assert_eq!(Note::from_letter('H'), None);
    assert_eq!(Note::G.letter(), 'G');
}
