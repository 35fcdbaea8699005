//! Where `abc_parser` builds a tuplet, and whether that build panics.
//!
//! In `abc_parser` 0.3.0 a tuplet is `(` and a count `p`, optionally `:q:r`
//! or `:q`, optional spaces, then exactly `p` notes. Once the notes have
//! matched, the tuplet is built with `TUPLET_Q[p - 2]`, which panics unless
//! `p` is 2 to 9. The note rule is followed here as the PEG reads it:
//! decorations, an optional accidental, a letter, octave marks, a length and
//! a tie, each part taken greedily.

use vstd::prelude::*;
use crate::lexis::{
    is_digit,
    is_nonzero_digit,
    is_note_letter,
    run_end,
    lemma_run_end,
    digit_value_before,
    scan_run,
    digits_value,
};

verus! {

/// A one-character decoration: `.~HLMOPSTuv`.
pub open spec fn is_decoration_char(c: char) -> bool {
    c == '.' || c == '~' || c == 'H' || c == 'L' || c == 'M' || c == 'O' || c == 'P' || c == 'S'
        || c == 'T' || c == 'u' || c == 'v'
}

/// The end of one decoration starting at `i`, with the spaces after it.
pub open spec fn decoration_end(s: Seq<char>, i: int) -> Option<int> {
    if 0 <= i < s.len() && is_decoration_char(s[i]) {
        Some(run_end(s, i + 1, 1))
    } else if 0 <= i < s.len() && s[i] == '!' {
        let k = run_end(s, i + 1, 4);
        if k > i + 1 && k < s.len() && s[k] == '!' {
            Some(run_end(s, k + 1, 1))
        } else {
            None
        }
    } else {
        None
    }
}

pub proof fn lemma_decoration_end(s: Seq<char>, i: int)
    requires
        0 <= i,
    ensures
        decoration_end(s, i) matches Some(e) ==> i < e <= s.len(),
{
    lemma_run_end(s, i + 1, 1);
    lemma_run_end(s, i + 1, 4);
    let k = run_end(s, i + 1, 4);
    lemma_run_end(s, k + 1, 1);
}

/// The end of the decorations starting at `i` (none is fine).
pub open spec fn decorations_end(s: Seq<char>, i: int) -> int
    decreases s.len() - i,
{
    if 0 <= i {
        match decoration_end(s, i) {
            Some(e) => {
                proof {
                    lemma_decoration_end(s, i);
                }
                decorations_end(s, e)
            },
            None => i,
        }
    } else {
        i
    }
}

pub proof fn lemma_decorations_end(s: Seq<char>, i: int)
    requires
        0 <= i <= s.len(),
    ensures
        i <= decorations_end(s, i) <= s.len(),
    decreases s.len() - i,
{
    lemma_decoration_end(s, i);
    if let Some(e) = decoration_end(s, i) {
        lemma_decorations_end(s, e);
    }
}

/// The end of an optional accidental at `i`: `^^`, `__`, `^`, `_` or `=`.
pub open spec fn accidental_end(s: Seq<char>, i: int) -> int {
    if 0 <= i && i + 1 < s.len() && ((s[i] == '^' && s[i + 1] == '^') || (s[i] == '_' && s[i
        + 1] == '_')) {
        i + 2
    } else if 0 <= i < s.len() && (s[i] == '^' || s[i] == '_' || s[i] == '=') {
        i + 1
    } else {
        i
    }
}

/// The end of a number starting at `i`, if one does.
pub open spec fn number_end(s: Seq<char>, i: int) -> Option<int> {
    if 0 <= i < s.len() && is_nonzero_digit(s[i]) {
        Some(run_end(s, i + 1, 0))
    } else {
        None
    }
}

/// The end of an optional number at `i`.
pub open spec fn opt_number_end(s: Seq<char>, i: int) -> int {
    match number_end(s, i) {
        Some(e) => e,
        None => i,
    }
}

/// The end of an optional length at `i`: `/n`, a run of slashes, `n/m` or `n`.
pub open spec fn length_end(s: Seq<char>, i: int) -> int {
    if 0 <= i < s.len() && s[i] == '/' {
        match number_end(s, i + 1) {
            Some(e) => e,
            None => run_end(s, i, 3),
        }
    } else {
        match number_end(s, i) {
            Some(e1) => if e1 < s.len() && s[e1] == '/' {
                match number_end(s, e1 + 1) {
                    Some(e2) => e2,
                    None => e1,
                }
            } else {
                e1
            },
            None => i,
        }
    }
}

/// The end of an optional tie at `i`: `.-` or `-`.
pub open spec fn tie_end(s: Seq<char>, i: int) -> int {
    if 0 <= i && i + 1 < s.len() && s[i] == '.' && s[i + 1] == '-' {
        i + 2
    } else if 0 <= i < s.len() && s[i] == '-' {
        i + 1
    } else {
        i
    }
}

/// The end of the note starting at `i`, if the note rule matches there.
pub open spec fn note_end(s: Seq<char>, i: int) -> Option<int> {
    let a = accidental_end(s, decorations_end(s, i));
    if 0 <= a < s.len() && is_note_letter(s[a]) {
        Some(tie_end(s, length_end(s, run_end(s, a + 1, 2))))
    } else {
        None
    }
}

pub proof fn lemma_note_end(s: Seq<char>, i: int)
    requires
        0 <= i <= s.len(),
    ensures
        note_end(s, i) matches Some(e) ==> i < e <= s.len(),
{
    lemma_decorations_end(s, i);
    let a = accidental_end(s, decorations_end(s, i));
    if 0 <= a < s.len() && is_note_letter(s[a]) {
        lemma_run_end(s, a + 1, 2);
        let o = run_end(s, a + 1, 2);
        lemma_run_end(s, o, 3);
        lemma_run_end(s, o + 1, 0);
        if let Some(e1) = number_end(s, o) {
            lemma_run_end(s, e1 + 1, 0);
        }
    }
}

/// Whether `k` notes follow one another from `i`.
pub open spec fn notes_follow(s: Seq<char>, i: int, k: nat) -> bool
    decreases k,
{
    if k == 0 {
        true
    } else {
        match note_end(s, i) {
            Some(e) => notes_follow(s, e, (k - 1) as nat),
            None => false,
        }
    }
}

/// The alternatives of the tuplet rule for `(` at `j` with count `p` ending
/// at `e`: whether the `p` notes of one of them match.
pub open spec fn tuplet_notes_match(s: Seq<char>, e: int, p: nat) -> bool {
    let plain = notes_follow(s, run_end(s, e, 1), p);
    let full = e < s.len() && s[e] == ':' && {
        let e2 = opt_number_end(s, e + 1);
        e2 < s.len() && s[e2] == ':' && notes_follow(
            s,
            run_end(s, opt_number_end(s, e2 + 1), 1),
            p,
        )
    };
    let short = e < s.len() && s[e] == ':' && match number_end(s, e + 1) {
        Some(e2) => notes_follow(s, run_end(s, e2, 1), p),
        None => false,
    };
    plain || full || short
}

/// Whether building a tuplet at index `j` panics: `(`, a count that is 1 or
/// 10 and more, and the notes of one of the rule's alternatives.
pub open spec fn tuplet_panics_at(s: Seq<char>, j: int) -> bool {
    0 <= j && j + 1 < s.len() && s[j] == '(' && is_nonzero_digit(s[j + 1]) && {
        let e = run_end(s, j + 2, 0);
        let p = digit_value_before(s, e);
        (p == 1 || p >= 10) && tuplet_notes_match(s, e, p as nat)
    }
}

/// A tuplet whose count is a single digit from 2 to 9 never panics, whatever
/// follows it.
pub proof fn lemma_small_counts_never_panic(s: Seq<char>, j: int)
    requires
        0 <= j,
        j + 1 < s.len(),
        s[j] == '(',
        '2' <= s[j + 1] && s[j + 1] <= '9',
        j + 2 == s.len() || !is_digit(s[j + 2]),
    ensures
        !tuplet_panics_at(s, j),
{
    let e = run_end(s, j + 2, 0);
    assert(e == j + 2);
    assert(digit_value_before(s, j + 1) == 0);
    assert(digit_value_before(s, j + 2) == s[j + 1] as int - '0' as int);
}

/// A count of 1 followed directly by a note does panic.
pub proof fn lemma_count_one_before_note_panics(s: Seq<char>, j: int)
    requires
        0 <= j,
        j + 2 <= s.len(),
        s[j] == '(',
        s[j + 1] == '1',
        j + 2 == s.len() || !is_digit(s[j + 2]),
        j + 2 == s.len() || (s[j + 2] != ' ' && s[j + 2] != '\t'),
        note_end(s, j + 2) is Some,
    ensures
        tuplet_panics_at(s, j),
{
    let e = run_end(s, j + 2, 0);
    assert(e == j + 2);
    assert(digit_value_before(s, j + 1) == 0);
    assert(digit_value_before(s, j + 2) == 1);
    assert(run_end(s, j + 2, 1) == j + 2);
    let ne = note_end(s, j + 2).unwrap();
    assert(notes_follow(s, ne, 0));
    assert(notes_follow(s, j + 2, 1));
}

fn is_decoration_char_exec(c: char) -> (r: bool)
    ensures
        r == is_decoration_char(c),
{
    c == '.' || c == '~' || c == 'H' || c == 'L' || c == 'M' || c == 'O' || c == 'P' || c == 'S'
        || c == 'T' || c == 'u' || c == 'v'
}

fn decoration_end_exec(s: &Vec<char>, i: usize) -> (r: Option<usize>)
    requires
        i <= s@.len(),
    ensures
        r matches Some(e) ==> decoration_end(s@, i as int) == Some(e as int),
        r is None ==> decoration_end(s@, i as int) is None,
{
    if i < s.len() && is_decoration_char_exec(s[i]) {
        Some(scan_run(s, i + 1, 1))
    } else if i < s.len() && s[i] == '!' {
        let k = scan_run(s, i + 1, 4);
        if k > i + 1 && k < s.len() && s[k] == '!' {
            Some(scan_run(s, k + 1, 1))
        } else {
            None
        }
    } else {
        None
    }
}

fn decorations_end_exec(s: &Vec<char>, i: usize) -> (r: usize)
    requires
        i <= s@.len(),
    ensures
        r as int == decorations_end(s@, i as int),
{
    let mut k = i;
    loop
        invariant
            i <= k <= s@.len(),
            decorations_end(s@, k as int) == decorations_end(s@, i as int),
        decreases s@.len() - k,
    {
        proof {
            lemma_decoration_end(s@, k as int);
        }
        match decoration_end_exec(s, k) {
            Some(e) => {
                k = e;
            },
            None => {
                return k;
            },
        }
    }
}

fn accidental_end_exec(s: &Vec<char>, i: usize) -> (r: usize)
    requires
        i <= s@.len(),
    ensures
        r as int == accidental_end(s@, i as int),
{
    if i < s.len() && i + 1 < s.len() && ((s[i] == '^' && s[i + 1] == '^') || (s[i] == '_' && s[i + 1] == '_')) {
        i + 2
    } else if i < s.len() && (s[i] == '^' || s[i] == '_' || s[i] == '=') {
        i + 1
    } else {
        i
    }
}

fn number_end_exec(s: &Vec<char>, i: usize) -> (r: Option<usize>)
    requires
        i <= s@.len(),
    ensures
        r matches Some(e) ==> number_end(s@, i as int) == Some(e as int),
        r is None ==> number_end(s@, i as int) is None,
{
    if i < s.len() && '1' <= s[i] && s[i] <= '9' {
        Some(scan_run(s, i + 1, 0))
    } else {
        None
    }
}

fn opt_number_end_exec(s: &Vec<char>, i: usize) -> (r: usize)
    requires
        i <= s@.len(),
    ensures
        r as int == opt_number_end(s@, i as int),
        r <= s@.len(),
{
    proof {
        lemma_run_end(s@, i + 1, 0);
    }
    match number_end_exec(s, i) {
        Some(e) => e,
        None => i,
    }
}

fn length_end_exec(s: &Vec<char>, i: usize) -> (r: usize)
    requires
        i <= s@.len(),
    ensures
        r as int == length_end(s@, i as int),
{
    proof {
        lemma_run_end(s@, i + 1, 0);
        lemma_run_end(s@, i + 2, 0);
    }
    if i < s.len() && s[i] == '/' {
        match number_end_exec(s, i + 1) {
            Some(e) => e,
            None => scan_run(s, i, 3),
        }
    } else {
        match number_end_exec(s, i) {
            Some(e1) => {
                proof {
                    lemma_run_end(s@, e1 + 1, 0);
                }
                if e1 < s.len() && s[e1] == '/' {
                    match number_end_exec(s, e1 + 1) {
                        Some(e2) => e2,
                        None => e1,
                    }
                } else {
                    e1
                }
            },
            None => i,
        }
    }
}

fn tie_end_exec(s: &Vec<char>, i: usize) -> (r: usize)
    requires
        i <= s@.len(),
    ensures
        r as int == tie_end(s@, i as int),
{
    if i < s.len() && i + 1 < s.len() && s[i] == '.' && s[i + 1] == '-' {
        i + 2
    } else if i < s.len() && s[i] == '-' {
        i + 1
    } else {
        i
    }
}

fn note_end_exec(s: &Vec<char>, i: usize) -> (r: Option<usize>)
    requires
        i <= s@.len(),
    ensures
        r matches Some(e) ==> note_end(s@, i as int) == Some(e as int),
        r is None ==> note_end(s@, i as int) is None,
{
    proof {
        lemma_decorations_end(s@, i as int);
    }
    let d = decorations_end_exec(s, i);
    proof {
        assert(accidental_end(s@, d as int) <= d + 2);
    }
    let a = accidental_end_exec(s, d);
    if a < s.len() && (('A' <= s[a] && s[a] <= 'G') || ('a' <= s[a] && s[a] <= 'g')) {
        proof {
            lemma_run_end(s@, a + 1, 2);
            lemma_run_end(s@, run_end(s@, a + 1, 2), 3);
            lemma_run_end(s@, run_end(s@, a + 1, 2) + 1, 0);
            lemma_run_end(s@, run_end(s@, a + 1, 2) + 2, 0);
            let o = run_end(s@, a + 1, 2);
            if let Some(e1) = number_end(s@, o) {
                lemma_run_end(s@, e1 + 1, 0);
                lemma_run_end(s@, e1 + 2, 0);
            }
        }
        let o = scan_run(s, a + 1, 2);
        let l = length_end_exec(s, o);
        proof {
            lemma_note_end(s@, i as int);
        }
        Some(tie_end_exec(s, l))
    } else {
        None
    }
}

/// Whether `k` notes follow one another from `i`.
fn notes_follow_exec(s: &Vec<char>, i: usize, k: u64) -> (r: bool)
    requires
        i <= s@.len(),
    ensures
        r == notes_follow(s@, i as int, k as nat),
{
    let mut pos = i;
    let mut left = k;
    while left > 0
        invariant
            i <= pos <= s@.len(),
            notes_follow(s@, pos as int, left as nat) == notes_follow(s@, i as int, k as nat),
        decreases s@.len() - pos,
    {
        proof {
            lemma_note_end(s@, pos as int);
        }
        match note_end_exec(s, pos) {
            Some(e) => {
                pos = e;
                left = left - 1;
            },
            None => {
                return false;
            },
        }
    }
    true
}

/// Whether building a tuplet at index `j` panics, given that the count after
/// the `(` fits in a `u32`.
pub fn tuplet_panics_at_exec(s: &Vec<char>, j: usize) -> (r: bool)
    requires
        j < s@.len(),
        j + 1 < s@.len() && s@[j as int] == '(' && is_nonzero_digit(s@[j + 1])
            ==> digit_value_before(s@, run_end(s@, j + 2, 0)) <= u32::MAX,
    ensures
        r == tuplet_panics_at(s@, j as int),
{
    let n = s.len();
    if !(j + 1 < n && s[j] == '(' && '1' <= s[j + 1] && s[j + 1] <= '9') {
        return false;
    }
    let e = scan_run(s, j + 2, 0);
    proof {
        lemma_run_end(s@, j + 2, 0);
        assert forall|m: int| j + 1 <= m < e implies is_digit(#[trigger] s@[m]) by {
            if m > j + 1 {
                assert(is_digit(s@[m]));
            }
        }
    }
    let p = digits_value(s, j + 1, e);
    if !(p == 1 || p >= 10) {
        return false;
    }
    proof {
        lemma_run_end(s@, e as int, 1);
        lemma_run_end(s@, e + 1, 0);
        lemma_run_end(s@, e + 2, 0);
    }
    let plain = notes_follow_exec(s, scan_run(s, e, 1), p);
    let mut full = false;
    let mut short = false;
    if e < s.len() && s[e] == ':' {
        let e2 = opt_number_end_exec(s, e + 1);
        if e2 < s.len() && s[e2] == ':' {
            let e3 = opt_number_end_exec(s, e2 + 1);
            proof {
                lemma_run_end(s@, e3 as int, 1);
            }
            full = notes_follow_exec(s, scan_run(s, e3, 1), p);
        }
        match number_end_exec(s, e + 1) {
            Some(e4) => {
                proof {
                    lemma_run_end(s@, e4 as int, 1);
                }
                short = notes_follow_exec(s, scan_run(s, e4, 1), p);
            },
            None => {},
        }
    }
    plain || full || short
}

} // verus!
