//! Character classes of ABC text and greedy runs of them, as the PEG rules
//! of `abc_parser` consume them.

use vstd::prelude::*;

verus! {

/// An ASCII decimal digit.
pub open spec fn is_digit(c: char) -> bool {
    '0' <= c && c <= '9'
}

/// A digit that can start a number (`['1'..='9']`).
pub open spec fn is_nonzero_digit(c: char) -> bool {
    '1' <= c && c <= '9'
}

/// An octave mark: `,` lowers a note by an octave, `'` raises it.
pub open spec fn is_octave_mark(c: char) -> bool {
    c == ',' || c == '\''
}

/// A note letter, upper or lower case.
pub open spec fn is_note_letter(c: char) -> bool {
    ('A' <= c && c <= 'G') || ('a' <= c && c <= 'g')
}

/// A lower-case note letter: a note one octave up.
pub open spec fn is_lower_note_letter(c: char) -> bool {
    'a' <= c && c <= 'g'
}

/// An ASCII letter, the name of an information field.
pub open spec fn is_field_name(c: char) -> bool {
    ('A' <= c && c <= 'Z') || ('a' <= c && c <= 'z')
}

/// The character classes that runs are taken of: 0 digits, 1 spaces and
/// tabs, 2 octave marks, 3 slashes, 4 anything but a newline or `!`,
/// 5 anything but a newline.
pub open spec fn in_class(kind: int, c: char) -> bool {
    if kind == 0 {
        is_digit(c)
    } else if kind == 1 {
        c == ' ' || c == '\t'
    } else if kind == 2 {
        is_octave_mark(c)
    } else if kind == 3 {
        c == '/'
    } else if kind == 4 {
        c != '\n' && c != '!'
    } else {
        c != '\n'
    }
}

/// The end of the greedy run of class `kind` that starts at `i`.
pub open spec fn run_end(s: Seq<char>, i: int, kind: int) -> int
    decreases s.len() - i,
{
    if 0 <= i < s.len() && in_class(kind, s[i]) {
        run_end(s, i + 1, kind)
    } else {
        i
    }
}

pub proof fn lemma_run_end(s: Seq<char>, i: int, kind: int)
    requires
        0 <= i,
    ensures
        i <= run_end(s, i, kind),
        i <= s.len() ==> run_end(s, i, kind) <= s.len(),
        forall|k: int| i <= k < run_end(s, i, kind) ==> in_class(kind, #[trigger] s[k]),
        run_end(s, i, kind) < s.len() ==> !in_class(kind, s[run_end(s, i, kind)]),
    decreases s.len() - i,
{
    if 0 <= i < s.len() && in_class(kind, s[i]) {
        lemma_run_end(s, i + 1, kind);
    }
}

/// Value of the run of digits that ends just before index `i`.
pub open spec fn digit_value_before(s: Seq<char>, i: int) -> int
    decreases i,
{
    if i <= 0 || i > s.len() {
        0
    } else if is_digit(s[i - 1]) {
        10 * digit_value_before(s, i - 1) + (s[i - 1] as int - '0' as int)
    } else {
        0
    }
}

/// Within a run of digits the value grows.
pub proof fn lemma_digit_value_grows(s: Seq<char>, k: int, i: int)
    requires
        0 <= k <= i <= s.len(),
        forall|m: int| k <= m < i ==> is_digit(#[trigger] s[m]),
    ensures
        0 <= digit_value_before(s, k) <= digit_value_before(s, i),
    decreases i - k,
{
    lemma_digit_value_nonneg(s, k);
    if k < i {
        lemma_digit_value_grows(s, k, i - 1);
        lemma_digit_value_nonneg(s, i - 1);
    }
}

pub proof fn lemma_digit_value_nonneg(s: Seq<char>, i: int)
    ensures
        0 <= digit_value_before(s, i),
    decreases i,
{
    if 0 < i <= s.len() {
        lemma_digit_value_nonneg(s, i - 1);
    }
}

/// Whether `c` is in class `kind`.
pub fn char_in_class(kind: u8, c: char) -> (r: bool)
    ensures
        r == in_class(kind as int, c),
{
    if kind == 0 {
        '0' <= c && c <= '9'
    } else if kind == 1 {
        c == ' ' || c == '\t'
    } else if kind == 2 {
        c == ',' || c == '\''
    } else if kind == 3 {
        c == '/'
    } else if kind == 4 {
        c != '\n' && c != '!'
    } else {
        c != '\n'
    }
}

/// The end of the greedy run of class `kind` that starts at `i`.
pub fn scan_run(s: &Vec<char>, i: usize, kind: u8) -> (r: usize)
    requires
        i <= s@.len(),
    ensures
        r as int == run_end(s@, i as int, kind as int),
{
    let mut k = i;
    while k < s.len() && char_in_class(kind, s[k])
        invariant
            i <= k <= s@.len(),
            run_end(s@, k as int, kind as int) == run_end(s@, i as int, kind as int),
        decreases s@.len() - k,
    {
        k = k + 1;
    }
    k
}

/// The value of the digits `s[from..to]`, where `from` starts a run of
/// digits whose value up to `to` fits in a `u32`.
pub fn digits_value(s: &Vec<char>, from: usize, to: usize) -> (r: u64)
    requires
        from <= to <= s@.len(),
        from == 0 || !is_digit(s@[from - 1]),
        forall|m: int| from <= m < to ==> is_digit(#[trigger] s@[m]),
        digit_value_before(s@, to as int) <= u32::MAX,
    ensures
        r as int == digit_value_before(s@, to as int),
{
    let mut v: u64 = 0;
    let mut k = from;
    while k < to
        invariant
            from <= k <= to <= s@.len(),
            forall|m: int| from <= m < to ==> is_digit(#[trigger] s@[m]),
            digit_value_before(s@, to as int) <= u32::MAX,
            v as int == digit_value_before(s@, k as int),
        decreases to - k,
    {
        proof {
            lemma_digit_value_grows(s@, k + 1, to as int);
        }
        let c = s[k];
        let d = (c as u32 - '0' as u32) as u64;
        assert(d as int == s@[k as int] as int - '0' as int);
        v = v * 10 + d;
        k = k + 1;
    }
    v
}

} // verus!
