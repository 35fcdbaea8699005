//! Which parts of an ABC text the parser reads with its number, octave and
//! tuplet rules, and whether it can read them without panicking.
//!
//! `abc_parser` (0.3.0) panics when a number it parses exceeds `u32`, when an
//! octave count leaves `i8`, or when it builds a tuplet of 1 or of 10 and more
//! notes. Its `tune_book` rule first tries a file header: information field
//! lines up to a blank line, read as plain text. Then come tunes: an `X:` line
//! with a number, a `T:` line, further field lines read as text, a `K:` line,
//! and music lines. Only music lines and `X:` lines reach the rules that panic.
//!
//! After the file header (if the text has one), lines are scanned in one of
//! three modes: outside a tune (at the start), in a tune header (after an
//! `X:` line that the header rule accepts: `X:`, spaces or tabs, a number),
//! and in music (after a `K:` line of a tune header). Music lines, and every
//! line that starts with `X`, are the lines the parser may read with those
//! rules.

use vstd::prelude::*;
use crate::lexis::{
    is_digit,
    is_nonzero_digit,
    is_octave_mark,
    is_note_letter,
    is_lower_note_letter,
    is_field_name,
    run_end,
    lemma_run_end,
    digit_value_before,
    scan_run,
};
use crate::tuplet::{tuplet_panics_at, tuplet_panics_at_exec};

verus! {

/// Whether an information field line (a letter, `:`, text, a newline)
/// starts at `i`.
pub open spec fn is_field_line(s: Seq<char>, i: int) -> bool {
    0 <= i && i + 1 < s.len() && is_field_name(s[i]) && s[i + 1] == ':' && run_end(s, i, 5)
        < s.len()
}

/// Where the file header that starts with field lines at `i` ends: just
/// after its blank line, or 0 if there is no blank line after the field lines.
pub open spec fn header_end_from(s: Seq<char>, i: int) -> int
    decreases s.len() - i,
{
    if 0 <= i < s.len() && s[i] == '\n' {
        i + 1
    } else if is_field_line(s, i) {
        proof {
            lemma_run_end(s, i, 5);
        }
        header_end_from(s, run_end(s, i, 5) + 1)
    } else {
        0
    }
}

/// Where the parser's optional file header ends (0 when there is none).
pub open spec fn file_header_end(s: Seq<char>) -> int {
    header_end_from(s, 0)
}

proof fn lemma_header_end_from(s: Seq<char>, i: int)
    requires
        0 <= i,
    ensures
        header_end_from(s, i) == 0 || (0 < header_end_from(s, i) <= s.len() && s[header_end_from(
            s,
            i,
        ) - 1] == '\n'),
    decreases s.len() - i,
{
    if 0 <= i < s.len() && s[i] == '\n' {
    } else if is_field_line(s, i) {
        lemma_run_end(s, i, 5);
        lemma_header_end_from(s, run_end(s, i, 5) + 1);
    }
}

/// Line classes while reading a line:
/// 0 nothing read yet; 1 `X`; 2 `X:` and spaces or tabs; 3 `X:`, spaces or
/// tabs and a number starting with 1 to 9 (the accepted tune header line);
/// 4 `K`; 5 a line starting `K:`; 6 another line starting with `X`;
/// 7 any other line.
pub open spec fn line_class_step(class: int, c: char) -> int {
    if class == 0 {
        if c == 'X' {
            1
        } else if c == 'K' {
            4
        } else {
            7
        }
    } else if class == 1 {
        if c == ':' {
            2
        } else {
            6
        }
    } else if class == 2 {
        if c == ' ' || c == '\t' {
            2
        } else if '1' <= c && c <= '9' {
            3
        } else {
            6
        }
    } else if class == 3 {
        if is_digit(c) {
            3
        } else {
            6
        }
    } else if class == 4 {
        if c == ':' {
            5
        } else {
            7
        }
    } else {
        class
    }
}

/// The mode after a line of the given class ends: an accepted `X:` line
/// starts a tune header (1); a `K:` line in a tune header starts the music
/// (2); otherwise the mode stays (0 is outside any tune).
pub open spec fn mode_after_line(mode: int, class: int) -> int {
    if class == 3 {
        1
    } else if mode == 1 && class == 5 {
        2
    } else {
        mode
    }
}

/// The scan state before index `i`, scanning from `start`: the mode of the
/// current line and the class of what has been read of it.
pub open spec fn scan_from(s: Seq<char>, start: int, i: int) -> (int, int)
    decreases i - start,
{
    if i <= start || i > s.len() {
        (0, 0)
    } else {
        let (mode, class) = scan_from(s, start, i - 1);
        let c = s[i - 1];
        if c == '\n' {
            (mode_after_line(mode, class), 0)
        } else {
            (mode, line_class_step(class, c))
        }
    }
}

/// Whether the character at index `j` lies on a line that the parser may read
/// with its number, octave and tuplet rules.
pub open spec fn parser_reaches(s: Seq<char>, j: int) -> bool {
    let start = file_header_end(s);
    let (mode, class) = scan_from(s, start, j);
    start <= j && (mode == 2 || class == 1 || class == 2 || class == 3 || class == 6 || (class
        == 0 && 0 <= j < s.len() && s[j] == 'X'))
}

/// The octave that the run of octave marks ending just before index `i`
/// counts to, starting from 1.
pub open spec fn octave_before(s: Seq<char>, i: int) -> int
    decreases i,
{
    if i <= 0 || i > s.len() {
        1
    } else if s[i - 1] == '\'' {
        octave_before(s, i - 1) + 1
    } else if s[i - 1] == ',' {
        octave_before(s, i - 1) - 1
    } else {
        1
    }
}

/// The character before the run of octave marks that ends just before `i`.
pub open spec fn before_marks(s: Seq<char>, i: int) -> Option<char>
    decreases i,
{
    if i <= 0 || i > s.len() {
        None
    } else if is_octave_mark(s[i - 1]) {
        before_marks(s, i - 1)
    } else {
        Some(s[i - 1])
    }
}

/// Octave marks after a note letter count within `i8` at every step, and to
/// at most 126 after a lower-case letter, which adds one more octave.
pub open spec fn octave_ok(s: Seq<char>, i: int) -> bool {
    match before_marks(s, i) {
        Some(c) => is_note_letter(c) ==> (-128 <= octave_before(s, i) <= 127 && ((i >= s.len()
            || !is_octave_mark(s[i])) && is_lower_note_letter(c) ==> octave_before(s, i) <= 126)),
        None => true,
    }
}

/// The texts on which `abc_parser::abc::tune_book` cannot panic: on the lines
/// it may read with its number, octave and tuplet rules, every run of digits
/// has a value that fits in a `u32`, octave marks after a note letter keep
/// its octave within `i8`, and no tuplet of 1 or of 10 and more notes matches.
pub open spec fn parser_input_in_bounds(s: Seq<char>) -> bool {
    &&& forall|i: int|
        0 < i <= s.len() && parser_reaches(s, i - 1) ==> #[trigger] digit_value_before(s, i)
            <= u32::MAX
    &&& forall|i: int|
        0 < i <= s.len() && parser_reaches(s, i - 1) && is_octave_mark(s[i - 1])
            ==> #[trigger] octave_ok(s, i)
    &&& forall|j: int| 0 <= j < s.len() && parser_reaches(s, j) ==> !#[trigger] tuplet_panics_at(s, j)
}

proof fn lemma_class_range(s: Seq<char>, start: int, i: int)
    ensures
        0 <= scan_from(s, start, i).1 <= 7,
    decreases i - start,
{
    if start < i <= s.len() {
        lemma_class_range(s, start, i - 1);
    }
}

/// Within a line the parser reaches all characters or none.
proof fn lemma_reach_within_line(s: Seq<char>, i: int)
    requires
        0 < i < s.len(),
        s[i - 1] != '\n',
    ensures
        parser_reaches(s, i - 1) == parser_reaches(s, i),
{
    let start = file_header_end(s);
    lemma_header_end_from(s, 0);
    if start <= i - 1 {
        let (m0, c0) = scan_from(s, start, i - 1);
        assert(scan_from(s, start, i) == (m0, line_class_step(c0, s[i - 1])));
        lemma_class_range(s, start, i - 1);
    }
}

/// Along a stretch without newlines the parser reaches all characters or none.
proof fn lemma_reach_along(s: Seq<char>, j: int, k: int)
    requires
        0 <= j <= k < s.len(),
        forall|m: int| j <= m < k ==> #[trigger] s[m] != '\n',
    ensures
        parser_reaches(s, j) == parser_reaches(s, k),
    decreases k - j,
{
    if j < k {
        lemma_reach_along(s, j, k - 1);
        assert(s[k - 1] != '\n');
        lemma_reach_within_line(s, k);
    }
}

/// The characters of a string, in order.
fn chars_of(s: &str) -> (v: Vec<char>)
    ensures
        v@ == s@,
{
    let mut v: Vec<char> = Vec::new();
    let n = s.unicode_len();
    let mut i: usize = 0;
    while i < n
        invariant
            n == s@.len(),
            i <= n,
            v@ == s@.subrange(0, i as int),
        decreases n - i,
    {
        v.push(s.get_char(i));
        i = i + 1;
    }
    v
}

/// Where the file header ends; `file_header_end` computed.
fn file_header_end_exec(s: &Vec<char>) -> (r: usize)
    ensures
        r as int == file_header_end(s@),
{
    let n = s.len();
    let mut i: usize = 0;
    loop
        invariant
            n == s@.len(),
            i <= n,
            header_end_from(s@, i as int) == file_header_end(s@),
        decreases n - i,
    {
        if i < n && s[i] == '\n' {
            return i + 1;
        }
        let e = scan_run(s, i, 5);
        proof {
            lemma_run_end(s@, i as int, 5);
        }
        if i < n && i + 1 < n && (('A' <= s[i] && s[i] <= 'Z') || ('a' <= s[i] && s[i] <= 'z')) && s[i + 1]
            == ':' && e < n {
            i = e + 1;
        } else {
            return 0;
        }
    }
}

/// The class after reading `c`; `line_class_step` computed.
fn next_class(class: u8, c: char) -> (r: u8)
    requires
        class <= 7,
    ensures
        r as int == line_class_step(class as int, c),
        r <= 7,
{
    if class == 0 {
        if c == 'X' {
            1
        } else if c == 'K' {
            4
        } else {
            7
        }
    } else if class == 1 {
        if c == ':' {
            2
        } else {
            6
        }
    } else if class == 2 {
        if c == ' ' || c == '\t' {
            2
        } else if '1' <= c && c <= '9' {
            3
        } else {
            6
        }
    } else if class == 3 {
        if '0' <= c && c <= '9' {
            3
        } else {
            6
        }
    } else if class == 4 {
        if c == ':' {
            5
        } else {
            7
        }
    } else {
        class
    }
}

/// The scan state after reading `c` in state `(mode, class)`.
fn scan_step(mode: u8, class: u8, c: char) -> (r: (u8, u8))
    requires
        mode <= 2,
        class <= 7,
    ensures
        r.0 <= 2,
        r.1 <= 7,
        (r.0 as int, r.1 as int) == (if c == '\n' {
            (mode_after_line(mode as int, class as int), 0)
        } else {
            (mode as int, line_class_step(class as int, c))
        }),
{
    if c == '\n' {
        let m = if class == 3 {
            1
        } else if mode == 1 && class == 5 {
            2
        } else {
            mode
        };
        (m, 0)
    } else {
        (mode, next_class(class, c))
    }
}

/// Whether the digits and octave marks of the lines the parser reaches stay
/// within `u32` and `i8`.
#[verifier::rlimit(60)]
fn numbers_in_bounds(s: &Vec<char>, start: usize) -> (r: bool)
    requires
        start as int == file_header_end(s@),
    ensures
        r == ((forall|i: int|
            0 < i <= s@.len() && parser_reaches(s@, i - 1) ==> #[trigger] digit_value_before(s@, i)
                <= u32::MAX) && (forall|i: int|
            0 < i <= s@.len() && parser_reaches(s@, i - 1) && is_octave_mark(s@[i - 1])
                ==> #[trigger] octave_ok(s@, i))),
{
    let n = s.len();
    let ghost t = s@;
    proof {
        lemma_header_end_from(t, 0);
    }
    let mut mode: u8 = 0;
    let mut class: u8 = 0;
    let mut value: u64 = 0;
    let mut octave: i64 = 1;
    let mut head: Option<char> = None;
    let mut prev_reached = false;
    let mut i: usize = 0;
    while i < n
        invariant
            t == s@,
            n == t.len(),
            start as int == file_header_end(t),
            start <= n,
            start > 0 ==> t[start - 1] == '\n',
            i <= n,
            mode <= 2,
            class <= 7,
            i >= start ==> scan_from(t, start as int, i as int) == (mode as int, class as int),
            i < start ==> mode == 0 && class == 0,
            value <= u32::MAX,
            -128 <= octave <= 127,
            head == before_marks(t, i as int),
            i > 0 ==> prev_reached == parser_reaches(t, i - 1),
            i > 0 && parser_reaches(t, i - 1) ==> value == digit_value_before(t, i as int),
            (i == 0 || !is_digit(t[i - 1])) ==> value == 0,
            i > 0 && parser_reaches(t, i - 1) && is_octave_mark(t[i - 1]) && (head matches Some(
                h,
            ) && is_note_letter(h)) ==> octave == octave_before(t, i as int),
            (i == 0 || !is_octave_mark(t[i - 1])) ==> octave == 1,
            forall|k: int|
                0 < k <= i && parser_reaches(t, k - 1) ==> #[trigger] digit_value_before(t, k)
                    <= u32::MAX,
            forall|k: int|
                0 < k < i && parser_reaches(t, k - 1) && is_octave_mark(t[k - 1])
                    ==> #[trigger] octave_ok(t, k),
            i > 0 && parser_reaches(t, i - 1) && is_octave_mark(t[i - 1]) && (head matches Some(
                h,
            ) && is_note_letter(h)) ==> -128 <= octave_before(t, i as int) <= 127,
        decreases n - i,
    {
        let c = s[i];
        let reached = i >= start && (mode == 2 || class == 1 || class == 2 || class == 3 || class
            == 6 || (class == 0 && c == 'X'));
        assert(reached == parser_reaches(t, i as int));
        proof {
            if i > 0 && t[i - 1] != '\n' {
                lemma_reach_within_line(t, i as int);
            }
        }
        // the run of octave marks that ended just before `c`, if any, is complete
        let lower_head = match head {
            Some(h) => 'a' <= h && h <= 'g',
            None => false,
        };
        if i > 0 && prev_reached && (s[i - 1] == ',' || s[i - 1] == '\'') && !(c == ','
            || c == '\'') && lower_head && octave > 126 {
            proof {
                let k = i as int;
                assert(0 < k <= s@.len() && parser_reaches(s@, k - 1) && is_octave_mark(s@[k - 1]));
                assert(!octave_ok(s@, k));
            }
            return false;
        }
        assert(i > 0 && parser_reaches(t, i - 1) && is_octave_mark(t[i - 1]) ==> octave_ok(
            t,
            i as int,
        ));
        // digits
        if '0' <= c && c <= '9' {
            if reached {
                proof {
                    if i > 0 && is_digit(t[i - 1]) {
                        assert(parser_reaches(t, i - 1));
                    }
                }
                let d = (c as u32 - '0' as u32) as u64;
                assert(d as int == t[i as int] as int - '0' as int);
                value = value * 10 + d;
                assert(digit_value_before(t, i + 1) == value);
                if value > 0xFFFF_FFFF {
                    proof {
                        let k = i + 1;
                        assert(0 < k <= s@.len() && parser_reaches(s@, k - 1));
                        assert(digit_value_before(s@, k) > u32::MAX);
                    }
                    return false;
                }
            } else {
                value = 0;
            }
        } else {
            value = 0;
        }
        // octave marks
        let letter_head = match head {
            Some(h) => ('A' <= h && h <= 'G') || ('a' <= h && h <= 'g'),
            None => false,
        };
        if c == '\'' || c == ',' {
            if reached && letter_head {
                proof {
                    if i > 0 && is_octave_mark(t[i - 1]) {
                        assert(parser_reaches(t, i - 1));
                    }
                    assert(octave == octave_before(t, i as int));
                }
                if c == '\'' {
                    if octave == 127 {
                        assert(octave_before(t, i + 1) == 128);
                        proof {
                            let k = i + 1;
                            assert(0 < k <= s@.len() && parser_reaches(s@, k - 1) && is_octave_mark(
                                s@[k - 1],
                            ));
                            assert(!octave_ok(s@, k));
                        }
                        return false;
                    }
                    octave = octave + 1;
                } else {
                    if octave == -128 {
                        assert(octave_before(t, i + 1) == -129);
                        proof {
                            let k = i + 1;
                            assert(0 < k <= s@.len() && parser_reaches(s@, k - 1) && is_octave_mark(
                                s@[k - 1],
                            ));
                            assert(!octave_ok(s@, k));
                        }
                        return false;
                    }
                    octave = octave - 1;
                }
                assert(octave_before(t, i + 1) == octave);
            } else {
                octave = 1;
            }
        } else {
            octave = 1;
            head = Some(c);
        }
        // line state
        if i >= start {
            let (m2, c2) = scan_step(mode, class, c);
            mode = m2;
            class = c2;
        }
        prev_reached = reached;
        i = i + 1;
    }
    // a run of octave marks at the very end is complete
    let lower_head = match head {
        Some(h) => 'a' <= h && h <= 'g',
        None => false,
    };
    if n > 0 && prev_reached && (s[n - 1] == ',' || s[n - 1] == '\'') && lower_head && octave
        > 126 {
        proof {
            let k = n as int;
            assert(0 < k <= s@.len() && parser_reaches(s@, k - 1) && is_octave_mark(s@[k - 1]));
            assert(!octave_ok(s@, k));
        }
        return false;
    }
    assert(n > 0 && parser_reaches(t, n - 1) && is_octave_mark(t[n - 1]) ==> octave_ok(
        t,
        n as int,
    ));
    true
}

/// Whether no tuplet of 1 or of 10 and more notes matches on the lines the
/// parser reaches, given that the numbers there fit in a `u32`.
fn tuplets_in_bounds(s: &Vec<char>, start: usize) -> (r: bool)
    requires
        start as int == file_header_end(s@),
        forall|i: int|
            0 < i <= s@.len() && parser_reaches(s@, i - 1) ==> #[trigger] digit_value_before(s@, i)
                <= u32::MAX,
    ensures
        r == (forall|j: int|
            0 <= j < s@.len() && parser_reaches(s@, j) ==> !#[trigger] tuplet_panics_at(s@, j)),
{
    let n = s.len();
    let ghost t = s@;
    proof {
        lemma_header_end_from(t, 0);
    }
    let mut mode: u8 = 0;
    let mut class: u8 = 0;
    let mut i: usize = 0;
    while i < n
        invariant
            t == s@,
            n == t.len(),
            start as int == file_header_end(t),
            start <= n,
            i <= n,
            mode <= 2,
            class <= 7,
            i >= start ==> scan_from(t, start as int, i as int) == (mode as int, class as int),
            i < start ==> mode == 0 && class == 0,
            forall|k: int|
                0 < k <= t.len() && parser_reaches(t, k - 1) ==> #[trigger] digit_value_before(t, k)
                    <= u32::MAX,
            forall|j: int| 0 <= j < i && parser_reaches(t, j) ==> !#[trigger] tuplet_panics_at(t, j),
        decreases n - i,
    {
        let c = s[i];
        let reached = i >= start && (mode == 2 || class == 1 || class == 2 || class == 3 || class
            == 6 || (class == 0 && c == 'X'));
        assert(reached == parser_reaches(t, i as int));
        if reached && c == '(' {
            proof {
                if i + 1 < n && is_nonzero_digit(t[i + 1]) {
                    let e = run_end(t, i + 2, 0);
                    lemma_run_end(t, i + 2, 0);
                    assert forall|m: int| i <= m < e - 1 implies #[trigger] t[m] != '\n' by {
                        if m > i + 1 {
                            assert(is_digit(t[m]));
                        }
                    }
                    lemma_reach_along(t, i as int, e - 1);
                    assert(digit_value_before(t, e) <= u32::MAX);
                }
            }
            if tuplet_panics_at_exec(s, i) {
                return false;
            }
        } else {
            assert(c != '(' ==> !tuplet_panics_at(t, i as int));
        }
        if i >= start {
            let (m2, c2) = scan_step(mode, class, c);
            mode = m2;
            class = c2;
        }
        i = i + 1;
    }
    true
}

/// Whether `abc` lies within the texts on which the ABC parser cannot panic
/// (see `parser_input_in_bounds`).
pub fn parser_input_is_in_bounds(abc: &str) -> (r: bool)
    ensures
        r == parser_input_in_bounds(abc@),
{
    let chars = chars_of(abc);
    let start = file_header_end_exec(&chars);
    if !numbers_in_bounds(&chars, start) {
        return false;
    }
    tuplets_in_bounds(&chars, start)
}

/// A text with no digit, no octave mark and no `(` gives the parser nothing
/// that could panic, and is within bounds.
pub proof fn lemma_plain_text_in_bounds(s: Seq<char>)
    requires
        forall|i: int| 0 <= i < s.len() ==> !is_digit(#[trigger] s[i]) && !is_octave_mark(s[i])
            && s[i] != '(',
    ensures
        parser_input_in_bounds(s),
{
    assert forall|i: int|
        0 < i <= s.len() && parser_reaches(s, i - 1) implies #[trigger] digit_value_before(s, i)
        <= u32::MAX by {
        assert(!is_digit(s[i - 1]));
    }
}

} // verus!
