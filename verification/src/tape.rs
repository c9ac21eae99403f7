//! Rendering a window of the tape around an index, as a small table with an
//! index row, a value row, and arrows marking the pointer's column.

use vstd::prelude::*;

verus! {

use crate::interpreter::TAPE_LEN;
use crate::text::push_char;

/// Number of cells shown in the window.
pub const WINDOW_LEN: usize = 11;

/// The decimal digit character of `d`.
pub open spec fn spec_digit(d: nat) -> char {
    if d == 0 {
        '0'
    } else if d == 1 {
        '1'
    } else if d == 2 {
        '2'
    } else if d == 3 {
        '3'
    } else if d == 4 {
        '4'
    } else if d == 5 {
        '5'
    } else if d == 6 {
        '6'
    } else if d == 7 {
        '7'
    } else if d == 8 {
        '8'
    } else {
        '9'
    }
}

/// The decimal digits of `n`, most significant first, without leading zeros
/// (a single zero for 0).
pub open spec fn dec_digits(n: nat) -> Seq<char>
    decreases n,
{
    if n < 10 {
        seq![spec_digit(n)]
    } else {
        dec_digits(n / 10) + seq![spec_digit(n % 10)]
    }
}

/// `n` spaces (none for negative `n`).
pub open spec fn spec_spaces(n: int) -> Seq<char> {
    Seq::new(if n < 0 { 0 } else { n as nat }, |i: int| ' ')
}

/// A sequence centered in a 5-column cell: the leftover space is split, the
/// larger half in front. A sequence of 5 or more characters gets no padding.
pub open spec fn spec_centered(s: Seq<char>) -> Seq<char> {
    let before: int = if s.len() >= 5 {
        0
    } else {
        (5 - s.len() + 1) / 2
    };
    let after: int = if s.len() >= 5 {
        0
    } else {
        (5 - s.len()) / 2
    };
    spec_spaces(before) + s + spec_spaces(after)
}

/// `k` groups of `+-----`.
pub open spec fn spec_sep_groups(k: int) -> Seq<char>
    decreases k,
{
    if k <= 0 {
        Seq::empty()
    } else {
        spec_sep_groups(k - 1) + seq!['+', '-', '-', '-', '-', '-']
    }
}

/// The horizontal rule above and below the rows: one group per column,
/// closed by a final `+`.
pub open spec fn spec_separator() -> Seq<char> {
    spec_sep_groups(WINDOW_LEN + 1) + seq!['+']
}

/// The cells of the index row for indices `start` up to `end`, each one a
/// `|` and the centered index.
pub open spec fn spec_idx_cells(start: int, end: int) -> Seq<char>
    decreases end - start,
{
    if end <= start {
        Seq::empty()
    } else {
        spec_idx_cells(start, end - 1) + seq!['|'] + spec_centered(dec_digits((end - 1) as nat))
    }
}

/// The cells of the value row for indices `start` up to `end`, each one a
/// `|` and the centered cell value.
pub open spec fn spec_val_cells(tape: Seq<u8>, start: int, end: int) -> Seq<char>
    decreases end - start,
{
    if end <= start {
        Seq::empty()
    } else {
        spec_val_cells(tape, start, end - 1) + seq!['|'] + spec_centered(
            dec_digits(tape[end - 1] as nat),
        )
    }
}

/// The first window index: the window is centered on the pointer and
/// clamped at the tape's ends.
pub open spec fn spec_window_start(ptr: int) -> int {
    if ptr < 6 {
        0
    } else if ptr > TAPE_LEN - 6 {
        TAPE_LEN - WINDOW_LEN
    } else {
        ptr - 5
    }
}

/// One line of the rendering: its body and a newline.
pub open spec fn spec_line(s: Seq<char>) -> Seq<char> {
    s + seq!['\n']
}

/// The whole rendering: two arrow lines pointing down at the pointer's
/// column, the ruled index and value rows, and two arrow lines pointing up.
pub open spec fn spec_render_tape_window(tape: Seq<u8>, ptr: int) -> Seq<char> {
    let start = spec_window_start(ptr);
    let arrow = spec_spaces(3 + (ptr - start) * 6 + 6);
    spec_line(arrow + seq!['|']) + spec_line(arrow + seq!['V']) + spec_line(spec_separator())
        + spec_line(seq!['|', ' ', 'I', 'D', 'X', ' '] + spec_idx_cells(start, start + WINDOW_LEN) + seq!['|'])
        + spec_line(spec_separator()) + spec_line(
        seq!['|', ' ', 'V', 'A', 'L', ' '] + spec_val_cells(tape, start, start + WINDOW_LEN)
            + seq!['|'],
    ) + spec_line(spec_separator()) + spec_line(arrow + seq!['^']) + spec_line(arrow + seq!['|'])
}

/// Append `n` spaces.
fn push_spaces(s: &mut String, n: usize)
    ensures
        final(s)@ == old(s)@ + spec_spaces(n as int),
{
    let mut i: usize = 0;
    while i < n
        invariant
            i <= n,
            s@ == old(s)@ + spec_spaces(i as int),
        decreases n - i,
    {
        push_char(s, ' ');
        i = i + 1;
        proof {
            assert(s@ =~= old(s)@ + spec_spaces(i as int));
        }
    }
}

/// The decimal digit character of `d`.
fn digit_char(d: usize) -> (c: char)
    requires
        d < 10,
    ensures
        c == spec_digit(d as nat),
{
    match d {
        0 => '0',
        1 => '1',
        2 => '2',
        3 => '3',
        4 => '4',
        5 => '5',
        6 => '6',
        7 => '7',
        8 => '8',
        _ => '9',
    }
}

/// Append the decimal digits of `n`.
fn push_number(s: &mut String, n: usize)
    ensures
        final(s)@ == old(s)@ + dec_digits(n as nat),
    decreases n,
{
    if n >= 10 {
        push_number(s, n / 10);
    }
    push_char(s, digit_char(n % 10));
    proof {
        assert(s@ =~= old(s)@ + dec_digits(n as nat));
    }
}

/// A number below 100000 has one to five digits.
proof fn lemma_dec_digits_len(n: nat)
    ensures
        dec_digits(n).len() >= 1,
        n < 10 ==> dec_digits(n).len() == 1,
        n < 100 ==> dec_digits(n).len() <= 2,
        n < 1000 ==> dec_digits(n).len() <= 3,
        n < 10000 ==> dec_digits(n).len() <= 4,
        n < 100000 ==> dec_digits(n).len() <= 5,
    decreases n,
{
    if n >= 10 {
        lemma_dec_digits_len(n / 10);
    }
}

/// How many decimal digits `n` has.
fn num_width(n: usize) -> (w: usize)
    requires
        n < 100000,
    ensures
        w == dec_digits(n as nat).len(),
        1 <= w <= 5,
    decreases n,
{
    proof {
        lemma_dec_digits_len(n as nat);
    }
    if n < 10 {
        1
    } else {
        let w = 1 + num_width(n / 10);
        w
    }
}

/// Append `n` centered in a 5-column cell.
fn push_centered_number(s: &mut String, n: usize)
    requires
        n < 100000,
    ensures
        final(s)@ == old(s)@ + spec_centered(dec_digits(n as nat)),
{
    let w = num_width(n);
    let before: usize = if w >= 5 {
        0
    } else {
        (5 - w + 1) / 2
    };
    let after: usize = if w >= 5 {
        0
    } else {
        (5 - w) / 2
    };
    push_spaces(s, before);
    push_number(s, n);
    push_spaces(s, after);
    proof {
        assert(s@ =~= old(s)@ + spec_centered(dec_digits(n as nat)));
    }
}

/// Append the horizontal rule.
fn push_separator(s: &mut String)
    ensures
        final(s)@ == old(s)@ + spec_separator(),
{
    let mut k: usize = 0;
    while k < WINDOW_LEN + 1
        invariant
            k <= WINDOW_LEN + 1,
            s@ == old(s)@ + spec_sep_groups(k as int),
        decreases WINDOW_LEN + 1 - k,
    {
        push_char(s, '+');
        push_char(s, '-');
        push_char(s, '-');
        push_char(s, '-');
        push_char(s, '-');
        push_char(s, '-');
        k = k + 1;
        proof {
            assert(s@ =~= old(s)@ + spec_sep_groups(k as int));
        }
    }
    push_char(s, '+');
    proof {
        assert(s@ =~= old(s)@ + spec_separator());
    }
}

/// Append an arrow line: spaces up to the pointer's column, the marker, a
/// newline.
fn push_arrow_line(out: &mut String, n: usize, c: char)
    ensures
        final(out)@ == old(out)@ + spec_line(spec_spaces(n as int) + seq![c]),
{
    push_spaces(out, n);
    push_char(out, c);
    push_char(out, '\n');
    proof {
        assert(out@ =~= old(out)@ + spec_line(spec_spaces(n as int) + seq![c]));
    }
}

/// Append the horizontal rule and a newline.
fn push_separator_line(out: &mut String)
    ensures
        final(out)@ == old(out)@ + spec_line(spec_separator()),
{
    push_separator(out);
    push_char(out, '\n');
    proof {
        assert(out@ =~= old(out)@ + spec_line(spec_separator()));
    }
}

/// Append the index row and a newline.
fn push_idx_row(out: &mut String, start: usize)
    requires
        start + WINDOW_LEN <= TAPE_LEN,
    ensures
        final(out)@ == old(out)@ + spec_line(
            seq!['|', ' ', 'I', 'D', 'X', ' '] + spec_idx_cells(
                start as int,
                start as int + WINDOW_LEN,
            ) + seq!['|'],
        ),
{
    push_char(out, '|');
    push_char(out, ' ');
    push_char(out, 'I');
    push_char(out, 'D');
    push_char(out, 'X');
    push_char(out, ' ');
    let ghost pre = out@;
    let mut i: usize = start;
    while i < start + WINDOW_LEN
        invariant
            start <= i <= start + WINDOW_LEN,
            start + WINDOW_LEN <= TAPE_LEN,
            out@ == pre + spec_idx_cells(start as int, i as int),
        decreases start + WINDOW_LEN - i,
    {
        push_char(out, '|');
        push_centered_number(out, i);
        i = i + 1;
        proof {
            assert(out@ =~= pre + spec_idx_cells(start as int, i as int));
        }
    }
    push_char(out, '|');
    push_char(out, '\n');
    proof {
        assert(out@ =~= old(out)@ + spec_line(
            seq!['|', ' ', 'I', 'D', 'X', ' '] + spec_idx_cells(
                start as int,
                start as int + WINDOW_LEN,
            ) + seq!['|'],
        ));
    }
}

/// Append the value row and a newline.
fn push_val_row(out: &mut String, tape: &Vec<u8>, start: usize)
    requires
        start + WINDOW_LEN <= TAPE_LEN,
        tape@.len() == TAPE_LEN,
    ensures
        final(out)@ == old(out)@ + spec_line(
            seq!['|', ' ', 'V', 'A', 'L', ' '] + spec_val_cells(
                tape@,
                start as int,
                start as int + WINDOW_LEN,
            ) + seq!['|'],
        ),
{
    push_char(out, '|');
    push_char(out, ' ');
    push_char(out, 'V');
    push_char(out, 'A');
    push_char(out, 'L');
    push_char(out, ' ');
    let ghost pre = out@;
    let mut j: usize = start;
    while j < start + WINDOW_LEN
        invariant
            start <= j <= start + WINDOW_LEN,
            start + WINDOW_LEN <= TAPE_LEN,
            tape@.len() == TAPE_LEN,
            out@ == pre + spec_val_cells(tape@, start as int, j as int),
        decreases start + WINDOW_LEN - j,
    {
        push_char(out, '|');
        push_centered_number(out, tape[j] as usize);
        j = j + 1;
        proof {
            assert(out@ =~= pre + spec_val_cells(tape@, start as int, j as int));
        }
    }
    push_char(out, '|');
    push_char(out, '\n');
    proof {
        assert(out@ =~= old(out)@ + spec_line(
            seq!['|', ' ', 'V', 'A', 'L', ' '] + spec_val_cells(
                tape@,
                start as int,
                start as int + WINDOW_LEN,
            ) + seq!['|'],
        ));
    }
}

/// Render the state of the tape around the pointer: an 11-cell window
/// centered on the pointer (clamped at the tape's ends), as an index row and
/// a value row, with arrows marking the pointer's column. Pure formatting;
/// the text is exactly `spec_render_tape_window`.
#[verifier::rlimit(50)]
pub fn render_tape_window(tape: &Vec<u8>, ptr: usize) -> (out: String)
    requires
        tape@.len() == TAPE_LEN,
        ptr < TAPE_LEN,
    ensures
        out@ == spec_render_tape_window(tape@, ptr as int),
{
    let start: usize = if ptr < 6 {
        0
    } else if ptr > TAPE_LEN - 6 {
        TAPE_LEN - WINDOW_LEN
    } else {
        ptr - 5
    };
    let arrow_pos = 3 + (ptr - start) * 6 + 6;
    let mut out = String::new();

    push_arrow_line(&mut out, arrow_pos, '|');
    push_arrow_line(&mut out, arrow_pos, 'V');
    push_separator_line(&mut out);
    push_idx_row(&mut out, start);
    push_separator_line(&mut out);
    push_val_row(&mut out, tape, start);
    push_separator_line(&mut out);
    push_arrow_line(&mut out, arrow_pos, '^');
    push_arrow_line(&mut out, arrow_pos, '|');

    proof {
        assert(out@ =~= spec_render_tape_window(tape@, ptr as int));
    }
    out
}

} // verus!
