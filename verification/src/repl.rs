//! Classifying a line typed at an interactive session: a keyword command,
//! a request to run a file, or source code to execute.
//!
//! Whitespace here is ASCII whitespace. A `tape` command may name a cell
//! index, which must be a decimal number on the tape.

use vstd::prelude::*;

verus! {

use vstd::string::StrSliceExecFns;
use crate::interpreter::TAPE_LEN;
use crate::text::push_char;

/// What a line typed at the session means.
#[derive(Debug)]
pub enum ReplCommand {
    /// Leave the session.
    Exit,
    /// Show the window of the tape around the current pointer, or around the
    /// given index.
    Tape(Option<usize>),
    /// A malformed command: wrong number of words, or a bad index.
    Invalid,
    /// Run the source code in the named file.
    Run(String),
    /// Execute the line itself as source code.
    Code(String),
}

/// The mathematical value of a classified line.
pub ghost enum SpecReplCommand {
    Exit,
    Tape(Option<int>),
    Invalid,
    Run(Seq<char>),
    Code(Seq<char>),
}

impl View for ReplCommand {
    type V = SpecReplCommand;

    open spec fn view(&self) -> SpecReplCommand {
        match self {
            ReplCommand::Exit => SpecReplCommand::Exit,
            ReplCommand::Tape(i) => SpecReplCommand::Tape(
                match i {
                    Some(n) => Some(*n as int),
                    None => None,
                },
            ),
            ReplCommand::Invalid => SpecReplCommand::Invalid,
            ReplCommand::Run(f) => SpecReplCommand::Run(f@),
            ReplCommand::Code(c) => SpecReplCommand::Code(c@),
        }
    }
}

/// Whether a character is ASCII whitespace.
pub open spec fn is_ws_char(c: char) -> bool {
    c == ' ' || c == '\t' || c == '\n' || c == '\r' || c == '\x0C'
}

/// The first index at or after `i` holding a non-whitespace character.
pub open spec fn trim_lo(s: Seq<char>, i: int) -> int
    decreases s.len() - i,
{
    if i < 0 || i >= s.len() {
        i
    } else if is_ws_char(s[i]) {
        trim_lo(s, i + 1)
    } else {
        i
    }
}

/// One past the last index below `j` holding a non-whitespace character.
pub open spec fn trim_hi(s: Seq<char>, j: int) -> int
    decreases j,
{
    if j <= 0 || j > s.len() {
        j
    } else if is_ws_char(s[j - 1]) {
        trim_hi(s, j - 1)
    } else {
        j
    }
}

/// The line with leading and trailing whitespace removed.
pub open spec fn spec_trim(s: Seq<char>) -> Seq<char> {
    let lo = trim_lo(s, 0);
    if lo == s.len() {
        Seq::empty()
    } else {
        s.subrange(lo, trim_hi(s, s.len() as int))
    }
}

/// The whitespace-separated words of `s` from index `i` on, given the word
/// read so far and the words already complete.
pub open spec fn spec_split_acc(
    s: Seq<char>,
    i: int,
    cur: Seq<char>,
    words: Seq<Seq<char>>,
) -> Seq<Seq<char>>
    decreases s.len() - i,
{
    if i < 0 || i >= s.len() {
        if cur.len() == 0 {
            words
        } else {
            words.push(cur)
        }
    } else if is_ws_char(s[i]) {
        if cur.len() == 0 {
            spec_split_acc(s, i + 1, Seq::empty(), words)
        } else {
            spec_split_acc(s, i + 1, Seq::empty(), words.push(cur))
        }
    } else {
        spec_split_acc(s, i + 1, cur.push(s[i]), words)
    }
}

/// The whitespace-separated words of `s`.
pub open spec fn spec_split_ws(s: Seq<char>) -> Seq<Seq<char>> {
    spec_split_acc(s, 0, Seq::empty(), Seq::empty())
}

/// Whether `s` begins with `w`.
pub open spec fn spec_starts_with(s: Seq<char>, w: Seq<char>) -> bool {
    s.len() >= w.len() && s.subrange(0, w.len() as int) == w
}

/// The numeric value of a decimal digit, or none.
pub open spec fn spec_digit_val(c: char) -> Option<int> {
    if c == '0' {
        Some(0int)
    } else if c == '1' {
        Some(1int)
    } else if c == '2' {
        Some(2int)
    } else if c == '3' {
        Some(3int)
    } else if c == '4' {
        Some(4int)
    } else if c == '5' {
        Some(5int)
    } else if c == '6' {
        Some(6int)
    } else if c == '7' {
        Some(7int)
    } else if c == '8' {
        Some(8int)
    } else if c == '9' {
        Some(9int)
    } else {
        None
    }
}

/// The value of the digits of `d` from index `i` on, after a prefix worth
/// `acc`; none if a non-digit appears.
pub open spec fn spec_digits_val(d: Seq<char>, i: int, acc: int) -> Option<int>
    decreases d.len() - i,
{
    if i < 0 || i >= d.len() {
        Some(acc)
    } else {
        match spec_digit_val(d[i]) {
            Some(v) => spec_digits_val(d, i + 1, acc * 10 + v),
            None => None,
        }
    }
}

/// The value of a word as a decimal number: an optional leading `+`, then
/// at least one digit; none otherwise.
pub open spec fn spec_number_val(w: Seq<char>) -> Option<int> {
    let d = if w.len() > 0 && w[0] == '+' {
        w.drop_first()
    } else {
        w
    };
    if d.len() == 0 {
        None
    } else {
        spec_digits_val(d, 0, 0)
    }
}

/// The meaning of a line: after trimming, `exit` and `tape` are keywords; a
/// line whose first word begins with `tape` names a cell index to show; one
/// whose first word begins with `run` names a file to run; anything else is
/// code. A keyword line with the wrong number of words, an index that is not
/// a number, or an index off the tape is invalid.
pub open spec fn spec_repl_command(s: Seq<char>) -> SpecReplCommand {
    let t = spec_trim(s);
    if t == seq!['e', 'x', 'i', 't'] {
        SpecReplCommand::Exit
    } else if t == seq!['t', 'a', 'p', 'e'] {
        SpecReplCommand::Tape(None)
    } else if spec_starts_with(t, seq!['t', 'a', 'p', 'e']) {
        let words = spec_split_ws(t);
        if words.len() != 2 {
            SpecReplCommand::Invalid
        } else {
            match spec_number_val(words[1]) {
                Some(v) => if v >= TAPE_LEN {
                    SpecReplCommand::Invalid
                } else {
                    SpecReplCommand::Tape(Some(v))
                },
                None => SpecReplCommand::Invalid,
            }
        }
    } else if spec_starts_with(t, seq!['r', 'u', 'n']) {
        let words = spec_split_ws(t);
        if words.len() != 2 {
            SpecReplCommand::Invalid
        } else {
            SpecReplCommand::Run(words[1])
        }
    } else {
        SpecReplCommand::Code(t)
    }
}

/// Whether a character is ASCII whitespace.
fn is_ws(c: char) -> (b: bool)
    ensures
        b == is_ws_char(c),
{
    c == ' ' || c == '\t' || c == '\n' || c == '\r' || c == '\x0C'
}

/// The numeric value of a decimal digit, or none.
fn digit_val(c: char) -> (r: Option<usize>)
    ensures
        match r {
            Some(v) => spec_digit_val(c) == Some(v as int),
            None => spec_digit_val(c) == None::<int>,
        },
{
    match c {
        '0' => Some(0),
        '1' => Some(1),
        '2' => Some(2),
        '3' => Some(3),
        '4' => Some(4),
        '5' => Some(5),
        '6' => Some(6),
        '7' => Some(7),
        '8' => Some(8),
        '9' => Some(9),
        _ => None,
    }
}

/// The characters of a string, in order.
fn chars_of(s: &str) -> (v: Vec<char>)
    ensures
        v@ == s@,
{
    let n = s.unicode_len();
    let mut v: Vec<char> = Vec::new();
    let mut i: usize = 0;
    while i < n
        invariant
            n == s@.len(),
            i <= n,
            v@ == s@.subrange(0, i as int),
        decreases n - i,
    {
        v.push(s.get_char(i));
        i = i + 1;
        proof {
            assert(v@ =~= s@.subrange(0, i as int));
        }
    }
    proof {
        assert(v@ =~= s@);
    }
    v
}

/// A string holding exactly the given characters.
fn string_of_chars(v: &Vec<char>) -> (s: String)
    ensures
        s@ == v@,
{
    let mut s = String::new();
    let mut i: usize = 0;
    while i < v.len()
        invariant
            i <= v@.len(),
            s@ == v@.subrange(0, i as int),
        decreases v@.len() - i,
    {
        push_char(&mut s, v[i]);
        i = i + 1;
        proof {
            assert(s@ =~= v@.subrange(0, i as int));
        }
    }
    proof {
        assert(s@ =~= v@);
    }
    s
}

/// The line with leading and trailing whitespace removed.
fn trim_chars(chars: &Vec<char>) -> (t: Vec<char>)
    ensures
        t@ == spec_trim(chars@),
{
    let n = chars.len();
    let mut lo: usize = 0;
    while lo < n && is_ws(chars[lo])
        invariant
            lo <= n,
            n == chars@.len(),
            trim_lo(chars@, 0) == trim_lo(chars@, lo as int),
        decreases n - lo,
    {
        lo = lo + 1;
    }
    let mut t: Vec<char> = Vec::new();
    if lo == n {
        proof {
            assert(t@ =~= spec_trim(chars@));
        }
        return t;
    }
    let mut hi: usize = n;
    while hi > lo && is_ws(chars[hi - 1])
        invariant
            lo < hi <= n,
            n == chars@.len(),
            lo < n,
            !is_ws_char(chars@[lo as int]),
            trim_hi(chars@, n as int) == trim_hi(chars@, hi as int),
        decreases hi,
    {
        hi = hi - 1;
    }
    proof {
        assert(trim_hi(chars@, hi as int) == hi as int);
    }
    let mut k = lo;
    while k < hi
        invariant
            lo <= k <= hi <= n,
            n == chars@.len(),
            t@ == chars@.subrange(lo as int, k as int),
        decreases hi - k,
    {
        t.push(chars[k]);
        k = k + 1;
        proof {
            assert(t@ =~= chars@.subrange(lo as int, k as int));
        }
    }
    proof {
        assert(t@ =~= spec_trim(chars@));
    }
    t
}

/// The whitespace-separated words of the line.
fn split_ws(t: &Vec<char>) -> (words: Vec<Vec<char>>)
    ensures
        words@.map_values(|w: Vec<char>| w@) == spec_split_ws(t@),
{
    let mut words: Vec<Vec<char>> = Vec::new();
    let mut cur: Vec<char> = Vec::new();
    let mut i: usize = 0;
    proof {
        assert(words@.map_values(|w: Vec<char>| w@) =~= Seq::<Seq<char>>::empty());
    }
    while i < t.len()
        invariant
            i <= t@.len(),
            spec_split_ws(t@) == spec_split_acc(
                t@,
                i as int,
                cur@,
                words@.map_values(|w: Vec<char>| w@),
            ),
        decreases t@.len() - i,
    {
        let ghost wpre = words@.map_values(|w: Vec<char>| w@);
        let ghost cpre = cur@;
        let c = t[i];
        if is_ws(c) {
            if cur.len() > 0 {
                words.push(cur);
                cur = Vec::new();
                proof {
                    assert(words@[words@.len() - 1]@ == cpre);
                    assert(words@.map_values(|w: Vec<char>| w@) =~= wpre.push(cpre));
                    assert(cur@ =~= Seq::<char>::empty());
                    assert(spec_split_acc(t@, i as int, cpre, wpre) == spec_split_acc(
                        t@,
                        i + 1,
                        Seq::empty(),
                        wpre.push(cpre),
                    ));
                }
            } else {
                proof {
                    assert(cur@ =~= Seq::<char>::empty());
                    assert(spec_split_acc(t@, i as int, cpre, wpre) == spec_split_acc(
                        t@,
                        i + 1,
                        Seq::empty(),
                        wpre,
                    ));
                }
            }
        } else {
            cur.push(c);
            proof {
                assert(spec_split_acc(t@, i as int, cpre, wpre) == spec_split_acc(
                    t@,
                    i + 1,
                    cpre.push(t@[i as int]),
                    wpre,
                ));
            }
        }
        i = i + 1;
    }
    if cur.len() > 0 {
        let ghost wpre = words@.map_values(|w: Vec<char>| w@);
        let ghost cpre = cur@;
        words.push(cur);
        proof {
            assert(words@[words@.len() - 1]@ == cpre);
            assert(words@.map_values(|w: Vec<char>| w@) =~= wpre.push(cpre));
        }
    }
    words
}

/// The value of a word as a decimal number below the tape length, or none
/// if the word is not a number or the number is off the tape.
fn number_val(w: &Vec<char>) -> (r: Option<usize>)
    ensures
        match r {
            Some(v) => spec_number_val(w@) == Some(v as int) && v < TAPE_LEN,
            None => (match spec_number_val(w@) {
                Some(x) => x >= TAPE_LEN,
                None => true,
            }),
        },
{
    let start: usize = if w.len() > 0 && w[0] == '+' {
        1
    } else {
        0
    };
    let ghost d = if w@.len() > 0 && w@[0] == '+' {
        w@.drop_first()
    } else {
        w@
    };
    proof {
        assert(d =~= w@.subrange(start as int, w@.len() as int));
    }
    if w.len() == start {
        return None;
    }
    let mut acc: usize = 0;
    let ghost mut acc_true: int = 0;
    let mut too_big = false;
    let mut i = start;
    while i < w.len()
        invariant
            start <= i <= w@.len(),
            d == w@.subrange(start as int, w@.len() as int),
            d == (if w@.len() > 0 && w@[0] == '+' {
                w@.drop_first()
            } else {
                w@
            }),
            d.len() > 0,
            spec_digits_val(d, 0, 0) == spec_digits_val(d, i - start, acc_true),
            acc_true >= 0,
            too_big <==> acc_true >= TAPE_LEN,
            !too_big ==> acc == acc_true,
        decreases w@.len() - i,
    {
        match digit_val(w[i]) {
            Some(v) => {
                proof {
                    assert(d[i - start] == w@[i as int]);
                }
                if !too_big {
                    acc = acc * 10 + v;
                    if acc >= TAPE_LEN {
                        too_big = true;
                    }
                }
                proof {
                    acc_true = acc_true * 10 + v;
                }
            },
            None => {
                proof {
                    assert(0 <= i - start < d.len());
                    assert(d[i - start] == w@[i as int]);
                    assert(spec_digit_val(d[i - start]) is None);
                    assert(spec_digits_val(d, i - start, acc_true) == None::<int>);
                    assert(spec_digits_val(d, 0, 0) == None::<int>);
                    assert(spec_number_val(w@) == None::<int>);
                }
                return None;
            },
        }
        i = i + 1;
    }
    proof {
        assert(spec_digits_val(d, d.len() as int, acc_true) == Some(acc_true));
    }
    if too_big {
        None
    } else {
        Some(acc)
    }
}

/// Equal sequences agree in length and prefix.
proof fn lemma_eq_starts_with(t: Seq<char>, w: Seq<char>)
    requires
        t == w,
    ensures
        spec_starts_with(t, w),
        t.len() == w.len(),
{
    assert(t.subrange(0, w.len() as int) =~= w);
}

/// Whether the line begins with the given word.
fn starts_with(t: &Vec<char>, w: &Vec<char>) -> (b: bool)
    ensures
        b == spec_starts_with(t@, w@),
{
    if t.len() < w.len() {
        proof {
            assert(!spec_starts_with(t@, w@));
        }
        return false;
    }
    let mut i: usize = 0;
    while i < w.len()
        invariant
            i <= w@.len() <= t@.len(),
            t@.subrange(0, i as int) == w@.subrange(0, i as int),
        decreases w@.len() - i,
    {
        if t[i] != w[i] {
            proof {
                assert(t@.subrange(0, w@.len() as int)[i as int] != w@[i as int]);
            }
            return false;
        }
        i = i + 1;
        proof {
            assert(t@.subrange(0, i as int) =~= w@.subrange(0, i as int));
        }
    }
    proof {
        assert(t@.subrange(0, w@.len() as int) =~= w@);
    }
    true
}

impl ReplCommand {
    /// Classify one line typed at the session.
    pub fn from_string(command: String) -> (r: ReplCommand)
        ensures
            r@ == spec_repl_command(command@),
    {
        let chars = chars_of(command.as_str());
        let t = trim_chars(&chars);

        let kw_exit: Vec<char> = vec!['e', 'x', 'i', 't'];
        let kw_tape: Vec<char> = vec!['t', 'a', 'p', 'e'];
        let kw_run: Vec<char> = vec!['r', 'u', 'n'];
        proof {
            assert(kw_exit@ =~= seq!['e', 'x', 'i', 't']);
            assert(kw_tape@ =~= seq!['t', 'a', 'p', 'e']);
            assert(kw_run@ =~= seq!['r', 'u', 'n']);
        }

        if t.len() == 4 && starts_with(&t, &kw_exit) {
            proof {
                assert(t@ =~= seq!['e', 'x', 'i', 't']);
            }
            return ReplCommand::Exit;
        }
        proof {
            if t@ == seq!['e', 'x', 'i', 't'] {
                lemma_eq_starts_with(t@, kw_exit@);
                assert(false);
            }
        }
        if t.len() == 4 && starts_with(&t, &kw_tape) {
            proof {
                assert(t@ =~= seq!['t', 'a', 'p', 'e']);
            }
            return ReplCommand::Tape(None);
        }
        proof {
            if t@ == seq!['t', 'a', 'p', 'e'] {
                lemma_eq_starts_with(t@, kw_tape@);
                assert(false);
            }
        }
        if starts_with(&t, &kw_tape) {
            let words = split_ws(&t);
            proof {
                assert(words@.map_values(|w: Vec<char>| w@).len() == words@.len());
            }
            if words.len() != 2 {
                return ReplCommand::Invalid;
            }
            proof {
                assert(words@.map_values(|w: Vec<char>| w@)[1] == words@[1]@);
            }
            match number_val(&words[1]) {
                Some(v) => {
                    return ReplCommand::Tape(Some(v));
                },
                None => {
                    return ReplCommand::Invalid;
                },
            }
        }
        if starts_with(&t, &kw_run) {
            let words = split_ws(&t);
            proof {
                assert(words@.map_values(|w: Vec<char>| w@).len() == words@.len());
            }
            if words.len() != 2 {
                return ReplCommand::Invalid;
            }
            proof {
                assert(words@.map_values(|w: Vec<char>| w@)[1] == words@[1]@);
            }
            let file = string_of_chars(&words[1]);
            return ReplCommand::Run(file);
        }
        let code = string_of_chars(&t);
        ReplCommand::Code(code)
    }
}

} // verus!
