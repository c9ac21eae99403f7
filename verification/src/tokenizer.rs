//! Turning source text into a sequence of command tokens.
//!
//! Each of the eight command characters (`> < + - . , [ ]`) maps to one
//! token; every other character is a comment and is skipped. The two
//! bracket tokens carry the 1-based line and column of the character that
//! produced them, for diagnostics.

use vstd::prelude::*;

verus! {

use vstd::string::StrSliceExecFns;
use crate::text::push_char;

/// Position in the source text of a character: 1-based line and column.
#[derive(Clone, Copy, Debug, PartialEq, Eq, Structural)]
pub struct Position {
    /// The line of the character
    pub line: usize,
    /// The column of the character
    pub col: usize,
}

/// Token generated from the source; the parser turns tokens into instructions.
#[derive(Clone, Copy, Debug, PartialEq, Eq, Structural)]
pub enum Token {
    /// Move pointer right
    Right,
    /// Move pointer left
    Left,
    /// Increment current cell
    Increment,
    /// Decrement current cell
    Decrement,
    /// Output value of current cell
    Write,
    /// Replace value of current cell with input
    Read,
    /// Start of loop
    LoopStart(Position),
    /// End of loop
    LoopEnd(Position),
}

/// The source character that a token prints back as.
pub open spec fn spec_token_char(t: Token) -> char {
    match t {
        Token::Right => '>',
        Token::Left => '<',
        Token::Increment => '+',
        Token::Decrement => '-',
        Token::Write => '.',
        Token::Read => ',',
        Token::LoopStart(_) => '[',
        Token::LoopEnd(_) => ']',
    }
}

impl Token {
    /// Convert a token to the corresponding source char.
    pub fn to_char(&self) -> (c: char)
        ensures
            c == spec_token_char(*self),
    {
        match self {
            Token::Right => '>',
            Token::Left => '<',
            Token::Increment => '+',
            Token::Decrement => '-',
            Token::Write => '.',
            Token::Read => ',',
            Token::LoopStart(_) => '[',
            Token::LoopEnd(_) => ']',
        }
    }
}

/// Whether a character is one of the eight command characters; every other
/// character is a comment.
pub open spec fn is_command_char(c: char) -> bool {
    c == '>' || c == '<' || c == '+' || c == '-' || c == '.' || c == ',' || c == '[' || c == ']'
}

/// The tokens produced by the scan from character `i` on, given that `nl`
/// newlines were seen so far and that the current line starts at character
/// index `ls`.
pub open spec fn spec_tokenize_at(s: Seq<char>, i: int, nl: int, ls: int) -> Seq<Token>
    decreases s.len() - i,
{
    if i < 0 || i >= s.len() {
        Seq::empty()
    } else if s[i] == '\n' {
        spec_tokenize_at(s, i + 1, nl + 1, i + 1)
    } else {
        let rest = spec_tokenize_at(s, i + 1, nl, ls);
        let pos = Position { line: (nl + 1) as usize, col: (i - ls + 1) as usize };
        match s[i] {
            '>' => seq![Token::Right] + rest,
            '<' => seq![Token::Left] + rest,
            '+' => seq![Token::Increment] + rest,
            '-' => seq![Token::Decrement] + rest,
            '.' => seq![Token::Write] + rest,
            ',' => seq![Token::Read] + rest,
            '[' => seq![Token::LoopStart(pos)] + rest,
            ']' => seq![Token::LoopEnd(pos)] + rest,
            _ => rest,
        }
    }
}

/// The token sequence of a source text: command characters in source order,
/// comments dropped, brackets carrying their 1-based line and column.
pub open spec fn spec_tokenize(s: Seq<char>) -> Seq<Token> {
    spec_tokenize_at(s, 0, 0, 0)
}

/// Convert a string to a vec of tokens.
pub fn tokenize(source: String) -> (tokens: Vec<Token>)
    ensures
        tokens@ == spec_tokenize(source@),
{
    let s: &str = source.as_str();
    let n: usize = s.unicode_len();
    let mut tokens: Vec<Token> = Vec::new();
    let mut i: usize = 0;
    // Number of newline characters seen so far.
    let mut nl: usize = 0;
    // Character index at which the current line starts.
    let mut ls: usize = 0;
    while i < n
        invariant
            n == s@.len(),
            s@ == source@,
            i <= n,
            nl <= i,
            ls <= i,
            spec_tokenize(source@) == tokens@ + spec_tokenize_at(s@, i as int, nl as int, ls as int),
        decreases n - i,
    {
        let c = s.get_char(i);
        let ghost pre = tokens@;
        let ghost head = spec_tokenize_at(s@, i as int, nl as int, ls as int);
        match c {
            '\n' => {
                nl = nl + 1;
                ls = i + 1;
            }
            '>' => tokens.push(Token::Right),
            '<' => tokens.push(Token::Left),
            '+' => tokens.push(Token::Increment),
            '-' => tokens.push(Token::Decrement),
            '.' => tokens.push(Token::Write),
            ',' => tokens.push(Token::Read),
            '[' => tokens.push(Token::LoopStart(Position { line: nl + 1, col: i - ls + 1 })),
            ']' => tokens.push(Token::LoopEnd(Position { line: nl + 1, col: i - ls + 1 })),
            _ => {}
        }
        i = i + 1;
        proof {
            let tail = spec_tokenize_at(s@, i as int, nl as int, ls as int);
            assert(pre + head =~= tokens@ + tail);
        }
    }
    tokens
}

/// The source text that a token sequence prints back as: one command
/// character per token, in order.
pub open spec fn spec_source_from_tokens(tokens: Seq<Token>) -> Seq<char> {
    tokens.map_values(|t: Token| spec_token_char(t))
}

/// Convert a vec of tokens to a string.
pub fn source_from_tokens(tokens: Vec<Token>) -> (source: String)
    ensures
        source@ == spec_source_from_tokens(tokens@),
{
    let mut source = String::new();
    let mut i: usize = 0;
    while i < tokens.len()
        invariant
            i <= tokens@.len(),
            source@ == spec_source_from_tokens(tokens@.subrange(0, i as int)),
        decreases tokens@.len() - i,
    {
        push_char(&mut source, tokens[i].to_char());
        i = i + 1;
        proof {
            assert(tokens@.subrange(0, i - 1).push(tokens@[i - 1]) =~= tokens@.subrange(0, i as int));
            assert(source@ =~= spec_source_from_tokens(tokens@.subrange(0, i as int)));
        }
    }
    proof {
        assert(tokens@.subrange(0, tokens@.len() as int) =~= tokens@);
    }
    source
}

/// Scanning a suffix of command characters and printing the tokens back
/// yields that suffix, whatever the line bookkeeping says.
proof fn lemma_round_trip_at(s: Seq<char>, i: int, nl: int, ls: int)
    requires
        0 <= i <= s.len(),
        forall|j: int| 0 <= j < s.len() ==> is_command_char(#[trigger] s[j]),
    ensures
        spec_source_from_tokens(spec_tokenize_at(s, i, nl, ls)) == s.subrange(i, s.len() as int),
    decreases s.len() - i,
{
    if i == s.len() {
        assert(spec_source_from_tokens(spec_tokenize_at(s, i, nl, ls)) =~= s.subrange(
            i,
            s.len() as int,
        ));
    } else {
        assert(is_command_char(s[i]));
        lemma_round_trip_at(s, i + 1, nl, ls);
        let toks = spec_tokenize_at(s, i, nl, ls);
        let rest = spec_tokenize_at(s, i + 1, nl, ls);
        assert(toks =~= seq![toks[0]] + rest);
        assert(toks.len() == 1 + rest.len());
        assert(rest.len() == s.len() - i - 1) by {
            assert(spec_source_from_tokens(rest).len() == rest.len());
        }
        assert(spec_token_char(toks[0]) == s[i]);
        assert forall|k: int| 0 <= k < toks.len() implies spec_source_from_tokens(toks)[k] == s[i
            + k] by {
            if k > 0 {
                assert(toks[k] == rest[k - 1]);
                assert(spec_source_from_tokens(rest)[k - 1] == s.subrange(i + 1, s.len() as int)[k
                    - 1]);
            }
        }
        assert(spec_source_from_tokens(toks) =~= s.subrange(i, s.len() as int));
    }
}

/// Round trip: a source made only of command characters (so with nothing for
/// the tokenizer to discard) prints back from its tokens unchanged.
pub proof fn lemma_tokenize_round_trip(s: Seq<char>)
    requires
        forall|j: int| 0 <= j < s.len() ==> is_command_char(#[trigger] s[j]),
    ensures
        spec_source_from_tokens(spec_tokenize(s)) == s,
{
    lemma_round_trip_at(s, 0, 0, 0);
    assert(s.subrange(0, s.len() as int) =~= s);
}

/// A single character tokenizes through the filter: it is kept exactly when
/// it is a command character.
proof fn lemma_filter_one(c: char)
    ensures
        seq![c].filter(|x: char| is_command_char(x)) == (if is_command_char(c) {
            seq![c]
        } else {
            Seq::<char>::empty()
        }),
{
    reveal(Seq::filter);
    let pred = |x: char| is_command_char(x);
    assert(seq![c].drop_last() =~= Seq::<char>::empty());
    assert(Seq::<char>::empty().filter(pred) =~= Seq::<char>::empty());
    assert(seq![c].last() == c);
}

/// Scanning a suffix and printing the tokens back keeps exactly its command
/// characters, whatever the line bookkeeping says.
proof fn lemma_strip_comments_at(s: Seq<char>, i: int, nl: int, ls: int)
    requires
        0 <= i <= s.len(),
    ensures
        spec_source_from_tokens(spec_tokenize_at(s, i, nl, ls)) == s.subrange(
            i,
            s.len() as int,
        ).filter(|x: char| is_command_char(x)),
    decreases s.len() - i,
{
    let pred = |x: char| is_command_char(x);
    if i == s.len() {
        reveal(Seq::filter);
        assert(s.subrange(i, s.len() as int) =~= Seq::<char>::empty());
        assert(spec_source_from_tokens(spec_tokenize_at(s, i, nl, ls)) =~= Seq::<char>::empty());
    } else {
        let c = s[i];
        let suffix = s.subrange(i, s.len() as int);
        let tail = s.subrange(i + 1, s.len() as int);
        assert(suffix =~= seq![c] + tail);
        Seq::filter_distributes_over_add(seq![c], tail, pred);
        lemma_filter_one(c);
        if c == '\n' {
            lemma_strip_comments_at(s, i + 1, nl + 1, i + 1);
            assert(spec_source_from_tokens(spec_tokenize_at(s, i, nl, ls)) =~= suffix.filter(
                pred,
            ));
        } else if is_command_char(c) {
            lemma_strip_comments_at(s, i + 1, nl, ls);
            let toks = spec_tokenize_at(s, i, nl, ls);
            let rest = spec_tokenize_at(s, i + 1, nl, ls);
            assert(toks =~= seq![toks[0]] + rest);
            assert(spec_token_char(toks[0]) == c);
            assert forall|k: int| 0 <= k < toks.len() implies spec_source_from_tokens(toks)[k]
                == (seq![c] + spec_source_from_tokens(rest))[k] by {
                if k > 0 {
                    assert(toks[k] == rest[k - 1]);
                    assert(spec_source_from_tokens(rest)[k - 1] == spec_token_char(rest[k - 1]));
                }
            }
            assert(spec_source_from_tokens(toks) =~= seq![c] + spec_source_from_tokens(rest));
            assert(spec_source_from_tokens(toks) =~= suffix.filter(pred));
        } else {
            lemma_strip_comments_at(s, i + 1, nl, ls);
            assert(spec_source_from_tokens(spec_tokenize_at(s, i, nl, ls)) =~= suffix.filter(
                pred,
            ));
        }
    }
}

/// Comment stripping: printing a source's tokens back yields exactly its
/// command characters, in order; every other character vanishes with no
/// effect on its neighbours.
pub proof fn lemma_tokenize_strips_comments(s: Seq<char>)
    ensures
        spec_source_from_tokens(spec_tokenize(s)) == s.filter(|x: char| is_command_char(x)),
{
    lemma_strip_comments_at(s, 0, 0, 0);
    assert(s.subrange(0, s.len() as int) =~= s);
}

} // verus!
