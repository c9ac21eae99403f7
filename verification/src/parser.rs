//! Parsing a token sequence into a tree of instructions.
//!
//! A single left-to-right scan keeps a bracket-depth counter. At depth zero,
//! non-bracket tokens map one-to-one to instructions; a matched bracket pair
//! has the tokens strictly between the pair parsed recursively and wrapped in
//! a single loop instruction. An unmatched bracket is a syntax error carrying
//! the source position of the offending bracket.

use vstd::prelude::*;

verus! {

use crate::tokenizer::{Position, Token};

/// Instructions that can be run by the interpreter.
#[derive(Debug)]
pub enum Instruction {
    /// Move pointer right
    Right,
    /// Move pointer left
    Left,
    /// Increment current cell
    Increment,
    /// Decrement current cell
    Decrement,
    /// Output value of current cell
    Write,
    /// Replace value of current cell with input
    Read,
    /// Loop over vec of instructions while current cell is not 0
    Loop(Vec<Instruction>),
}

/// The mathematical shape of an instruction tree: as `Instruction`, with a
/// loop body as a sequence. Contracts and lemmas speak of this type.
pub ghost enum SpecInstruction {
    /// Move pointer right
    Right,
    /// Move pointer left
    Left,
    /// Increment current cell
    Increment,
    /// Decrement current cell
    Decrement,
    /// Output value of current cell
    Write,
    /// Replace value of current cell with input
    Read,
    /// Loop over a sequence of instructions while current cell is not 0
    Loop(Seq<SpecInstruction>),
}

/// The mathematical value of one instruction.
pub open spec fn spec_inst(i: Instruction) -> SpecInstruction
    decreases i, 0int,
{
    match i {
        Instruction::Right => SpecInstruction::Right,
        Instruction::Left => SpecInstruction::Left,
        Instruction::Increment => SpecInstruction::Increment,
        Instruction::Decrement => SpecInstruction::Decrement,
        Instruction::Write => SpecInstruction::Write,
        Instruction::Read => SpecInstruction::Read,
        Instruction::Loop(body) => SpecInstruction::Loop(spec_insts_at(body@, 0)),
    }
}

/// The mathematical values of the instructions from index `k` on.
pub open spec fn spec_insts_at(s: Seq<Instruction>, k: int) -> Seq<SpecInstruction>
    decreases s, s.len() - k,
{
    if k < 0 || k >= s.len() {
        Seq::empty()
    } else {
        seq![spec_inst(s[k])] + spec_insts_at(s, k + 1)
    }
}

/// The mathematical value of an instruction sequence.
pub open spec fn spec_insts(s: Seq<Instruction>) -> Seq<SpecInstruction> {
    spec_insts_at(s, 0)
}

/// `spec_insts_at` maps each instruction in place.
proof fn lemma_spec_insts_at(s: Seq<Instruction>, k: int)
    requires
        0 <= k <= s.len(),
    ensures
        spec_insts_at(s, k).len() == s.len() - k,
        forall|j: int|
            0 <= j < s.len() - k ==> #[trigger] spec_insts_at(s, k)[j] == spec_inst(s[k + j]),
    decreases s.len() - k,
{
    if k < s.len() {
        lemma_spec_insts_at(s, k + 1);
    }
}

/// `spec_insts` maps each instruction in place.
pub proof fn lemma_spec_insts(s: Seq<Instruction>)
    ensures
        spec_insts(s).len() == s.len(),
        forall|j: int| 0 <= j < s.len() ==> #[trigger] spec_insts(s)[j] == spec_inst(s[j]),
{
    lemma_spec_insts_at(s, 0);
}

/// Appending one instruction appends its mathematical value.
proof fn lemma_spec_insts_push(s: Seq<Instruction>, x: Instruction)
    ensures
        spec_insts(s.push(x)) == spec_insts(s).push(spec_inst(x)),
{
    lemma_spec_insts(s);
    lemma_spec_insts(s.push(x));
    assert(spec_insts(s.push(x)) =~= spec_insts(s).push(spec_inst(x)));
}

/// A bracket with no counterpart, carrying the source position of the
/// bracket that the parser reports.
#[derive(Clone, Copy, Debug, PartialEq, Eq, Structural)]
pub enum SyntaxError {
    /// A closing bracket at depth zero: it has no starting point.
    UnmatchedClosing(Position),
    /// An opening bracket still unclosed when the tokens end: it has no
    /// ending point.
    UnmatchedOpening(Position),
}

/// One step of the parser's scan, from token `i` on: `depth` open brackets
/// are pending, the outermost was at index `ls` with source position `lsp`,
/// and `acc` holds the instructions built so far. The `ls`/`lsp` arguments
/// matter only while `depth > 0`.
pub open spec fn spec_parse_at(
    tokens: Seq<Token>,
    i: int,
    depth: int,
    ls: int,
    lsp: Position,
    acc: Seq<SpecInstruction>,
) -> Result<Seq<SpecInstruction>, SyntaxError>
    decreases tokens.len(), tokens.len() - i,
{
    if i < 0 || i >= tokens.len() {
        if depth != 0 {
            Err(SyntaxError::UnmatchedOpening(lsp))
        } else {
            Ok(acc)
        }
    } else if depth == 0 {
        match tokens[i] {
            Token::Right => spec_parse_at(tokens, i + 1, 0, ls, lsp, acc.push(SpecInstruction::Right)),
            Token::Left => spec_parse_at(tokens, i + 1, 0, ls, lsp, acc.push(SpecInstruction::Left)),
            Token::Increment => spec_parse_at(
                tokens,
                i + 1,
                0,
                ls,
                lsp,
                acc.push(SpecInstruction::Increment),
            ),
            Token::Decrement => spec_parse_at(
                tokens,
                i + 1,
                0,
                ls,
                lsp,
                acc.push(SpecInstruction::Decrement),
            ),
            Token::Write => spec_parse_at(tokens, i + 1, 0, ls, lsp, acc.push(SpecInstruction::Write)),
            Token::Read => spec_parse_at(tokens, i + 1, 0, ls, lsp, acc.push(SpecInstruction::Read)),
            Token::LoopStart(pos) => spec_parse_at(tokens, i + 1, 1, i, pos, acc),
            Token::LoopEnd(pos) => Err(SyntaxError::UnmatchedClosing(pos)),
        }
    } else {
        match tokens[i] {
            Token::LoopStart(_) => spec_parse_at(tokens, i + 1, depth + 1, ls, lsp, acc),
            Token::LoopEnd(_) => {
                if depth == 1 {
                    // A scan that began at index 0 with depth 0 always has
                    // 0 <= ls < i here; the test keeps the function total.
                    if 0 <= ls && ls < i {
                        match spec_parse(tokens.subrange(ls + 1, i)) {
                            Ok(body) => spec_parse_at(
                                tokens,
                                i + 1,
                                0,
                                ls,
                                lsp,
                                acc.push(SpecInstruction::Loop(body)),
                            ),
                            Err(e) => Err(e),
                        }
                    } else {
                        Err(SyntaxError::UnmatchedOpening(lsp))
                    }
                } else {
                    spec_parse_at(tokens, i + 1, depth - 1, ls, lsp, acc)
                }
            },
            _ => spec_parse_at(tokens, i + 1, depth, ls, lsp, acc),
        }
    }
}

/// What parsing a token sequence yields: the instruction trees of the
/// program, or the syntax error that the scan reports.
pub open spec fn spec_parse(tokens: Seq<Token>) -> Result<Seq<SpecInstruction>, SyntaxError>
    decreases tokens.len(), tokens.len() + 1,
{
    spec_parse_at(tokens, 0, 0, 0, Position { line: 0, col: 0 }, Seq::empty())
}

/// Net bracket depth of the first `n` tokens: opens minus closes.
pub open spec fn depth_after(tokens: Seq<Token>, n: int) -> int
    decreases n,
{
    if n <= 0 || n > tokens.len() {
        0
    } else {
        depth_after(tokens, n - 1) + match tokens[n - 1] {
            Token::LoopStart(_) => 1int,
            Token::LoopEnd(_) => -1int,
            _ => 0int,
        }
    }
}

/// Brackets pair up: no prefix closes more than it has opened, and at the
/// end every open bracket is closed.
pub open spec fn balanced(tokens: Seq<Token>) -> bool {
    &&& depth_after(tokens, tokens.len() as int) == 0
    &&& forall|n: int| 0 <= n <= tokens.len() ==> depth_after(tokens, n) >= 0
}

/// Depth within a subrange is depth in the whole, shifted by the depth at
/// the subrange's start.
proof fn lemma_depth_subrange(tokens: Seq<Token>, lo: int, hi: int, n: int)
    requires
        0 <= lo <= hi <= tokens.len(),
        0 <= n <= hi - lo,
    ensures
        depth_after(tokens.subrange(lo, hi), n) == depth_after(tokens, lo + n) - depth_after(
            tokens,
            lo,
        ),
    decreases n,
{
    if n > 0 {
        lemma_depth_subrange(tokens, lo, hi, n - 1);
        assert(tokens.subrange(lo, hi)[n - 1] == tokens[lo + n - 1]);
    }
}

/// Parses a vec of tokens to a vec of instructions, or reports the first
/// unmatched bracket.
pub fn parse(tokens: Vec<Token>) -> (r: Result<Vec<Instruction>, SyntaxError>)
    ensures
        r matches Ok(insts) ==> spec_parse(tokens@) == Ok::<Seq<SpecInstruction>, SyntaxError>(
            spec_insts(insts@),
        ),
        r matches Err(e) ==> spec_parse(tokens@) == Err::<Seq<SpecInstruction>, SyntaxError>(e),
    decreases tokens@.len(),
{
    let mut instructions: Vec<Instruction> = Vec::new();
    let mut loop_stack: usize = 0;
    let mut loop_start: usize = 0;
    let mut loop_start_pos = Position { line: 0, col: 0 };
    let n = tokens.len();
    let mut i: usize = 0;
    while i < n
        invariant
            n == tokens@.len(),
            i <= n,
            loop_stack <= i,
            loop_stack > 0 ==> loop_start < i,
            spec_parse(tokens@) == spec_parse_at(
                tokens@,
                i as int,
                loop_stack as int,
                loop_start as int,
                loop_start_pos,
                spec_insts(instructions@),
            ),
        decreases n - i,
    {
        let t = tokens[i];
        let ghost pre = instructions@;
        if loop_stack == 0 {
            match t {
                Token::Right => {
                    instructions.push(Instruction::Right);
                    proof {
                        lemma_spec_insts_push(pre, Instruction::Right);
                    }
                },
                Token::Left => {
                    instructions.push(Instruction::Left);
                    proof {
                        lemma_spec_insts_push(pre, Instruction::Left);
                    }
                },
                Token::Increment => {
                    instructions.push(Instruction::Increment);
                    proof {
                        lemma_spec_insts_push(pre, Instruction::Increment);
                    }
                },
                Token::Decrement => {
                    instructions.push(Instruction::Decrement);
                    proof {
                        lemma_spec_insts_push(pre, Instruction::Decrement);
                    }
                },
                Token::Write => {
                    instructions.push(Instruction::Write);
                    proof {
                        lemma_spec_insts_push(pre, Instruction::Write);
                    }
                },
                Token::Read => {
                    instructions.push(Instruction::Read);
                    proof {
                        lemma_spec_insts_push(pre, Instruction::Read);
                    }
                },
                Token::LoopStart(pos) => {
                    loop_stack = 1;
                    loop_start = i;
                    loop_start_pos = pos;
                },
                Token::LoopEnd(pos) => {
                    return Err(SyntaxError::UnmatchedClosing(pos));
                },
            }
        } else {
            match t {
                Token::LoopStart(_) => {
                    loop_stack = loop_stack + 1;
                },
                Token::LoopEnd(_) => {
                    loop_stack = loop_stack - 1;
                    if loop_stack == 0 {
                        let mut sub: Vec<Token> = Vec::new();
                        let mut k = loop_start + 1;
                        while k < i
                            invariant
                                loop_start + 1 <= k <= i <= n,
                                n == tokens@.len(),
                                sub@ == tokens@.subrange(loop_start + 1, k as int),
                            decreases i - k,
                        {
                            sub.push(tokens[k]);
                            proof {
                                assert(sub@ =~= tokens@.subrange(loop_start + 1, k + 1));
                            }
                            k = k + 1;
                        }
                        proof {
                            assert(decreases_to!(tokens@ => tokens@.subrange(
                                loop_start + 1,
                                i as int,
                            )));
                        }
                        match parse(sub) {
                            Ok(body) => {
                                instructions.push(Instruction::Loop(body));
                                proof {
                                    lemma_spec_insts_push(pre, Instruction::Loop(body));
                                }
                            },
                            Err(e) => {
                                return Err(e);
                            },
                        }
                    }
                },
                _ => {},
            }
        }
        i = i + 1;
    }
    if loop_stack != 0 {
        return Err(SyntaxError::UnmatchedOpening(loop_start_pos));
    }
    Ok(instructions)
}

/// The rest of the tokens keep the depth nonnegative and the whole
/// sequence brings it back to zero.
spec fn suffix_balanced(tokens: Seq<Token>, i: int) -> bool {
    &&& depth_after(tokens, tokens.len() as int) == 0
    &&& forall|n: int| i <= n <= tokens.len() ==> depth_after(tokens, n) >= 0
}

/// A step of the scan keeps `suffix_balanced` unchanged as long as the
/// depth so far is nonnegative.
proof fn lemma_suffix_balanced_step(tokens: Seq<Token>, i: int)
    requires
        0 <= i < tokens.len(),
        depth_after(tokens, i) >= 0,
    ensures
        suffix_balanced(tokens, i) <==> suffix_balanced(tokens, i + 1),
{
    if suffix_balanced(tokens, i + 1) {
        assert forall|n: int| i <= n <= tokens.len() implies depth_after(tokens, n) >= 0 by {
            if n > i {
                assert(depth_after(tokens, n) >= 0);
            }
        }
    }
}

/// The scan from token `i` on succeeds exactly when the rest of the tokens
/// keep the depth nonnegative and bring it back to zero. The requires
/// describe every state the scan can reach from the start of a sequence.
proof fn lemma_scan_ok_iff_balanced(
    tokens: Seq<Token>,
    i: int,
    depth: int,
    ls: int,
    lsp: Position,
    acc: Seq<SpecInstruction>,
)
    requires
        0 <= i <= tokens.len(),
        depth == depth_after(tokens, i),
        forall|m: int| 0 <= m <= i ==> depth_after(tokens, m) >= 0,
        depth > 0 ==> {
            &&& 0 <= ls < i
            &&& tokens[ls] is LoopStart
            &&& depth_after(tokens, ls) == 0
            &&& forall|m: int| ls < m <= i ==> depth_after(tokens, m) >= 1
        },
    ensures
        spec_parse_at(tokens, i, depth, ls, lsp, acc) is Ok <==> suffix_balanced(tokens, i),
    decreases tokens.len(), tokens.len() - i,
{
    if i == tokens.len() {
        assert(depth_after(tokens, i) >= 0);
    } else {
        assert(depth_after(tokens, i + 1) == depth + (match tokens[i] {
            Token::LoopStart(_) => 1int,
            Token::LoopEnd(_) => -1int,
            _ => 0int,
        }));
        if depth == 0 {
            match tokens[i] {
                Token::LoopStart(pos) => {
                    lemma_scan_ok_iff_balanced(tokens, i + 1, 1, i, pos, acc);
                    lemma_suffix_balanced_step(tokens, i);
                },
                Token::LoopEnd(_) => {
                    assert(depth_after(tokens, i + 1) == -1);
                    assert(!suffix_balanced(tokens, i));
                },
                Token::Right => {
                    lemma_scan_ok_iff_balanced(
                        tokens,
                        i + 1,
                        0,
                        ls,
                        lsp,
                        acc.push(SpecInstruction::Right),
                    );
                    lemma_suffix_balanced_step(tokens, i);
                },
                Token::Left => {
                    lemma_scan_ok_iff_balanced(
                        tokens,
                        i + 1,
                        0,
                        ls,
                        lsp,
                        acc.push(SpecInstruction::Left),
                    );
                    lemma_suffix_balanced_step(tokens, i);
                },
                Token::Increment => {
                    lemma_scan_ok_iff_balanced(
                        tokens,
                        i + 1,
                        0,
                        ls,
                        lsp,
                        acc.push(SpecInstruction::Increment),
                    );
                    lemma_suffix_balanced_step(tokens, i);
                },
                Token::Decrement => {
                    lemma_scan_ok_iff_balanced(
                        tokens,
                        i + 1,
                        0,
                        ls,
                        lsp,
                        acc.push(SpecInstruction::Decrement),
                    );
                    lemma_suffix_balanced_step(tokens, i);
                },
                Token::Write => {
                    lemma_scan_ok_iff_balanced(
                        tokens,
                        i + 1,
                        0,
                        ls,
                        lsp,
                        acc.push(SpecInstruction::Write),
                    );
                    lemma_suffix_balanced_step(tokens, i);
                },
                Token::Read => {
                    lemma_scan_ok_iff_balanced(
                        tokens,
                        i + 1,
                        0,
                        ls,
                        lsp,
                        acc.push(SpecInstruction::Read),
                    );
                    lemma_suffix_balanced_step(tokens, i);
                },
            }
        } else {
            match tokens[i] {
                Token::LoopStart(_) => {
                    lemma_scan_ok_iff_balanced(tokens, i + 1, depth + 1, ls, lsp, acc);
                    lemma_suffix_balanced_step(tokens, i);
                },
                Token::LoopEnd(_) => {
                    if depth == 1 {
                        let sub = tokens.subrange(ls + 1, i);
                        assert(depth_after(tokens, ls + 1) == 1);
                        assert forall|n: int| 0 <= n <= sub.len() implies #[trigger] depth_after(
                            sub,
                            n,
                        ) == depth_after(tokens, ls + 1 + n) - 1 by {
                            lemma_depth_subrange(tokens, ls + 1, i, n);
                        }
                        assert(depth_after(sub, sub.len() as int) == 0);
                        assert(balanced(sub));
                        lemma_parse_ok_iff_balanced(sub);
                        let body = spec_parse(sub)->Ok_0;
                        lemma_scan_ok_iff_balanced(
                            tokens,
                            i + 1,
                            0,
                            ls,
                            lsp,
                            acc.push(SpecInstruction::Loop(body)),
                        );
                        lemma_suffix_balanced_step(tokens, i);
                    } else {
                        lemma_scan_ok_iff_balanced(tokens, i + 1, depth - 1, ls, lsp, acc);
                        lemma_suffix_balanced_step(tokens, i);
                    }
                },
                _ => {
                    lemma_scan_ok_iff_balanced(tokens, i + 1, depth, ls, lsp, acc);
                    lemma_suffix_balanced_step(tokens, i);
                },
            }
        }
    }
}

/// Parsing succeeds exactly on balanced token sequences: every closing
/// bracket has its opener before it, and every opener is closed. On such a
/// sequence the parser owes a tree; on any other it owes a syntax error.
pub proof fn lemma_parse_ok_iff_balanced(tokens: Seq<Token>)
    ensures
        spec_parse(tokens) is Ok <==> balanced(tokens),
    decreases tokens.len(), tokens.len() + 1,
{
    lemma_scan_ok_iff_balanced(
        tokens,
        0,
        0,
        0,
        Position { line: 0, col: 0 },
        Seq::empty(),
    );
}

} // verus!
