//! Executing an instruction tree against a machine: a fixed tape of 30000
//! byte cells, a pointer into it, an input stream and an output stream.
//!
//! The meaning of a program is given by the fuel-indexed spec interpreter
//! `spec_run`: fuel bounds how often any loop may be re-entered, and every
//! other effect is exact. The executable interpreter takes the same fuel
//! bound and returns precisely what the spec interpreter says: the final
//! machine, the runtime error, or fuel exhaustion. By
//! `lemma_spec_step_fuel_monotonic`, an outcome other than fuel exhaustion
//! never changes when more fuel is supplied, so a caller that wants a
//! program to run until it stops on its own simply passes the largest
//! bound.

use vstd::prelude::*;

verus! {

use vstd::pervasive::VecAdditionalExecFns;
use crate::parser::{spec_inst, spec_insts, lemma_spec_insts, Instruction, SpecInstruction};

/// Number of cells on the tape.
pub const TAPE_LEN: usize = 30000;

/// A pointer moved off the tape; the run aborts.
#[derive(Clone, Copy, Debug, PartialEq, Eq, Structural)]
pub enum RuntimeError {
    /// MoveRight with the pointer already at the last cell.
    OutOfBoundsHigh,
    /// MoveLeft with the pointer already at cell 0.
    OutOfBoundsLow,
}

/// How a run that did not abort ended.
#[derive(Clone, Copy, Debug, PartialEq, Eq, Structural)]
pub enum RunStatus {
    /// Every instruction was executed.
    Done,
    /// Some loop was re-entered more often than the fuel bound allows;
    /// the machine is left mid-run.
    OutOfFuel,
}

/// The mathematical state of a machine: tape, pointer, input still to be
/// read, and output written so far.
#[verifier::ext_equal]
pub ghost struct State {
    pub tape: Seq<u8>,
    pub ptr: int,
    pub input: Seq<u8>,
    pub output: Seq<u8>,
}

impl State {
    /// A state the interpreter can run from: full-length tape, pointer on it.
    pub open spec fn wf(self) -> bool {
        self.tape.len() == TAPE_LEN && 0 <= self.ptr < TAPE_LEN
    }
}

/// What the spec interpreter says of a (partial) run.
pub ghost enum Outcome {
    /// The run finished in this state.
    Done(State),
    /// The run aborted with this error.
    Fail(RuntimeError),
    /// The fuel bound was exhausted.
    OutOfFuel,
}

/// A byte incremented with 8-bit wraparound.
pub open spec fn inc_wrap(v: u8) -> u8 {
    ((v + 1) % 256) as u8
}

/// A byte decremented with 8-bit wraparound.
pub open spec fn dec_wrap(v: u8) -> u8 {
    ((v + 255) % 256) as u8
}

/// The effect of one instruction on a state, with `fuel` bounding loop
/// re-entries.
pub open spec fn spec_step(i: SpecInstruction, st: State, fuel: nat) -> Outcome
    decreases fuel, i, 0int,
{
    match i {
        SpecInstruction::Right => if st.ptr == TAPE_LEN - 1 {
            Outcome::Fail(RuntimeError::OutOfBoundsHigh)
        } else {
            Outcome::Done(State { ptr: st.ptr + 1, ..st })
        },
        SpecInstruction::Left => if st.ptr == 0 {
            Outcome::Fail(RuntimeError::OutOfBoundsLow)
        } else {
            Outcome::Done(State { ptr: st.ptr - 1, ..st })
        },
        SpecInstruction::Increment => Outcome::Done(
            State { tape: st.tape.update(st.ptr, inc_wrap(st.tape[st.ptr])), ..st },
        ),
        SpecInstruction::Decrement => Outcome::Done(
            State { tape: st.tape.update(st.ptr, dec_wrap(st.tape[st.ptr])), ..st },
        ),
        SpecInstruction::Write => Outcome::Done(
            State { output: st.output.push(st.tape[st.ptr]), ..st },
        ),
        SpecInstruction::Read => if st.input.len() == 0 {
            Outcome::Done(st)
        } else {
            Outcome::Done(
                State { tape: st.tape.update(st.ptr, st.input[0]), input: st.input.drop_first(), ..st },
            )
        },
        SpecInstruction::Loop(body) => if st.tape[st.ptr] == 0 {
            Outcome::Done(st)
        } else if fuel == 0 {
            Outcome::OutOfFuel
        } else {
            match spec_run_at(body, 0, st, fuel) {
                Outcome::Done(st2) => spec_step(i, st2, (fuel - 1) as nat),
                r => r,
            }
        },
    }
}

/// The effect of the instructions from index `k` on, in order.
pub open spec fn spec_run_at(p: Seq<SpecInstruction>, k: int, st: State, fuel: nat) -> Outcome
    decreases fuel, p, p.len() - k,
{
    if k < 0 || k >= p.len() {
        Outcome::Done(st)
    } else {
        match spec_step(p[k], st, fuel) {
            Outcome::Done(st2) => spec_run_at(p, k + 1, st2, fuel),
            r => r,
        }
    }
}

/// The effect of a whole program on a state.
pub open spec fn spec_run(p: Seq<SpecInstruction>, st: State, fuel: nat) -> Outcome {
    spec_run_at(p, 0, st, fuel)
}

/// A machine: the tape with its pointer, the input bytes with a cursor over
/// them, and the output written so far. One machine may serve several
/// consecutive runs, as in an interactive session.
#[derive(Debug)]
pub struct Machine {
    /// The fixed-size cell tape.
    pub tape: Vec<u8>,
    /// Index of the current cell.
    pub ptr: usize,
    /// The input bytes given to the machine.
    pub input: Vec<u8>,
    /// How many input bytes were consumed already.
    pub next_input: usize,
    /// The output bytes written so far.
    pub output: Vec<u8>,
}

impl View for Machine {
    type V = State;

    open spec fn view(&self) -> State {
        State {
            tape: self.tape@,
            ptr: self.ptr as int,
            input: self.input@.skip(self.next_input as int),
            output: self.output@,
        }
    }
}

impl Machine {
    /// A machine fit to run: tape of full length, pointer on it, input
    /// cursor within bounds.
    pub open spec fn wf(&self) -> bool {
        &&& self.tape@.len() == TAPE_LEN
        &&& self.ptr < TAPE_LEN
        &&& self.next_input <= self.input@.len()
    }

    /// A fresh machine: zeroed tape, pointer at 0, the given input, no
    /// output yet.
    pub fn new(input: Vec<u8>) -> (m: Machine)
        ensures
            m.wf(),
            m@ == (State {
                tape: Seq::new(TAPE_LEN as nat, |i: int| 0u8),
                ptr: 0,
                input: input@,
                output: Seq::empty(),
            }),
    {
        let mut tape: Vec<u8> = Vec::new();
        while tape.len() < TAPE_LEN
            invariant
                tape@.len() <= TAPE_LEN,
                forall|i: int| 0 <= i < tape@.len() ==> tape@[i] == 0u8,
            decreases TAPE_LEN - tape@.len(),
        {
            tape.push(0u8);
        }
        let m = Machine { tape, ptr: 0, input, next_input: 0, output: Vec::new() };
        proof {
            assert(m@.tape =~= Seq::new(TAPE_LEN as nat, |i: int| 0u8));
            assert(m@.input =~= m.input@);
            assert(m@ =~= (State {
                tape: Seq::new(TAPE_LEN as nat, |i: int| 0u8),
                ptr: 0,
                input: m.input@,
                output: Seq::empty(),
            }));
        }
        m
    }
}

/// Execute one instruction against the machine, with `fuel` bounding loop
/// re-entries, returning exactly what the spec interpreter says.
#[verifier::loop_isolation(false)]
fn step(instruction: &Instruction, m: &mut Machine, fuel: u64) -> (r: Result<
    RunStatus,
    RuntimeError,
>)
    requires
        old(m).wf(),
    ensures
        final(m).wf(),
        r matches Ok(RunStatus::Done) ==> spec_step(spec_inst(*instruction), old(m)@, fuel as nat)
            == Outcome::Done(final(m)@),
        r matches Ok(RunStatus::OutOfFuel) ==> spec_step(
            spec_inst(*instruction),
            old(m)@,
            fuel as nat,
        ) == Outcome::OutOfFuel,
        r matches Err(e) ==> spec_step(spec_inst(*instruction), old(m)@, fuel as nat)
            == Outcome::Fail(e),
    decreases fuel, *instruction, 0int,
{
    match instruction {
        Instruction::Right => {
            if m.ptr == TAPE_LEN - 1 {
                return Err(RuntimeError::OutOfBoundsHigh);
            }
            m.ptr = m.ptr + 1;
            proof {
                assert(m@ =~= (State { ptr: old(m)@.ptr + 1, ..old(m)@ }));
            }
            Ok(RunStatus::Done)
        },
        Instruction::Left => {
            if m.ptr == 0 {
                return Err(RuntimeError::OutOfBoundsLow);
            }
            m.ptr = m.ptr - 1;
            proof {
                assert(m@ =~= (State { ptr: old(m)@.ptr - 1, ..old(m)@ }));
            }
            Ok(RunStatus::Done)
        },
        Instruction::Increment => {
            let v = m.tape[m.ptr];
            m.tape.set(m.ptr, v.wrapping_add(1));
            proof {
                assert(v.wrapping_add(1) == inc_wrap(v));
                assert(m@ =~= (State {
                    tape: old(m)@.tape.update(old(m)@.ptr, inc_wrap(v)),
                    ..old(m)@
                }));
            }
            Ok(RunStatus::Done)
        },
        Instruction::Decrement => {
            let v = m.tape[m.ptr];
            m.tape.set(m.ptr, v.wrapping_sub(1));
            proof {
                assert(v.wrapping_sub(1) == dec_wrap(v));
                assert(m@ =~= (State {
                    tape: old(m)@.tape.update(old(m)@.ptr, dec_wrap(v)),
                    ..old(m)@
                }));
            }
            Ok(RunStatus::Done)
        },
        Instruction::Write => {
            let v = m.tape[m.ptr];
            m.output.push(v);
            proof {
                assert(m@ =~= (State { output: old(m)@.output.push(v), ..old(m)@ }));
            }
            Ok(RunStatus::Done)
        },
        Instruction::Read => {
            if m.next_input < m.input.len() {
                let b = m.input[m.next_input];
                m.tape.set(m.ptr, b);
                m.next_input = m.next_input + 1;
                proof {
                    assert(old(m)@.input[0] == b);
                    assert(m@.input =~= old(m)@.input.drop_first());
                    assert(m@ =~= (State {
                        tape: old(m)@.tape.update(old(m)@.ptr, b),
                        input: old(m)@.input.drop_first(),
                        ..old(m)@
                    }));
                }
            } else {
                proof {
                    assert(old(m)@.input.len() == 0);
                }
            }
            Ok(RunStatus::Done)
        },
        Instruction::Loop(body) => {
            let ghost li = spec_inst(*instruction);
            let ghost st0 = old(m)@;
            let mut f = fuel;
            proof {
                assert(li matches SpecInstruction::Loop(b) && b == spec_insts(body@));
            }
            while m.tape[m.ptr] != 0
                invariant
                    m.wf(),
                    f <= fuel,
                    li == spec_inst(*instruction),
                    (li matches SpecInstruction::Loop(b) && b == spec_insts(body@)),
                    st0 == old(m)@,
                    spec_step(li, st0, fuel as nat) == spec_step(li, m@, f as nat),
                decreases f,
            {
                if f == 0 {
                    proof {
                        assert(spec_step(li, m@, 0nat) == Outcome::OutOfFuel);
                    }
                    return Ok(RunStatus::OutOfFuel);
                }
                let ghost pre = m@;
                proof {
                    assert(decreases_to!(*instruction => body@));
                }
                match run(body, m, f) {
                    Ok(RunStatus::Done) => {
                        proof {
                            assert(spec_run_at(spec_insts(body@), 0, pre, f as nat)
                                == Outcome::Done(m@));
                            assert(spec_step(li, pre, f as nat) == spec_step(
                                li,
                                m@,
                                (f - 1) as nat,
                            ));
                        }
                        f = f - 1;
                    },
                    Ok(RunStatus::OutOfFuel) => {
                        proof {
                            assert(spec_run_at(spec_insts(body@), 0, pre, f as nat)
                                == Outcome::OutOfFuel);
                            assert(spec_step(li, pre, f as nat) == Outcome::OutOfFuel);
                        }
                        return Ok(RunStatus::OutOfFuel);
                    },
                    Err(e) => {
                        proof {
                            assert(spec_run_at(spec_insts(body@), 0, pre, f as nat)
                                == Outcome::Fail(e));
                            assert(spec_step(li, pre, f as nat) == Outcome::Fail(e));
                        }
                        return Err(e);
                    },
                }
            }
            proof {
                assert(spec_step(li, m@, f as nat) == Outcome::Done(m@));
            }
            Ok(RunStatus::Done)
        },
    }
}

/// Run a vec of instructions generated by the parser against the machine,
/// with `fuel` bounding how often any loop may be re-entered. The result is
/// exactly what the spec interpreter `spec_run` says of the program: the
/// machine ends in the state of `Outcome::Done`, or the run aborts with the
/// error of `Outcome::Fail`, or the fuel bound was hit.
pub fn run(instructions: &Vec<Instruction>, m: &mut Machine, fuel: u64) -> (r: Result<
    RunStatus,
    RuntimeError,
>)
    requires
        old(m).wf(),
    ensures
        final(m).wf(),
        r matches Ok(RunStatus::Done) ==> spec_run(spec_insts(instructions@), old(m)@, fuel as nat)
            == Outcome::Done(final(m)@),
        r matches Ok(RunStatus::OutOfFuel) ==> spec_run(
            spec_insts(instructions@),
            old(m)@,
            fuel as nat,
        ) == Outcome::OutOfFuel,
        r matches Err(e) ==> spec_run(spec_insts(instructions@), old(m)@, fuel as nat)
            == Outcome::Fail(e),
    decreases fuel, instructions@, 0int,
{
    let ghost p = spec_insts(instructions@);
    let ghost st0 = old(m)@;
    proof {
        lemma_spec_insts(instructions@);
    }
    let n = instructions.len();
    let mut idx: usize = 0;
    while idx < n
        invariant
            m.wf(),
            idx <= n,
            n == instructions@.len(),
            p == spec_insts(instructions@),
            p.len() == n,
            forall|j: int| 0 <= j < n ==> #[trigger] p[j] == spec_inst(instructions@[j]),
            st0 == old(m)@,
            spec_run_at(p, 0, st0, fuel as nat) == spec_run_at(p, idx as int, m@, fuel as nat),
        decreases n - idx,
    {
        let ghost pre = m@;
        proof {
            assert(decreases_to!(instructions@ => instructions@[idx as int]));
            assert(p[idx as int] == spec_inst(instructions@[idx as int]));
        }
        match step(&instructions[idx], m, fuel) {
            Ok(RunStatus::Done) => {
                proof {
                    assert(spec_run_at(p, idx as int, pre, fuel as nat) == spec_run_at(
                        p,
                        idx + 1,
                        m@,
                        fuel as nat,
                    ));
                }
            },
            Ok(RunStatus::OutOfFuel) => {
                proof {
                    assert(spec_step(p[idx as int], pre, fuel as nat) == Outcome::OutOfFuel);
                    assert(spec_run_at(p, idx as int, pre, fuel as nat) == Outcome::OutOfFuel);
                }
                return Ok(RunStatus::OutOfFuel);
            },
            Err(e) => {
                proof {
                    assert(spec_step(p[idx as int], pre, fuel as nat) == Outcome::Fail(e));
                    assert(spec_run_at(p, idx as int, pre, fuel as nat) == Outcome::Fail(e));
                }
                return Err(e);
            },
        }
        idx = idx + 1;
    }
    Ok(RunStatus::Done)
}

/// Fuel only bounds a run: an outcome other than `OutOfFuel` is the same
/// under any larger fuel bound. So a caller loses nothing by passing the
/// largest bound it can afford.
pub proof fn lemma_spec_step_fuel_monotonic(i: SpecInstruction, st: State, f1: nat, f2: nat)
    requires
        f1 <= f2,
        spec_step(i, st, f1) != Outcome::OutOfFuel,
    ensures
        spec_step(i, st, f2) == spec_step(i, st, f1),
    decreases f1, i, 0int,
{
    match i {
        SpecInstruction::Loop(body) => {
            if st.tape[st.ptr] == 0 {
            } else {
                match spec_run_at(body, 0, st, f1) {
                    Outcome::Done(st2) => {
                        lemma_spec_run_at_fuel_monotonic(body, 0, st, f1, f2);
                        lemma_spec_step_fuel_monotonic(i, st2, (f1 - 1) as nat, (f2 - 1) as nat);
                    },
                    Outcome::Fail(_) => {
                        lemma_spec_run_at_fuel_monotonic(body, 0, st, f1, f2);
                    },
                    Outcome::OutOfFuel => {},
                }
            }
        },
        _ => {},
    }
}

/// As `lemma_spec_step_fuel_monotonic`, for an instruction sequence.
pub proof fn lemma_spec_run_at_fuel_monotonic(
    p: Seq<SpecInstruction>,
    k: int,
    st: State,
    f1: nat,
    f2: nat,
)
    requires
        f1 <= f2,
        spec_run_at(p, k, st, f1) != Outcome::OutOfFuel,
    ensures
        spec_run_at(p, k, st, f2) == spec_run_at(p, k, st, f1),
    decreases f1, p, p.len() - k,
{
    if 0 <= k < p.len() {
        match spec_step(p[k], st, f1) {
            Outcome::Done(st2) => {
                lemma_spec_step_fuel_monotonic(p[k], st, f1, f2);
                lemma_spec_run_at_fuel_monotonic(p, k + 1, st2, f1, f2);
            },
            Outcome::Fail(_) => {
                lemma_spec_step_fuel_monotonic(p[k], st, f1, f2);
            },
            Outcome::OutOfFuel => {},
        }
    }
}

/// As `lemma_spec_step_fuel_monotonic`, for a whole program: an outcome
/// other than `OutOfFuel` is independent of the fuel bound.
pub proof fn lemma_spec_run_fuel_monotonic(p: Seq<SpecInstruction>, st: State, f1: nat, f2: nat)
    requires
        f1 <= f2,
        spec_run(p, st, f1) != Outcome::OutOfFuel,
    ensures
        spec_run(p, st, f2) == spec_run(p, st, f1),
{
    lemma_spec_run_at_fuel_monotonic(p, 0, st, f1, f2);
}

} // verus!
