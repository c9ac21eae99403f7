//! Evaluating a piece of source text in one call: tokenize, parse, and run
//! against a fresh machine.

use vstd::prelude::*;

verus! {

use crate::interpreter::{
    run,
    spec_run,
    Machine,
    Outcome,
    RunStatus,
    RuntimeError,
    State,
    TAPE_LEN,
};
use crate::parser::{parse, spec_parse, SpecInstruction, SyntaxError};
use crate::tokenizer::{spec_tokenize, tokenize};

/// The state a fresh machine starts from: zeroed tape, pointer at 0, the
/// given input, no output.
pub open spec fn init_state(input: Seq<u8>) -> State {
    State {
        tape: Seq::new(TAPE_LEN as nat, |i: int| 0u8),
        ptr: 0,
        input,
        output: Seq::empty(),
    }
}

/// Evaluate a piece of source code against a fresh machine, with `fuel`
/// bounding loop re-entries. An unmatched bracket is reported without
/// running anything; otherwise the machine is returned as the run left it,
/// together with how the run ended.
pub fn eval(code: &str, input: Vec<u8>, fuel: u64) -> (r: Result<
    (Machine, Result<RunStatus, RuntimeError>),
    SyntaxError,
>)
    ensures
        r matches Err(e) ==> spec_parse(spec_tokenize(code@)) == Err::<
            Seq<SpecInstruction>,
            SyntaxError,
        >(e),
        r matches Ok((m, rr)) ==> (spec_parse(spec_tokenize(code@)) matches Ok(prog) && m.wf() && {
            let outcome = spec_run(prog, init_state(input@), fuel as nat);
            &&& (rr matches Ok(RunStatus::Done) ==> outcome == Outcome::Done(m@))
            &&& (rr matches Ok(RunStatus::OutOfFuel) ==> outcome == Outcome::OutOfFuel)
            &&& (rr matches Err(e) ==> outcome == Outcome::Fail(e))
        }),
{
    let tokens = tokenize(code.to_owned());
    match parse(tokens) {
        Err(e) => Err(e),
        Ok(instructions) => {
            let mut m = Machine::new(input);
            let rr = run(&instructions, &mut m, fuel);
            Ok((m, rr))
        },
    }
}

} // verus!
