use brainfuck::eval::eval;
use brainfuck::interpreter::{RunStatus, RuntimeError};
use brainfuck::parser::SyntaxError;
use brainfuck::tokenizer::Position;

const FUEL: u64 = 1_000_000;

#[test]
fn test_eval_writes_output() {
    let (m, status) = eval("++.", Vec::new(), FUEL).unwrap();
    assert_eq!(status, Ok(RunStatus::Done));
    assert_eq!(m.output, vec![2]);
}

#[test]
fn test_eval_consumes_input() {
    let (m, status) = eval(",+.", vec![64], FUEL).unwrap();
    assert_eq!(status, Ok(RunStatus::Done));
    assert_eq!(m.output, vec![65]);
}

#[test]
fn test_eval_syntax_error() {
    let r = eval("++[", Vec::new(), FUEL);
    assert_eq!(
        r.unwrap_err(),
        SyntaxError::UnmatchedOpening(Position { line: 1, col: 3 })
    );
}

#[test]
fn test_eval_runtime_error_keeps_partial_output() {
    let (m, status) = eval("+.<", Vec::new(), FUEL).unwrap();
    assert_eq!(status, Err(RuntimeError::OutOfBoundsLow));
    assert_eq!(m.output, vec![1]);
}

#[test]
fn test_eval_out_of_fuel() {
    let (_, status) = eval("+[+]", Vec::new(), 100).unwrap();
    assert_eq!(status, Ok(RunStatus::OutOfFuel));
}

#[test]
fn test_eval_comments_are_ignored() {
    let (m, status) = eval("two: ++ then write .", Vec::new(), FUEL).unwrap();
    assert_eq!(status, Ok(RunStatus::Done));
    assert_eq!(m.output, vec![2]);
}
