use brainfuck::interpreter::{run, Machine, RunStatus, RuntimeError};
use brainfuck::parser::parse;
use brainfuck::tokenizer::tokenize;

const FUEL: u64 = 1_000_000;

fn program(source: &str) -> Vec<brainfuck::parser::Instruction> {
    parse(tokenize(String::from(source))).unwrap()
}

#[test]
fn test_wraparound_increment() {
    let instructions = program(&"+".repeat(256));
    let mut m = Machine::new(Vec::new());
    assert_eq!(run(&instructions, &mut m, FUEL), Ok(RunStatus::Done));
    assert_eq!(m.tape[0], 0);
    assert_eq!(m.ptr, 0);
}

#[test]
fn test_wraparound_decrement() {
    let instructions = program("-");
    let mut m = Machine::new(Vec::new());
    assert_eq!(run(&instructions, &mut m, FUEL), Ok(RunStatus::Done));
    assert_eq!(m.tape[0], 255);
}

#[test]
fn test_move_left_at_zero_fails() {
    let instructions = program("<");
    let mut m = Machine::new(Vec::new());
    assert_eq!(
        run(&instructions, &mut m, FUEL),
        Err(RuntimeError::OutOfBoundsLow)
    );
}

#[test]
fn test_move_right_at_end_fails() {
    let to_last = program(&">".repeat(29999));
    let mut m = Machine::new(Vec::new());
    assert_eq!(run(&to_last, &mut m, FUEL), Ok(RunStatus::Done));
    assert_eq!(m.ptr, 29999);

    let one_more = program(">");
    assert_eq!(
        run(&one_more, &mut m, FUEL),
        Err(RuntimeError::OutOfBoundsHigh)
    );
}

#[test]
fn test_loop_runs_while_cell_nonzero() {
    let instructions = program("[-.]");
    let mut m = Machine::new(Vec::new());
    m.tape[0] = 3;
    assert_eq!(run(&instructions, &mut m, FUEL), Ok(RunStatus::Done));
    // The body ran exactly three times, then the loop exited on zero.
    assert_eq!(m.output, vec![2, 1, 0]);
    assert_eq!(m.tape[0], 0);
}

#[test]
fn test_loop_skipped_on_zero_cell() {
    let instructions = program("[.]");
    let mut m = Machine::new(Vec::new());
    assert_eq!(run(&instructions, &mut m, FUEL), Ok(RunStatus::Done));
    assert_eq!(m.output, Vec::<u8>::new());
}

#[test]
fn test_write_and_read() {
    let instructions = program(",.,.");
    let mut m = Machine::new(vec![7, 9]);
    assert_eq!(run(&instructions, &mut m, FUEL), Ok(RunStatus::Done));
    assert_eq!(m.output, vec![7, 9]);
}

#[test]
fn test_read_with_exhausted_input_keeps_cell() {
    let instructions = program("+++,.");
    let mut m = Machine::new(Vec::new());
    assert_eq!(run(&instructions, &mut m, FUEL), Ok(RunStatus::Done));
    // Input is empty: the read is a no-op, not a zeroing.
    assert_eq!(m.output, vec![3]);
}

#[test]
fn test_out_of_fuel_on_endless_loop() {
    let instructions = program("+[]");
    let mut m = Machine::new(Vec::new());
    assert_eq!(run(&instructions, &mut m, 1000), Ok(RunStatus::OutOfFuel));
}

#[test]
fn test_machine_persists_across_runs() {
    let mut m = Machine::new(Vec::new());
    assert_eq!(run(&program("+>++"), &mut m, FUEL), Ok(RunStatus::Done));
    assert_eq!(m.ptr, 1);
    assert_eq!(run(&program("."), &mut m, FUEL), Ok(RunStatus::Done));
    assert_eq!(m.output, vec![2]);
}

#[test]
fn test_hello_world() {
    let source = "++++++++[>++++[>++>+++>+++>+<<<<-]>+>+>->>+[<]<-]>>.>---.+++++++..+++.>>.<-.<.+++.------.--------.>>+.>++.";
    let instructions = program(source);
    let mut m = Machine::new(Vec::new());
    assert_eq!(run(&instructions, &mut m, FUEL), Ok(RunStatus::Done));
    assert_eq!(m.output, b"Hello World!\n".to_vec());
}
