use brainfuck::parser::{parse, Instruction, SyntaxError};
use brainfuck::tokenizer::{tokenize, Position};

#[test]
fn test_balanced_brackets_parse() {
    let instructions = parse(tokenize(String::from("[]"))).unwrap();
    assert_eq!(instructions.len(), 1);
    assert!(matches!(&instructions[0], Instruction::Loop(body) if body.is_empty()));
}

#[test]
fn test_unmatched_opening_bracket() {
    let r = parse(tokenize(String::from("[")));
    assert_eq!(
        r.unwrap_err(),
        SyntaxError::UnmatchedOpening(Position { line: 1, col: 1 })
    );
}

#[test]
fn test_unmatched_closing_bracket() {
    let r = parse(tokenize(String::from("]")));
    assert_eq!(
        r.unwrap_err(),
        SyntaxError::UnmatchedClosing(Position { line: 1, col: 1 })
    );
}

#[test]
fn test_innermost_open_reported() {
    // Several unclosed opens: the most recently recorded outermost start of
    // the current frame is reported, here the bracket opening the loop.
    let r = parse(tokenize(String::from("+[[")));
    assert_eq!(
        r.unwrap_err(),
        SyntaxError::UnmatchedOpening(Position { line: 1, col: 2 })
    );
}

#[test]
fn test_unmatched_close_inside_loop() {
    let r = parse(tokenize(String::from("[]]")));
    assert_eq!(
        r.unwrap_err(),
        SyntaxError::UnmatchedClosing(Position { line: 1, col: 3 })
    );
}

#[test]
fn test_nested_loops() {
    let instructions = parse(tokenize(String::from("+[>[-]<]."))).unwrap();
    assert_eq!(instructions.len(), 3);
    assert!(matches!(&instructions[0], Instruction::Increment));
    assert!(matches!(&instructions[2], Instruction::Write));
    match &instructions[1] {
        Instruction::Loop(body) => {
            assert_eq!(body.len(), 3);
            assert!(matches!(&body[0], Instruction::Right));
            assert!(matches!(&body[2], Instruction::Left));
            assert!(matches!(&body[1], Instruction::Loop(inner) if inner.len() == 1));
        }
        _ => panic!("expected a loop"),
    }
}

#[test]
fn test_leaf_instructions_in_order() {
    let instructions = parse(tokenize(String::from("><+-.,"))).unwrap();
    assert_eq!(instructions.len(), 6);
    assert!(matches!(&instructions[0], Instruction::Right));
    assert!(matches!(&instructions[1], Instruction::Left));
    assert!(matches!(&instructions[2], Instruction::Increment));
    assert!(matches!(&instructions[3], Instruction::Decrement));
    assert!(matches!(&instructions[4], Instruction::Write));
    assert!(matches!(&instructions[5], Instruction::Read));
}
