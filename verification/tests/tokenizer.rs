use brainfuck::tokenizer::{source_from_tokens, tokenize, Position, Token};

#[test]
fn test_tokenize() {
    let source = String::from("+-.,[]");
    let tokens = tokenize(source);
    let expected = vec![
        Token::Increment,
        Token::Decrement,
        Token::Write,
        Token::Read,
        Token::LoopStart(Position { line: 1, col: 5 }),
        Token::LoopEnd(Position { line: 1, col: 6 }),
    ];
    assert_eq!(tokens, expected);
}

#[test]
fn test_remove_comments() {
    let source = String::from("This + is - just . a , comment");
    let tokens = tokenize(source);
    let expected = vec![
        Token::Increment,
        Token::Decrement,
        Token::Write,
        Token::Read,
    ];
    assert_eq!(tokens, expected);
}

#[test]
fn test_source_from_tokens() {
    let tokens = vec![
        Token::Increment,
        Token::Decrement,
        Token::Write,
        Token::Read,
        Token::LoopStart(Position { line: 1, col: 5 }),
        Token::LoopEnd(Position { line: 1, col: 6 }),
    ];
    let source = source_from_tokens(tokens);
    let expected = String::from("+-.,[]");
    assert_eq!(source, expected);
}

#[test]
fn test_round_trip_commands_only() {
    let source = String::from("++[->+<]>.");
    let tokens = tokenize(source.clone());
    assert_eq!(source_from_tokens(tokens), source);
}

#[test]
fn test_positions_across_lines() {
    let source = String::from("line one\n+[\n  ]");
    let tokens = tokenize(source);
    let expected = vec![
        Token::Increment,
        Token::LoopStart(Position { line: 2, col: 2 }),
        Token::LoopEnd(Position { line: 3, col: 3 }),
    ];
    assert_eq!(tokens, expected);
}

#[test]
fn test_tokenize_empty_and_comment_only() {
    assert_eq!(tokenize(String::new()), vec![]);
    assert_eq!(tokenize(String::from("no commands here\nat all")), vec![]);
}

#[test]
fn test_to_char_covers_every_token() {
    assert_eq!(Token::Right.to_char(), '>');
    assert_eq!(Token::Left.to_char(), '<');
    assert_eq!(Token::Increment.to_char(), '+');
    assert_eq!(Token::Decrement.to_char(), '-');
    assert_eq!(Token::Write.to_char(), '.');
    assert_eq!(Token::Read.to_char(), ',');
    assert_eq!(Token::LoopStart(Position { line: 1, col: 1 }).to_char(), '[');
    assert_eq!(Token::LoopEnd(Position { line: 1, col: 1 }).to_char(), ']');
}
