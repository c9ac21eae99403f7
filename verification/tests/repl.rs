use brainfuck::repl::ReplCommand;

#[test]
fn test_exit_command() {
    assert!(matches!(
        ReplCommand::from_string(String::from("exit")),
        ReplCommand::Exit
    ));
    assert!(matches!(
        ReplCommand::from_string(String::from("  exit  ")),
        ReplCommand::Exit
    ));
}

#[test]
fn test_tape_command_without_index() {
    assert!(matches!(
        ReplCommand::from_string(String::from("tape")),
        ReplCommand::Tape(None)
    ));
}

#[test]
fn test_tape_command_with_index() {
    assert!(matches!(
        ReplCommand::from_string(String::from("tape 12")),
        ReplCommand::Tape(Some(12))
    ));
    assert!(matches!(
        ReplCommand::from_string(String::from("tape 29999")),
        ReplCommand::Tape(Some(29999))
    ));
}

#[test]
fn test_tape_command_index_out_of_bounds() {
    assert!(matches!(
        ReplCommand::from_string(String::from("tape 30000")),
        ReplCommand::Invalid
    ));
}

#[test]
fn test_tape_command_bad_index() {
    assert!(matches!(
        ReplCommand::from_string(String::from("tape twelve")),
        ReplCommand::Invalid
    ));
    assert!(matches!(
        ReplCommand::from_string(String::from("tape 1 2")),
        ReplCommand::Invalid
    ));
    assert!(matches!(
        ReplCommand::from_string(String::from("tape 99999999999999999999999")),
        ReplCommand::Invalid
    ));
}

#[test]
fn test_run_command() {
    assert!(matches!(
        ReplCommand::from_string(String::from("run hello.bf")),
        ReplCommand::Run(f) if f == "hello.bf"
    ));
    assert!(matches!(
        ReplCommand::from_string(String::from("run")),
        ReplCommand::Invalid
    ));
    assert!(matches!(
        ReplCommand::from_string(String::from("run a b")),
        ReplCommand::Invalid
    ));
}

#[test]
fn test_code_line() {
    assert!(matches!(
        ReplCommand::from_string(String::from(" ++[->+<]. ")),
        ReplCommand::Code(c) if c == "++[->+<]."
    ));
}
