use brainfuck::interpreter::Machine;
use brainfuck::tape::render_tape_window;

const SEP: &str = "+-----+-----+-----+-----+-----+-----+-----+-----+-----+-----+-----+-----+";

#[test]
fn test_render_window_at_start() {
    let m = Machine::new(Vec::new());
    let rendered = render_tape_window(&m.tape, 0);
    let mut expected = String::new();
    expected.push_str("         |\n");
    expected.push_str("         V\n");
    expected.push_str(SEP);
    expected.push('\n');
    expected.push_str("| IDX |  0  |  1  |  2  |  3  |  4  |  5  |  6  |  7  |  8  |  9  |  10 |\n");
    expected.push_str(SEP);
    expected.push('\n');
    expected.push_str("| VAL |  0  |  0  |  0  |  0  |  0  |  0  |  0  |  0  |  0  |  0  |  0  |\n");
    expected.push_str(SEP);
    expected.push('\n');
    expected.push_str("         ^\n");
    expected.push_str("         |\n");
    assert_eq!(rendered, expected);
}

#[test]
fn test_render_window_centered_values() {
    let mut m = Machine::new(Vec::new());
    m.tape[8] = 7;
    m.tape[13] = 255;
    let rendered = render_tape_window(&m.tape, 8);
    let lines: Vec<&str> = rendered.lines().collect();
    assert_eq!(lines.len(), 9);
    // Window is centered: indices 3 through 13.
    assert_eq!(
        lines[3],
        "| IDX |  3  |  4  |  5  |  6  |  7  |  8  |  9  |  10 |  11 |  12 |  13 |"
    );
    assert_eq!(
        lines[5],
        "| VAL |  0  |  0  |  0  |  0  |  0  |  7  |  0  |  0  |  0  |  0  | 255 |"
    );
    // The arrow columns mark the pointer's cell: 3 + (8 - 3) * 6 + 6 spaces.
    assert_eq!(lines[0], format!("{}|", " ".repeat(39)));
    assert_eq!(lines[1], format!("{}V", " ".repeat(39)));
    assert_eq!(lines[7], format!("{}^", " ".repeat(39)));
    assert_eq!(lines[8], format!("{}|", " ".repeat(39)));
}

#[test]
fn test_render_window_clamped_at_end() {
    let m = Machine::new(Vec::new());
    let rendered = render_tape_window(&m.tape, 29999);
    let lines: Vec<&str> = rendered.lines().collect();
    assert_eq!(
        lines[3],
        "| IDX |29989|29990|29991|29992|29993|29994|29995|29996|29997|29998|29999|"
    );
    assert_eq!(lines[0], format!("{}|", " ".repeat(69)));
}

#[test]
fn test_render_window_clamped_at_start() {
    let m = Machine::new(Vec::new());
    // Any pointer below 6 shows cells 0 through 10.
    let rendered = render_tape_window(&m.tape, 5);
    let lines: Vec<&str> = rendered.lines().collect();
    assert_eq!(
        lines[3],
        "| IDX |  0  |  1  |  2  |  3  |  4  |  5  |  6  |  7  |  8  |  9  |  10 |"
    );
    assert_eq!(lines[0], format!("{}|", " ".repeat(39)));
}
