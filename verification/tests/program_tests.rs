use exa_vm::instruction::{Instruction, ParseError as InstructionParseError};
use exa_vm::program::{LineParseError, ParseError, Program};
use exa_vm::value::Value;

fn strings(lines: &[&str]) -> Vec<String> {
    lines.iter().map(|s| s.to_string()).collect()
}

fn drain(program: &mut Program) -> Vec<(usize, Instruction)> {
    let mut results = Vec::new();
    while let Some(step) = program.get_current_instruction() {
        results.push(step);
    }
    results
}

#[test]
fn program_test_try_from_str_array_ok() {
    let instructions = strings(&[
        "LINK 800",
        "",
        "MARK THIS_LABEL",
        "# Grabbing the 200 file",
        "GRAB 200",
        "COPY F X",
        "HALT",
    ]);

    let program = Program::new(&instructions);
    assert!(program.is_ok());
    let mut program = program.unwrap();

    assert_eq!(program.mark_index("THIS_LABEL"), Some(1));
    assert_eq!(program.cursor(), 0);
    let expected = vec![
        (0, Instruction::Link(Value::Number(800))),
        (4, Instruction::Grab(Value::Number(200))),
        (
            5,
            Instruction::Copy(
                Value::RegisterId(String::from("F")),
                Value::RegisterId(String::from("X")),
            ),
        ),
        (6, Instruction::Halt),
    ];
    assert_eq!(drain(&mut program), expected);
}

#[test]
fn program_test_try_from_str_array_err() {
    let instructions = strings(&[
        "LINK 800 LINK 800",
        "",
        "GRAB 200",
        "COPY F 200",
        "",
        "",
        "JUMP THIS_LABEL",
    ]);

    let expected_error = ParseError(vec![
        LineParseError::InvalidInstruction(0, InstructionParseError::InvalidLineLength),
        LineParseError::InvalidInstruction(3, InstructionParseError::InvalidValues),
        LineParseError::MissingMarkLabel(6, String::from("THIS_LABEL")),
    ]);

    let program = Program::new(&instructions);

    assert_eq!(program, Err(expected_error));
}

#[test]
fn mod_test_try_from_str_array_ok() {
    let instructions = strings(&[
        "LINK 800",
        "",
        "MARK THIS_LABEL",
        "# Grabbing the 200 file",
        "GRAB 200",
        "COPY F X",
        "HALT",
    ]);

    let program = Program::new(&instructions);
    assert!(program.is_ok());
    let program = program.unwrap();

    assert_eq!(program.mark_index("THIS_LABEL"), Some(1));
    assert_eq!(program.step_count(), 4);
    assert_eq!(
        program.peak_current_instruction(),
        Some((0, Instruction::Link(Value::Number(800))))
    );
}

#[test]
fn mod_test_try_from_str_array_err() {
    let instructions = strings(&[
        "LINK 800 LINK 800",
        "",
        "GRAB 200",
        "COPY F 200",
        "",
        "",
        "JUMP THIS_LABEL",
    ]);

    let expected_error = ParseError(vec![
        LineParseError::InvalidInstruction(0, InstructionParseError::InvalidLineLength),
        LineParseError::InvalidInstruction(3, InstructionParseError::InvalidValues),
        LineParseError::MissingMarkLabel(6, String::from("THIS_LABEL")),
    ]);

    let program = Program::new(&instructions);

    assert_eq!(program, Err(expected_error));
}

#[test]
fn test_get_current_instruction() {
    let mut program = Program::new(&strings(&[
        "LINK 800",
        "",
        "COPY 4 X",
        "",
        "# Loop a few times",
        "MARK THIS_LABEL",
        "SUBI X 1 X",
        "TEST X = 0",
        "FJMP THIS_LABEL",
        "",
        "HALT",
    ]))
    .unwrap();

    let expected = vec![
        (0, Instruction::Link(Value::Number(800))),
        (
            2,
            Instruction::Copy(Value::Number(4), Value::RegisterId(String::from("X"))),
        ),
        (
            6,
            Instruction::Subtract(
                Value::RegisterId(String::from("X")),
                Value::Number(1),
                Value::RegisterId(String::from("X")),
            ),
        ),
        (
            7,
            Instruction::TestEqual(Value::RegisterId(String::from("X")), Value::Number(0)),
        ),
        (
            8,
            Instruction::JumpIfFalse(Value::LabelId(String::from("THIS_LABEL"))),
        ),
        (10, Instruction::Halt),
    ];

    let results = drain(&mut program);

    assert!(program.get_current_instruction().is_none());
    assert_eq!(program.cursor(), 6);
    assert_eq!(results, expected);
}

#[test]
fn test_jump_to() {
    let mut program = Program::new(&strings(&[
        "LINK 800",
        "",
        "COPY 4 X",
        "COPY 4 X",
        "",
        "# Loop a few times",
        "MARK THIS_LABEL",
        "MARK ANOTHER_LABEL",
        "NOTE skip this ",
        "# skip this too",
        "",
        "SUBI X 1 X",
        "TEST X = 0",
        "FJMP THIS_LABEL",
        "",
        "HALT",
    ]))
    .unwrap();

    program.jump_to(&Value::LabelId(String::from("ANOTHER_LABEL")));

    assert_eq!(program.cursor(), 3);
}
