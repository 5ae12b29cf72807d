use basilcore::atomic::ir::{AtomicGameProgram, AtomicInstruction, JsonNumber, JsonValue};
use basilcore::atomic::validation::validate_atomic_program;

#[test]
fn test_validation_unknown_jump_target() {
    let mut program = AtomicGameProgram::default();
    program.instructions.push(AtomicInstruction::Label { name: "start".to_string(), line: 1 });
    program.instructions.push(AtomicInstruction::Goto { target: "basement".to_string(), line: 2 });
    let result = validate_atomic_program(&program);
    assert!(result.is_err());
    let errors = result.err().unwrap();
    assert!(errors.iter().any(|e| e.message.contains("references unknown label 'basement'")));
}

#[test]
fn test_validation_duplicate_labels() {
    let mut program = AtomicGameProgram::default();
    program.instructions.push(AtomicInstruction::Label { name: "start".to_string(), line: 1 });
    program.instructions.push(AtomicInstruction::Label { name: "start".to_string(), line: 2 });
    program.instructions.push(AtomicInstruction::End { line: 3 });
    let result = validate_atomic_program(&program);
    assert!(result.is_err());
    let errors = result.err().unwrap();
    assert!(errors.iter().any(|e| e.message.contains("Duplicate label 'start'")));
}

#[test]
fn test_validation_invalid_add_value() {
    let mut program = AtomicGameProgram::default();
    program.instructions.push(AtomicInstruction::Label { name: "start".to_string(), line: 1 });
    program.instructions.push(AtomicInstruction::Add {
        variable: "score".to_string(),
        value: JsonValue::String("banana".to_string()),
        line: 2,
    });
    program.instructions.push(AtomicInstruction::End { line: 3 });
    let result = validate_atomic_program(&program);
    assert!(result.is_err());
    let errors = result.err().unwrap();
    assert!(errors.iter().any(|e| e.message.contains("ADD requires a numeric value")));
}

#[test]
fn test_validation_missing_entry_point() {
    let mut program = AtomicGameProgram::default();
    program.entry_point = "missing".to_string();
    program.instructions.push(AtomicInstruction::Label { name: "start".to_string(), line: 1 });
    program.instructions.push(AtomicInstruction::End { line: 2 });
    let result = validate_atomic_program(&program);
    assert!(result.is_err());
    let errors = result.err().unwrap();
    assert!(errors.iter().any(|e| e.message.contains("Entry point 'missing' does not exist")));
}

#[test]
fn test_validation_valid_program() {
    let mut program = AtomicGameProgram::default();
    let ins = &mut program.instructions;
    ins.push(AtomicInstruction::Label { name: "start".to_string(), line: 1 });
    ins.push(AtomicInstruction::Layout { value: "default".to_string(), line: 2 });
    ins.push(AtomicInstruction::Title { value: "The Cave".to_string(), line: 3 });
    ins.push(AtomicInstruction::Text { value: "You stand at a cave.".to_string(), line: 4 });
    ins.push(AtomicInstruction::SetVar {
        variable: "visits".to_string(),
        value: JsonValue::Number(JsonNumber::PosInt(0)),
        line: 5,
    });
    ins.push(AtomicInstruction::Add {
        variable: "visits".to_string(),
        value: JsonValue::Number(JsonNumber::PosInt(1)),
        line: 6,
    });
    ins.push(AtomicInstruction::Choice { text: "Enter".to_string(), target: "inside".to_string(), line: 7 });
    ins.push(AtomicInstruction::Choice { text: "Leave".to_string(), target: "end".to_string(), line: 8 });
    ins.push(AtomicInstruction::WaitChoice { line: 9 });
    ins.push(AtomicInstruction::Label { name: "inside".to_string(), line: 10 });
    ins.push(AtomicInstruction::IfEq {
        variable: "visits".to_string(),
        value: JsonValue::Number(JsonNumber::PosInt(1)),
        target: "start".to_string(),
        line: 11,
    });
    ins.push(AtomicInstruction::WaitKey { variable: None, line: 12 });
    ins.push(AtomicInstruction::Goto { target: "end".to_string(), line: 13 });
    ins.push(AtomicInstruction::Label { name: "end".to_string(), line: 14 });
    ins.push(AtomicInstruction::End { line: 15 });
    let result = validate_atomic_program(&program);
    assert!(result.is_ok(), "Validation failed: {:?}", result.err().map(|v| v.len()));
}
