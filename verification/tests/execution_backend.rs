use trust_eval::execution_backend::{ExecutionBackend, ExecutionBackendSource};

#[test]
fn parse_accepts_case_insensitive_values() {
    assert_eq!(
        ExecutionBackend::parse("interpreter").expect("parse interpreter"),
        ExecutionBackend::Interpreter
    );
    assert_eq!(
        ExecutionBackend::parse("INTERPRETER").expect("parse uppercase interpreter"),
        ExecutionBackend::Interpreter
    );
    assert_eq!(
        ExecutionBackend::parse("vm").expect("parse vm"),
        ExecutionBackend::BytecodeVm
    );
    assert_eq!(
        ExecutionBackend::parse("VM").expect("parse uppercase vm"),
        ExecutionBackend::BytecodeVm
    );
}

#[test]
fn parse_accepts_trimmed_values() {
    assert_eq!(
        ExecutionBackend::parse(" vm ").expect("parse trimmed vm"),
        ExecutionBackend::BytecodeVm
    );
}

#[test]
fn parse_rejects_empty_and_invalid_values() {
    let empty = ExecutionBackend::parse("").expect_err("empty should fail");
    assert!(empty
        .to_string()
        .contains("invalid runtime.execution_backend ''"));

    let invalid = ExecutionBackend::parse("bytecode").expect_err("invalid should fail");
    assert!(invalid
        .to_string()
        .contains("invalid runtime.execution_backend 'bytecode'"));
}

#[test]
fn parse_trims_unicode_white_space_and_mixed_case() {
    assert_eq!(
        ExecutionBackend::parse("\u{3000}\tInTeRpReTeR\n").expect("parse"),
        ExecutionBackend::Interpreter
    );
    assert!(ExecutionBackend::parse("v m").is_err());
    assert!(ExecutionBackend::parse("vmm").is_err());
}

#[test]
fn as_str_round_trips_through_parse() {
    for b in [ExecutionBackend::Interpreter, ExecutionBackend::BytecodeVm] {
        assert_eq!(ExecutionBackend::parse(b.as_str()).expect("parse"), b);
    }
    assert_eq!(ExecutionBackend::Interpreter.as_str(), "interpreter");
    assert_eq!(ExecutionBackend::BytecodeVm.as_str(), "vm");
}

#[test]
fn source_labels() {
    assert_eq!(ExecutionBackendSource::Default.as_str(), "default");
    assert_eq!(ExecutionBackendSource::Config.as_str(), "config");
    assert_eq!(ExecutionBackendSource::Flag.as_str(), "flag");
    assert_eq!(ExecutionBackendSource::default(), ExecutionBackendSource::Default);
    assert_eq!(ExecutionBackend::default(), ExecutionBackend::Interpreter);
}
