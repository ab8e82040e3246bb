use vstd::prelude::*;
use crate::error::{concat2, concat3};
use crate::vm::VmTrap;

verus! {

/// Errors of the runtime.
#[derive(Debug)]
pub enum RuntimeError {
    /// The configuration asks for something the runtime cannot do.
    InvalidConfig(String),
    /// A fault of the bytecode VM.
    Vm(VmTrap),
    /// The bytecode module has no program of this name.
    MissingProgram(String),
    /// The bytecode module has no function block type of this name.
    MissingFunctionBlock(String),
    /// A reference that leads to no value or no instance.
    NullReference,
    /// A value of another type than the operation needs.
    TypeMismatch,
}

/// The model of a [`RuntimeError`].
pub enum RuntimeErrorModel {
    InvalidConfig(Seq<char>),
    Vm(VmTrap),
    MissingProgram(Seq<char>),
    MissingFunctionBlock(Seq<char>),
    NullReference,
    TypeMismatch,
}

impl View for RuntimeError {
    type V = RuntimeErrorModel;

    open spec fn view(&self) -> RuntimeErrorModel {
        match self {
            RuntimeError::InvalidConfig(s) => RuntimeErrorModel::InvalidConfig(s@),
            RuntimeError::Vm(t) => RuntimeErrorModel::Vm(*t),
            RuntimeError::MissingProgram(s) => RuntimeErrorModel::MissingProgram(s@),
            RuntimeError::MissingFunctionBlock(s) => RuntimeErrorModel::MissingFunctionBlock(s@),
            RuntimeError::NullReference => RuntimeErrorModel::NullReference,
            RuntimeError::TypeMismatch => RuntimeErrorModel::TypeMismatch,
        }
    }
}

/// The message of a runtime error.
pub open spec fn runtime_error_message(e: RuntimeErrorModel) -> Seq<char> {
    match e {
        RuntimeErrorModel::InvalidConfig(s) => "invalid config: "@ + s,
        RuntimeErrorModel::Vm(_) => "vm trap"@,
        RuntimeErrorModel::MissingProgram(s) => "vm program '"@ + s + "' not found"@,
        RuntimeErrorModel::MissingFunctionBlock(s) => "vm function block '"@ + s + "' not found"@,
        RuntimeErrorModel::NullReference => "null reference"@,
        RuntimeErrorModel::TypeMismatch => "type mismatch"@,
    }
}

impl RuntimeError {
    /// The message of this error, as its `Display` shows it.
    pub fn to_string(&self) -> (s: String)
        ensures
            s@ == runtime_error_message(self@),
    {
        match self {
            RuntimeError::InvalidConfig(m) => concat2("invalid config: ", m.as_str()),
            RuntimeError::Vm(_) => String::from_str("vm trap"),
            RuntimeError::MissingProgram(m) => concat3("vm program '", m.as_str(), "' not found"),
            RuntimeError::MissingFunctionBlock(m) => concat3(
                "vm function block '",
                m.as_str(),
                "' not found",
            ),
            RuntimeError::NullReference => String::from_str("null reference"),
            RuntimeError::TypeMismatch => String::from_str("type mismatch"),
        }
    }
}

} // verus!
