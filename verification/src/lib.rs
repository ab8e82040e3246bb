//! Evaluation of Structured Text expressions with variable substitution, the
//! runtime's choice of execution backend, the control core of its bytecode VM,
//! line/column positions in source texts, and the integer bookkeeping of the
//! execution-backend benchmark.

pub mod bench;
pub mod error;
pub mod evaluator;
pub mod execution_backend;
pub mod parser;
pub mod position;
pub mod runtime;
pub mod runtime_error;
pub mod syntax;
pub mod text;
pub mod value;
pub mod vm;
