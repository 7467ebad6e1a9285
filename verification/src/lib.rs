//! Translation of a stack-based intermediate language, written as tokens
//! with commas between them, into a list of instructions with at most two
//! operands each.

pub mod evaluator;
pub mod instruction;
pub mod laws;
pub mod numeral;
pub mod operator;
pub mod parser;
pub mod register;
pub mod text;
pub mod value;

pub use instruction::Instruction;
pub use operator::{Arity, Operator};
pub use parser::Parser;
pub use value::{Location, Value};
