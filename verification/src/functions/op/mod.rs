//! The unary operators under the names by which an operand stack applies
//! them.

pub mod operand;
pub mod operator;
