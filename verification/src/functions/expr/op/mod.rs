//! The operators of expressions.

pub mod binary;
pub mod unary;

pub use self::binary::Op as BinaryOp;
pub use self::unary::Op as UnaryOp;
