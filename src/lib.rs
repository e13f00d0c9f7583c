//! A postfix (reverse-Polish) expression evaluator.
//!
//! Input is read one character at a time. Digits and a decimal point build a
//! numeric literal exactly, as a digit sequence and a count of fractional
//! digits; whitespace and operators commit that literal to an operand stack;
//! operators combine the two topmost operands into an expression tree.
//! Numeric evaluation of the trees is left to the caller.

pub mod executor;
pub mod expr;
pub mod laws;
pub mod literal;
