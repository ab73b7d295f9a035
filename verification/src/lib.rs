//! A line-oriented stack machine: a translator from mnemonic tokens to typed
//! instructions, and an executor that runs them against an operand stack and
//! a small variable store.
//!
//! Numbers are IEEE 754 binary64 values, held by their bit patterns. The
//! machine decides everything that can be read off a bit pattern: zero tests,
//! comparisons, negation, and whether a number is an index. Reading a decimal
//! numeral and the four rounding operations are the caller's: `translate`
//! and `execute` take them as functions.

pub mod instruction;
pub mod machine;
pub mod translator;
pub mod value;
