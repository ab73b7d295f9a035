//! The instruction set.

use crate::value::Value;
use vstd::prelude::*;

verus! {

/// One instruction of a program. Branch targets are indices into the program
/// that holds the instruction.
#[derive(Clone, Copy, Debug, PartialEq, Eq)]
pub enum Instruction {
    /// Push a constant.
    LoadConst(Value),
    /// Push the variable with this index.
    LoadVar(usize),
    /// Pop the top value into the variable with this index.
    StoreVar(usize),
    /// Continue at this index.
    Branch(usize),
    /// Pop a condition and continue at this index if it is not zero.
    BranchIfTrue(usize),
    /// Pop a condition and continue at this index if it is zero.
    BranchIfFalse(usize),
    /// Replace the two topmost values by their sum.
    Add,
    /// Replace the two topmost values by the lower one less the top.
    Sub,
    /// Replace the two topmost values by their product.
    Mul,
    /// Replace the two topmost values by the lower one divided by the top,
    /// unless the top is zero.
    Div,
    /// Flip the sign of the top.
    Negate,
    /// Replace the two topmost values by one if they are equal, else by zero.
    CmpEq,
    /// Replace the two topmost values by one if the top is the greater, else
    /// by zero.
    CmpGt,
    /// Replace the two topmost values by one if the top is the smaller, else
    /// by zero.
    CmpLt,
    /// Push the top once more.
    Dup,
    /// Drop the top.
    Pop,
}

/// The four operations whose results are rounded, and so are computed by the
/// caller's floating-point unit.
#[derive(Clone, Copy, Debug, PartialEq, Eq)]
pub enum Operation {
    /// The nearest number to the sum.
    Add,
    /// The nearest number to the first operand less the second.
    Sub,
    /// The nearest number to the product.
    Mul,
    /// The nearest number to the first operand divided by the second.
    Div,
}

} // verus!
