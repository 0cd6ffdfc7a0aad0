use vstd::prelude::*;

use crate::color::Color;

verus! {

/// One instruction of a bytebeat program.
///
/// A program is read left to right; every instruction but the metadata ones
/// (`Fg`, `Bg`, `Khz`, `Comment`) works on a stack of values. The float
/// literal of `NumF` is held as the bit pattern of an IEEE-754 double.
#[derive(Clone, Debug, PartialEq)]
pub enum Cmd {
    Var,
    NumF(u64),
    NumI(i64),
    Hex(i64),
    Add,
    Sub,
    Mul,
    Div,
    Mod,
    Shl,
    Shr,
    And,
    Orr,
    Xor,
    Sin,
    Cos,
    Tan,
    Pow,
    AddF,
    SubF,
    MulF,
    DivF,
    ModF,
    Lt,
    Gt,
    Leq,
    Geq,
    Eq,
    Neq,
    Cond,
    Arr(usize),
    Fg(Color),
    Bg(Color),
    Khz(u8),
    Comment(String),
}

/// Instructions that only carry metadata and leave the stack alone.
pub open spec fn is_meta(c: Cmd) -> bool {
    c is Fg || c is Bg || c is Khz || c is Comment
}

/// Integer operators on two operands.
pub open spec fn is_int_binary(c: Cmd) -> bool {
    c is Add || c is Sub || c is Mul || c is Div || c is Mod || c is Shl || c is Shr || c is And
        || c is Orr || c is Xor
}

/// Float operators on two operands.
pub open spec fn is_float_binary(c: Cmd) -> bool {
    c is Pow || c is AddF || c is SubF || c is MulF || c is DivF || c is ModF
}

/// Comparisons of two values.
pub open spec fn is_comparison(c: Cmd) -> bool {
    c is Lt || c is Gt || c is Leq || c is Geq || c is Eq || c is Neq
}

/// Operators that pop two values and push one.
pub open spec fn is_binary(c: Cmd) -> bool {
    is_int_binary(c) || is_float_binary(c) || is_comparison(c)
}

} // verus!
