//! What the instructions compute, stated on small programs of literals:
//! each law gives the value that a program leaves, written with Rust's own
//! integer operations.
use vstd::prelude::*;

use crate::cmd::{is_binary, Cmd};
use crate::eval::{binary_value, result_of, run, step, FloatOp, Val};

verus! {

/// The program `a b op` for two integer literals.
pub open spec fn on_integers(a: i64, b: i64, op: Cmd) -> Seq<Cmd> {
    seq![Cmd::NumI(a), Cmd::NumI(b), op]
}

/// 1 for true, 0 for false.
pub open spec fn flag(b: bool) -> Val {
    if b {
        Val::I(1)
    } else {
        Val::I(0)
    }
}

/// A program of two pushes and a binary operator leaves the operator's value
/// on the two pushed values.
proof fn lemma_binary_program(x: Val, y: Val, px: Cmd, py: Cmd, op: Cmd, t: Val, o: spec_fn(FloatOp) -> u64)
    requires
        step(Seq::empty(), px, t, o) == Some(Seq::<Val>::empty().push(x)),
        step(Seq::<Val>::empty().push(x), py, t, o) == Some(Seq::<Val>::empty().push(x).push(y)),
        is_binary(op),
    ensures
        result_of(seq![px, py, op], t, o) == Some(binary_value(op, x, y, o)),
{
    let p = seq![px, py, op];
    let s1 = Seq::<Val>::empty().push(x);
    let s2 = s1.push(y);
    assert(p[0] == px && p[1] == py && p[2] == op);
    assert(run(p, 0, t, o) == Some(Seq::<Val>::empty()));
    assert(run(p, 1, t, o) == Some(s1));
    assert(run(p, 2, t, o) == Some(s2));
    assert(s2.take(0).push(binary_value(op, x, y, o)) =~= seq![binary_value(op, x, y, o)]);
    assert(s2[0] == x && s2[1] == y);
    assert(run(p, 3, t, o) == Some(seq![binary_value(op, x, y, o)]));
}

/// The integer operators compute Rust's wrapping arithmetic and bitwise
/// operations on the two values: `a b +` is `a.wrapping_add(b)`, `a b |` is
/// `a | b`, and so on. Dividing by zero gives 0, and `i64::MIN -1 /` gives
/// `i64::MIN` (with remainder 0).
pub proof fn lemma_integer_arithmetic(a: i64, b: i64, t: Val, o: spec_fn(FloatOp) -> u64)
    ensures
        result_of(on_integers(a, b, Cmd::Add), t, o) == Some(Val::I(a.wrapping_add(b))),
        result_of(on_integers(a, b, Cmd::Sub), t, o) == Some(Val::I(a.wrapping_sub(b))),
        result_of(on_integers(a, b, Cmd::Mul), t, o) == Some(Val::I(a.wrapping_mul(b))),
        result_of(on_integers(a, b, Cmd::And), t, o) == Some(Val::I(a & b)),
        result_of(on_integers(a, b, Cmd::Orr), t, o) == Some(Val::I(a | b)),
        result_of(on_integers(a, b, Cmd::Xor), t, o) == Some(Val::I(a ^ b)),
        b == 0 ==> result_of(on_integers(a, b, Cmd::Div), t, o) == Some(Val::I(0))
            && result_of(on_integers(a, b, Cmd::Mod), t, o) == Some(Val::I(0)),
        a == i64::MIN && b == -1 ==> result_of(on_integers(a, b, Cmd::Div), t, o) == Some(
            Val::I(i64::MIN),
        ) && result_of(on_integers(a, b, Cmd::Mod), t, o) == Some(Val::I(0)),
        0 <= b < 64 ==> result_of(on_integers(a, b, Cmd::Shl), t, o) == Some(Val::I(a << b)),
        0 <= b < 64 ==> result_of(on_integers(a, b, Cmd::Shr), t, o) == Some(Val::I(a >> b)),
{
    lemma_binary_program(Val::I(a), Val::I(b), Cmd::NumI(a), Cmd::NumI(b), Cmd::Add, t, o);
    lemma_binary_program(Val::I(a), Val::I(b), Cmd::NumI(a), Cmd::NumI(b), Cmd::Sub, t, o);
    lemma_binary_program(Val::I(a), Val::I(b), Cmd::NumI(a), Cmd::NumI(b), Cmd::Mul, t, o);
    lemma_binary_program(Val::I(a), Val::I(b), Cmd::NumI(a), Cmd::NumI(b), Cmd::And, t, o);
    lemma_binary_program(Val::I(a), Val::I(b), Cmd::NumI(a), Cmd::NumI(b), Cmd::Orr, t, o);
    lemma_binary_program(Val::I(a), Val::I(b), Cmd::NumI(a), Cmd::NumI(b), Cmd::Xor, t, o);
    lemma_binary_program(Val::I(a), Val::I(b), Cmd::NumI(a), Cmd::NumI(b), Cmd::Div, t, o);
    lemma_binary_program(Val::I(a), Val::I(b), Cmd::NumI(a), Cmd::NumI(b), Cmd::Mod, t, o);
    lemma_binary_program(Val::I(a), Val::I(b), Cmd::NumI(a), Cmd::NumI(b), Cmd::Shl, t, o);
    lemma_binary_program(Val::I(a), Val::I(b), Cmd::NumI(a), Cmd::NumI(b), Cmd::Shr, t, o);
    if a == i64::MIN && b == -1 {
        assert(a as int * -1 == 0x8000_0000_0000_0000int);
        assert(b as int * -1 == 1);
        assert(0x8000_0000_0000_0000int / 1int == 0x8000_0000_0000_0000int);
        assert(a.checked_div(b) is None);
        assert(a.checked_rem(b) is None);
    }
}

/// A shift distance counts modulo 64: shifting by `b` is shifting by
/// `b - 64`, for every `b` at least `i64::MIN + 64`.
pub proof fn lemma_shift_distance_periodic(a: i64, b: i64, t: Val, o: spec_fn(FloatOp) -> u64)
    requires
        b >= i64::MIN + 64,
    ensures
        result_of(on_integers(a, b, Cmd::Shl), t, o) == result_of(on_integers(a, (b - 64) as i64, Cmd::Shl), t, o),
        result_of(on_integers(a, b, Cmd::Shr), t, o) == result_of(on_integers(a, (b - 64) as i64, Cmd::Shr), t, o),
{
    let c = (b - 64) as i64;
    lemma_binary_program(Val::I(a), Val::I(b), Cmd::NumI(a), Cmd::NumI(b), Cmd::Shl, t, o);
    lemma_binary_program(Val::I(a), Val::I(b), Cmd::NumI(a), Cmd::NumI(b), Cmd::Shr, t, o);
    lemma_binary_program(Val::I(a), Val::I(c), Cmd::NumI(a), Cmd::NumI(c), Cmd::Shl, t, o);
    lemma_binary_program(Val::I(a), Val::I(c), Cmd::NumI(a), Cmd::NumI(c), Cmd::Shr, t, o);
    assert(c % 64 == b % 64);
}

/// On two integers the comparisons follow integer order and equality:
/// `a b <=` is 1 exactly when `a <= b`, and so on; each gives 1 or 0.
pub proof fn lemma_integer_comparisons(a: i64, b: i64, t: Val, o: spec_fn(FloatOp) -> u64)
    ensures
        result_of(on_integers(a, b, Cmd::Lt), t, o) == Some(flag(a < b)),
        result_of(on_integers(a, b, Cmd::Gt), t, o) == Some(flag(a > b)),
        result_of(on_integers(a, b, Cmd::Leq), t, o) == Some(flag(a <= b)),
        result_of(on_integers(a, b, Cmd::Geq), t, o) == Some(flag(a >= b)),
        result_of(on_integers(a, b, Cmd::Eq), t, o) == Some(flag(a == b)),
        result_of(on_integers(a, b, Cmd::Neq), t, o) == Some(flag(a != b)),
{
    lemma_binary_program(Val::I(a), Val::I(b), Cmd::NumI(a), Cmd::NumI(b), Cmd::Lt, t, o);
    lemma_binary_program(Val::I(a), Val::I(b), Cmd::NumI(a), Cmd::NumI(b), Cmd::Gt, t, o);
    lemma_binary_program(Val::I(a), Val::I(b), Cmd::NumI(a), Cmd::NumI(b), Cmd::Leq, t, o);
    lemma_binary_program(Val::I(a), Val::I(b), Cmd::NumI(a), Cmd::NumI(b), Cmd::Geq, t, o);
    lemma_binary_program(Val::I(a), Val::I(b), Cmd::NumI(a), Cmd::NumI(b), Cmd::Eq, t, o);
    lemma_binary_program(Val::I(a), Val::I(b), Cmd::NumI(a), Cmd::NumI(b), Cmd::Neq, t, o);
}

/// `a b c ?` leaves `a` when the condition `c` is not zero (negative values
/// included) and `b` when it is zero; a double condition picks `b` only when
/// it is +0.0 or -0.0 (any other double, NaN included, picks `a`).
pub proof fn lemma_condition(a: i64, b: i64, c: i64, x: u64, t: Val, o: spec_fn(FloatOp) -> u64)
    ensures
        result_of(seq![Cmd::NumI(a), Cmd::NumI(b), Cmd::NumI(c), Cmd::Cond], t, o) == Some(
            Val::I(
                if c != 0 {
                    a
                } else {
                    b
                },
            ),
        ),
        result_of(seq![Cmd::NumI(a), Cmd::NumI(b), Cmd::NumF(x), Cmd::Cond], t, o) == Some(
            Val::I(
                if x == 0 || x == 0x8000_0000_0000_0000u64 {
                    b
                } else {
                    a
                },
            ),
        ),
{
    reveal_with_fuel(crate::eval::run, 5);
}

/// `t` leaves the time, and the literals leave their values: an integer or
/// `0x` literal its integer, a float literal its double.
pub proof fn lemma_literals(n: i64, x: u64, t: Val, o: spec_fn(FloatOp) -> u64)
    ensures
        result_of(seq![Cmd::Var], t, o) == Some(t),
        result_of(seq![Cmd::NumI(n)], t, o) == Some(Val::I(n)),
        result_of(seq![Cmd::Hex(n)], t, o) == Some(Val::I(n)),
        result_of(seq![Cmd::NumF(x)], t, o) == Some(Val::F(x)),
{
    reveal_with_fuel(crate::eval::run, 2);
}

/// The float operators hand their operands to the float unit as doubles
/// (an integer widened first) and leave its answer; `/.` and `%.` by a zero
/// leave +0.0 without asking.
pub proof fn lemma_float_operators(x: u64, y: u64, n: i64, t: Val, o: spec_fn(FloatOp) -> u64)
    ensures
        result_of(seq![Cmd::NumF(x), Cmd::Sin], t, o) == Some(Val::F(o(FloatOp::Sin(x)))),
        result_of(seq![Cmd::NumF(x), Cmd::Cos], t, o) == Some(Val::F(o(FloatOp::Cos(x)))),
        result_of(seq![Cmd::NumF(x), Cmd::Tan], t, o) == Some(Val::F(o(FloatOp::Tan(x)))),
        result_of(seq![Cmd::NumI(n), Cmd::Sin], t, o) == Some(
            Val::F(o(FloatOp::Sin(o(FloatOp::Widen(n))))),
        ),
        result_of(seq![Cmd::NumF(x), Cmd::NumF(y), Cmd::Pow], t, o) == Some(
            Val::F(o(FloatOp::Pow(x, y))),
        ),
        result_of(seq![Cmd::NumF(x), Cmd::NumF(y), Cmd::AddF], t, o) == Some(
            Val::F(o(FloatOp::Add(x, y))),
        ),
        result_of(seq![Cmd::NumF(x), Cmd::NumF(y), Cmd::SubF], t, o) == Some(
            Val::F(o(FloatOp::Sub(x, y))),
        ),
        result_of(seq![Cmd::NumF(x), Cmd::NumF(y), Cmd::MulF], t, o) == Some(
            Val::F(o(FloatOp::Mul(x, y))),
        ),
        y != 0 && y != 0x8000_0000_0000_0000u64 ==> result_of(
            seq![Cmd::NumF(x), Cmd::NumF(y), Cmd::DivF],
            t,
            o,
        ) == Some(Val::F(o(FloatOp::Div(x, y)))),
        y != 0 && y != 0x8000_0000_0000_0000u64 ==> result_of(
            seq![Cmd::NumF(x), Cmd::NumF(y), Cmd::ModF],
            t,
            o,
        ) == Some(Val::F(o(FloatOp::Rem(x, y)))),
        y == 0 || y == 0x8000_0000_0000_0000u64 ==> result_of(
            seq![Cmd::NumF(x), Cmd::NumF(y), Cmd::DivF],
            t,
            o,
        ) == Some(Val::F(0)) && result_of(seq![Cmd::NumF(x), Cmd::NumF(y), Cmd::ModF], t, o)
            == Some(Val::F(0)),
{
    reveal_with_fuel(crate::eval::run, 4);
}

/// Integer operators read a double operand truncated by the float unit;
/// comparisons of a double with anything ask the float unit, with an integer
/// widened first.
pub proof fn lemma_mixed_operands(x: u64, b: i64, t: Val, o: spec_fn(FloatOp) -> u64)
    ensures
        result_of(seq![Cmd::NumF(x), Cmd::NumI(b), Cmd::Add], t, o) == Some(
            Val::I((o(FloatOp::Truncate(x)) as i64).wrapping_add(b)),
        ),
        result_of(seq![Cmd::NumI(b), Cmd::NumF(x), Cmd::Lt], t, o) == Some(
            flag(o(FloatOp::Less(o(FloatOp::Widen(b)), x)) != 0),
        ),
        result_of(seq![Cmd::NumF(x), Cmd::NumI(b), Cmd::Geq], t, o) == Some(
            flag(o(FloatOp::GreaterEq(x, o(FloatOp::Widen(b)))) != 0),
        ),
{
    reveal_with_fuel(crate::eval::run, 4);
}

/// `[2` pops an index `k` and two values, and leaves the first of them when
/// `k` is even and the second when it is odd (negative `k` included); `[0`
/// pops the index and leaves 0.
pub proof fn lemma_arrays(a: i64, b: i64, k: i64, t: Val, o: spec_fn(FloatOp) -> u64)
    ensures
        result_of(seq![Cmd::NumI(a), Cmd::NumI(b), Cmd::NumI(k), Cmd::Arr(2)], t, o) == Some(
            Val::I(
                if k % 2 == 0 {
                    a
                } else {
                    b
                },
            ),
        ),
        result_of(seq![Cmd::NumI(a), Cmd::NumI(k), Cmd::Arr(0)], t, o) == Some(Val::I(0)),
        result_of(seq![Cmd::NumI(a), Cmd::NumI(k), Cmd::Arr(0), Cmd::Add], t, o) == Some(
            Val::I(a),
        ),
        result_of(seq![Cmd::NumI(a), Cmd::NumI(k), Cmd::Arr(2)], t, o) is None,
{
    reveal_with_fuel(crate::eval::run, 5);
    let s2 = seq![Val::I(a), Val::I(b), Val::I(k)];
    assert(s2.drop_last().take(0).push(s2.drop_last()[k as int % 2]) =~= seq![
        if k % 2 == 0 {
            Val::I(a)
        } else {
            Val::I(b)
        },
    ]);
}

} // verus!
