use vstd::prelude::*;

use crate::compile::{lemma_first_underflow_none_prefix, check, compiles, depth, first_underflow, underflows_at, Program};
use crate::cmd::{is_meta, is_binary, is_comparison, is_float_binary, is_int_binary, Cmd};

verus! {

/// A value on the evaluation stack: a double, held as its IEEE-754 bit
/// pattern, or a 64-bit integer.
#[derive(Clone, Copy, Debug)]
pub enum Val {
    F(u64),
    I(i64),
}

impl From<bool> for Val {
    fn from(b: bool) -> (v: Val) {
        if b {
            Val::I(1)
        } else {
            Val::I(0)
        }
    }
}

impl vstd::std_specs::convert::FromSpecImpl<bool> for Val {
    open spec fn obeys_from_spec() -> bool {
        true
    }

    open spec fn from_spec(v: bool) -> Val {
        if v {
            Val::I(1)
        } else {
            Val::I(0)
        }
    }
}

impl From<i64> for Val {
    fn from(i: i64) -> (v: Val) {
        Val::I(i)
    }
}

impl vstd::std_specs::convert::FromSpecImpl<i64> for Val {
    open spec fn obeys_from_spec() -> bool {
        true
    }

    open spec fn from_spec(v: i64) -> Val {
        Val::I(v)
    }
}

/// A piece of floating-point work. Every request is answered with a 64-bit
/// word: the bit pattern of a double, the bits of an `i64`, or 1 / 0 for a
/// comparison.
#[derive(Clone, Copy, Debug, PartialEq, Eq, Structural)]
pub enum FloatOp {
    /// The double converted to `i64` (Rust's `as`, saturating, NaN to 0).
    Truncate(u64),
    /// The integer converted to the nearest double (Rust's `as`).
    Widen(i64),
    Sin(u64),
    Cos(u64),
    Tan(u64),
    /// `a.powf(b)`.
    Pow(u64, u64),
    Add(u64, u64),
    Sub(u64, u64),
    Mul(u64, u64),
    Div(u64, u64),
    /// Remainder with the sign of the dividend (Rust's `%`).
    Rem(u64, u64),
    Less(u64, u64),
    Greater(u64, u64),
    LessEq(u64, u64),
    GreaterEq(u64, u64),
    Equal(u64, u64),
}

/// The float unit `f` answers every request as the function `o` does.
pub open spec fn answers<F: Fn(FloatOp) -> u64>(f: F, o: spec_fn(FloatOp) -> u64) -> bool {
    forall|op: FloatOp, r: u64| #[trigger] f.ensures((op,), r) ==> r == o(op)
}

/// The float unit `f` accepts every request.
pub open spec fn total<F: Fn(FloatOp) -> u64>(f: F) -> bool {
    forall|op: FloatOp| #[trigger] f.requires((op,))
}

/// The bit pattern of +0.0 or -0.0.
pub open spec fn is_zero_bits(b: u64) -> bool {
    b == 0 || b == 0x8000_0000_0000_0000u64
}

/// A value read as an integer.
pub open spec fn int_of(v: Val, o: spec_fn(FloatOp) -> u64) -> i64 {
    match v {
        Val::I(x) => x,
        Val::F(b) => o(FloatOp::Truncate(b)) as i64,
    }
}

/// A value read as a double (its bit pattern).
pub open spec fn bits_of(v: Val, o: spec_fn(FloatOp) -> u64) -> u64 {
    match v {
        Val::F(b) => b,
        Val::I(x) => o(FloatOp::Widen(x)),
    }
}

/// A value read as a truth value: anything but an integer or a double zero.
pub open spec fn truthy(v: Val) -> bool {
    match v {
        Val::I(x) => x != 0,
        Val::F(b) => !is_zero_bits(b),
    }
}

/// The shift distance that `b` stands for: `b` modulo 64, in `0..64`.
pub open spec fn shift_of(b: i64) -> i64 {
    (b % 64) as i64
}

/// The result of an integer operator (wrapping arithmetic; dividing by zero
/// gives zero).
pub open spec fn int_result(c: Cmd, a: i64, b: i64) -> i64 {
    match c {
        Cmd::Add => a.wrapping_add(b),
        Cmd::Sub => a.wrapping_sub(b),
        Cmd::Mul => a.wrapping_mul(b),
        Cmd::Div => if b == 0 {
            0
        } else {
            match a.checked_div(b) {
                Some(q) => q,
                None => a,
            }
        },
        Cmd::Mod => if b == 0 {
            0
        } else {
            match a.checked_rem(b) {
                Some(m) => m,
                None => 0,
            }
        },
        Cmd::Shl => a << shift_of(b),
        Cmd::Shr => a >> shift_of(b),
        Cmd::And => a & b,
        Cmd::Orr => a | b,
        _ => a ^ b,
    }
}

/// The float request behind a float operator on one operand.
pub open spec fn unary_request(c: Cmd, a: u64) -> FloatOp {
    match c {
        Cmd::Sin => FloatOp::Sin(a),
        Cmd::Cos => FloatOp::Cos(a),
        _ => FloatOp::Tan(a),
    }
}

/// The float request behind a float operator on two operands.
pub open spec fn binary_request(c: Cmd, a: u64, b: u64) -> FloatOp {
    match c {
        Cmd::Pow => FloatOp::Pow(a, b),
        Cmd::AddF => FloatOp::Add(a, b),
        Cmd::SubF => FloatOp::Sub(a, b),
        Cmd::MulF => FloatOp::Mul(a, b),
        Cmd::DivF => FloatOp::Div(a, b),
        _ => FloatOp::Rem(a, b),
    }
}

/// The result of a float operator on two operands; dividing by a zero gives
/// +0.0.
pub open spec fn float_result(c: Cmd, a: u64, b: u64, o: spec_fn(FloatOp) -> u64) -> u64 {
    if (c is DivF || c is ModF) && is_zero_bits(b) {
        0
    } else {
        o(binary_request(c, a, b))
    }
}

/// Ordering comparisons (`<`, `>`, `<=`, `>=`) of two values: integers
/// directly, anything else as doubles.
pub open spec fn ordered(c: Cmd, a: Val, b: Val, o: spec_fn(FloatOp) -> u64) -> bool {
    match (a, b) {
        (Val::I(l), Val::I(r)) => match c {
            Cmd::Lt => l < r,
            Cmd::Gt => l > r,
            Cmd::Leq => l <= r,
            _ => l >= r,
        },
        _ => {
            let x = bits_of(a, o);
            let y = bits_of(b, o);
            o(
                match c {
                    Cmd::Lt => FloatOp::Less(x, y),
                    Cmd::Gt => FloatOp::Greater(x, y),
                    Cmd::Leq => FloatOp::LessEq(x, y),
                    _ => FloatOp::GreaterEq(x, y),
                },
            ) != 0
        },
    }
}

/// Equality of two values: an integer equals a double when the double equals
/// the integer widened and the integer equals the double truncated.
pub open spec fn equal(a: Val, b: Val, o: spec_fn(FloatOp) -> u64) -> bool {
    match (a, b) {
        (Val::I(l), Val::I(r)) => l == r,
        (Val::F(l), Val::F(r)) => o(FloatOp::Equal(l, r)) != 0,
        (Val::I(l), Val::F(r)) => o(FloatOp::Equal(o(FloatOp::Widen(l)), r)) != 0 && l == o(
            FloatOp::Truncate(r),
        ) as i64,
        (Val::F(l), Val::I(r)) => o(FloatOp::Equal(l, o(FloatOp::Widen(r)))) != 0 && o(
            FloatOp::Truncate(l),
        ) as i64 == r,
    }
}

/// The truth value of a comparison operator.
pub open spec fn compared(c: Cmd, a: Val, b: Val, o: spec_fn(FloatOp) -> u64) -> bool {
    match c {
        Cmd::Eq => equal(a, b, o),
        Cmd::Neq => !equal(a, b, o),
        _ => ordered(c, a, b, o),
    }
}

/// The value that a binary operator computes from `a` (below) and `b` (top).
pub open spec fn binary_value(c: Cmd, a: Val, b: Val, o: spec_fn(FloatOp) -> u64) -> Val {
    if is_int_binary(c) {
        Val::I(int_result(c, int_of(a, o), int_of(b, o)))
    } else if is_float_binary(c) {
        Val::F(float_result(c, bits_of(a, o), bits_of(b, o), o))
    } else {
        if compared(c, a, b, o) {
            Val::I(1)
        } else {
            Val::I(0)
        }
    }
}

/// One instruction applied to the stack `s` (its top is the last element);
/// `None` when it pops from a stack that is too small.
pub open spec fn step(s: Seq<Val>, c: Cmd, t: Val, o: spec_fn(FloatOp) -> u64) -> Option<
    Seq<Val>,
> {
    let n = s.len() as int;
    match c {
        Cmd::Var => Some(s.push(t)),
        Cmd::NumF(b) => Some(s.push(Val::F(b))),
        Cmd::NumI(x) => Some(s.push(Val::I(x))),
        Cmd::Hex(x) => Some(s.push(Val::I(x))),
        Cmd::Fg(_) | Cmd::Bg(_) | Cmd::Khz(_) | Cmd::Comment(_) => Some(s),
        Cmd::Sin | Cmd::Cos | Cmd::Tan => if n < 1 {
            None
        } else {
            Some(s.drop_last().push(Val::F(o(unary_request(c, bits_of(s[n - 1], o))))))
        },
        Cmd::Cond => if n < 3 {
            None
        } else {
            Some(
                s.take(n - 3).push(
                    if truthy(s[n - 1]) {
                        s[n - 3]
                    } else {
                        s[n - 2]
                    },
                ),
            )
        },
        // `Arr(x)` pops the index, then `x` values, and pushes the value
        // at the index modulo `x` (or 0 when `x` is 0).
        Cmd::Arr(size) => if n < 1 {
            None
        } else {
            let rest = s.drop_last();
            if size > rest.len() {
                None
            } else if size == 0 {
                Some(rest.push(Val::I(0)))
            } else {
                let base = rest.len() - size;
                let k = int_of(s[n - 1], o) as int % (size as int);
                Some(rest.take(base).push(rest[base + k]))
            }
        },
        _ => if n < 2 {
            None
        } else {
            Some(s.take(n - 2).push(binary_value(c, s[n - 2], s[n - 1], o)))
        },
    }
}

/// The stack after the first `n` instructions, starting from an empty stack.
pub open spec fn run(cmds: Seq<Cmd>, n: int, t: Val, o: spec_fn(FloatOp) -> u64) -> Option<
    Seq<Val>,
>
    decreases n,
{
    if n <= 0 {
        Some(Seq::empty())
    } else {
        match run(cmds, n - 1, t, o) {
            Some(s) => step(s, cmds[n - 1], t, o),
            None => None,
        }
    }
}

/// The value a program leaves on top of the stack; `None` when it pops from
/// a stack that is too small or leaves the stack empty.
pub open spec fn result_of(cmds: Seq<Cmd>, t: Val, o: spec_fn(FloatOp) -> u64) -> Option<
    Val,
> {
    match run(cmds, cmds.len() as int, t, o) {
        Some(s) => if s.len() > 0 {
            Some(s.last())
        } else {
            None
        },
        None => None,
    }
}

/// How many values an instruction pushes after popping what it needs.
pub open spec fn produces(c: Cmd) -> int {
    if is_meta(c) {
        0
    } else {
        1
    }
}

/// How many values an instruction needs on the stack.
pub open spec fn needs(c: Cmd) -> int {
    match c {
        Cmd::Sin | Cmd::Cos | Cmd::Tan => 1,
        Cmd::Cond => 3,
        Cmd::Arr(size) => size + 1,
        _ => if is_binary(c) {
            2
        } else {
            0
        },
    }
}

} // verus!

verus! {

proof fn lemma_answer<F: Fn(FloatOp) -> u64>(f: F, op: FloatOp, w: u64)
    requires
        f.ensures((op,), w),
    ensures
        forall|o: spec_fn(FloatOp) -> u64| answers(f, o) ==> w == o(op),
{
}

/// Asks the float unit for one piece of work.
fn ask<F: Fn(FloatOp) -> u64>(float: &F, op: FloatOp) -> (w: u64)
    requires
        total(*float),
    ensures
        forall|o: spec_fn(FloatOp) -> u64| answers(*float, o) ==> w == o(op),
{
    let w = float(op);
    proof {
        lemma_answer(*float, op, w);
    }
    w
}

/// A value read as an integer.
pub fn as_int<F: Fn(FloatOp) -> u64>(v: Val, float: &F) -> (r: i64)
    requires
        total(*float),
    ensures
        forall|o: spec_fn(FloatOp) -> u64| answers(*float, o) ==> r == int_of(v, o),
{
    match v {
        Val::I(x) => x,
        Val::F(b) => ask(float, FloatOp::Truncate(b)) as i64,
    }
}

/// A value read as a double (its bit pattern).
pub fn as_bits<F: Fn(FloatOp) -> u64>(v: Val, float: &F) -> (r: u64)
    requires
        total(*float),
    ensures
        forall|o: spec_fn(FloatOp) -> u64| answers(*float, o) ==> r == bits_of(v, o),
{
    match v {
        Val::F(b) => b,
        Val::I(x) => ask(float, FloatOp::Widen(x)),
    }
}

impl Val {
    /// The value read as a truth value: false for integer zero and for both
    /// double zeros, true for everything else (NaN included).
    pub fn truthy(self) -> (r: bool)
        ensures
            r == truthy(self),
    {
        match self {
            Val::I(x) => x != 0,
            Val::F(b) => !(b == 0 || b == 0x8000_0000_0000_0000u64),
        }
    }

    /// The value read as an integer.
    pub fn to_int<F: Fn(FloatOp) -> u64>(self, float: &F) -> (r: i64)
        requires
            total(*float),
        ensures
            forall|o: spec_fn(FloatOp) -> u64| answers(*float, o) ==> r == int_of(self, o),
    {
        as_int(self, float)
    }

    /// The value as an audio sample: its integer reading, truncated to a byte.
    pub fn to_sample<F: Fn(FloatOp) -> u64>(self, float: &F) -> (r: u8)
        requires
            total(*float),
        ensures
            forall|o: spec_fn(FloatOp) -> u64| answers(*float, o) ==> r == int_of(self, o) as u8,
    {
        let x = as_int(self, float);
        x as u8
    }
}

fn shift_distance(b: i64) -> (r: i64)
    ensures
        r == shift_of(b),
        0 <= r < 64,
{
    match b.checked_rem_euclid(64) {
        Some(m) => m,
        None => 0,
    }
}

fn int_op(c: &Cmd, a: i64, b: i64) -> (r: i64)
    requires
        is_int_binary(*c),
    ensures
        r == int_result(*c, a, b),
{
    match c {
        Cmd::Add => a.wrapping_add(b),
        Cmd::Sub => a.wrapping_sub(b),
        Cmd::Mul => a.wrapping_mul(b),
        Cmd::Div => if b == 0 {
            0
        } else {
            match a.checked_div(b) {
                Some(q) => q,
                None => a,
            }
        },
        Cmd::Mod => if b == 0 {
            0
        } else {
            match a.checked_rem(b) {
                Some(m) => m,
                None => 0,
            }
        },
        Cmd::Shl => a << shift_distance(b),
        Cmd::Shr => a >> shift_distance(b),
        Cmd::And => a & b,
        Cmd::Orr => a | b,
        _ => a ^ b,
    }
}

fn ordered_exec<F: Fn(FloatOp) -> u64>(c: &Cmd, a: Val, b: Val, float: &F) -> (r: bool)
    requires
        total(*float),
    ensures
        forall|o: spec_fn(FloatOp) -> u64| answers(*float, o) ==> r == ordered(*c, a, b, o),
{
    match (a, b) {
        (Val::I(l), Val::I(r)) => match c {
            Cmd::Lt => l < r,
            Cmd::Gt => l > r,
            Cmd::Leq => l <= r,
            _ => l >= r,
        },
        _ => {
            let x = as_bits(a, float);
            let y = as_bits(b, float);
            let op = match c {
                Cmd::Lt => FloatOp::Less(x, y),
                Cmd::Gt => FloatOp::Greater(x, y),
                Cmd::Leq => FloatOp::LessEq(x, y),
                _ => FloatOp::GreaterEq(x, y),
            };
            ask(float, op) != 0
        },
    }
}

fn equal_exec<F: Fn(FloatOp) -> u64>(a: Val, b: Val, float: &F) -> (r: bool)
    requires
        total(*float),
    ensures
        forall|o: spec_fn(FloatOp) -> u64| answers(*float, o) ==> r == equal(a, b, o),
{
    match (a, b) {
        (Val::I(l), Val::I(r)) => l == r,
        (Val::F(l), Val::F(r)) => ask(float, FloatOp::Equal(l, r)) != 0,
        (Val::I(l), Val::F(r)) => {
            let w = ask(float, FloatOp::Widen(l));
            if ask(float, FloatOp::Equal(w, r)) != 0 {
                l == ask(float, FloatOp::Truncate(r)) as i64
            } else {
                false
            }
        },
        (Val::F(l), Val::I(r)) => {
            let w = ask(float, FloatOp::Widen(r));
            if ask(float, FloatOp::Equal(l, w)) != 0 {
                ask(float, FloatOp::Truncate(l)) as i64 == r
            } else {
                false
            }
        },
    }
}

fn binary_exec<F: Fn(FloatOp) -> u64>(c: &Cmd, a: Val, b: Val, float: &F) -> (r: Val)
    requires
        total(*float),
        is_binary(*c),
    ensures
        forall|o: spec_fn(FloatOp) -> u64| answers(*float, o) ==> r == binary_value(*c, a, b, o),
{
    match c {
        Cmd::Add | Cmd::Sub | Cmd::Mul | Cmd::Div | Cmd::Mod | Cmd::Shl | Cmd::Shr | Cmd::And
        | Cmd::Orr | Cmd::Xor => {
            let y = as_int(b, float);
            let x = as_int(a, float);
            Val::I(int_op(c, x, y))
        },
        Cmd::Pow | Cmd::AddF | Cmd::SubF | Cmd::MulF | Cmd::DivF | Cmd::ModF => {
            let y = as_bits(b, float);
            let x = as_bits(a, float);
            let by_zero = (y == 0 || y == 0x8000_0000_0000_0000u64);
            let w = match c {
                Cmd::Pow => ask(float, FloatOp::Pow(x, y)),
                Cmd::AddF => ask(float, FloatOp::Add(x, y)),
                Cmd::SubF => ask(float, FloatOp::Sub(x, y)),
                Cmd::MulF => ask(float, FloatOp::Mul(x, y)),
                Cmd::DivF => if by_zero {
                    0
                } else {
                    ask(float, FloatOp::Div(x, y))
                },
                _ => if by_zero {
                    0
                } else {
                    ask(float, FloatOp::Rem(x, y))
                },
            };
            Val::F(w)
        },
        Cmd::Eq => Val::from(equal_exec(a, b, float)),
        Cmd::Neq => Val::from(!equal_exec(a, b, float)),
        _ => Val::from(ordered_exec(c, a, b, float)),
    }
}

/// Applies one instruction to the stack. Returns false, with the stack in
/// an unspecified state, when the stack holds fewer values than the
/// instruction needs.
pub fn apply<F: Fn(FloatOp) -> u64>(
    stack: &mut Vec<Val>,
    c: &Cmd,
    t: Val,
    float: &F,
) -> (ok: bool)
    requires
        total(*float),
    ensures
        ok == (old(stack)@.len() >= needs(*c)),
        ok ==> final(stack)@.len() == old(stack)@.len() - needs(*c) + produces(*c),
        ok ==> forall|o: spec_fn(FloatOp) -> u64|
            answers(*float, o) ==> step(old(stack)@, *c, t, o) == Some(final(stack)@),
        !ok ==> forall|o: spec_fn(FloatOp) -> u64| step(old(stack)@, *c, t, o) is None,
{
    let ghost s = stack@;
    let n = stack.len();
    match c {
        Cmd::Var => {
            stack.push(t);
            true
        },
        Cmd::NumF(b) => {
            stack.push(Val::F(*b));
            true
        },
        Cmd::NumI(x) => {
            stack.push(Val::I(*x));
            true
        },
        Cmd::Hex(x) => {
            stack.push(Val::I(*x));
            true
        },
        Cmd::Fg(_) | Cmd::Bg(_) | Cmd::Khz(_) | Cmd::Comment(_) => true,
        Cmd::Sin | Cmd::Cos | Cmd::Tan => {
            if n < 1 {
                return false;
            }
            let a = stack.pop().unwrap();
            let x = as_bits(a, float);
            let op = match c {
                Cmd::Sin => FloatOp::Sin(x),
                Cmd::Cos => FloatOp::Cos(x),
                _ => FloatOp::Tan(x),
            };
            let w = ask(float, op);
            stack.push(Val::F(w));
            proof {
                assert(s.drop_last() == s.take(n - 1));
            }
            true
        },
        Cmd::Cond => {
            if n < 3 {
                return false;
            }
            let cond = stack.pop().unwrap();
            let b = stack.pop().unwrap();
            let a = stack.pop().unwrap();
            if cond.truthy() {
                stack.push(a);
            } else {
                stack.push(b);
            }
            proof {
                assert(s.drop_last().drop_last().drop_last() == s.take(n - 3));
            }
            true
        },
        Cmd::Arr(size) => {
            let size = *size;
            if n < 1 {
                return false;
            }
            let idx = stack.pop().unwrap();
            let index = as_int(idx, float);
            if size > stack.len() {
                return false;
            }
            if size == 0 {
                stack.push(Val::I(0));
                return true;
            }
            let split_index = stack.len() - size;
            let vec = stack.split_off(split_index);
            let k = match (index as i128).checked_rem_euclid(size as i128) {
                Some(m) => m,
                None => 0,
            };
            let k = k as usize;
            stack.push(vec[k]);
            true
        },
        _ => {
            if n < 2 {
                return false;
            }
            let b = stack.pop().unwrap();
            let a = stack.pop().unwrap();
            let v = binary_exec(c, a, b, float);
            stack.push(v);
            proof {
                assert(s.drop_last().drop_last() == s.take(n - 2));
            }
            true
        },
    }
}

} // verus!

verus! {

/// The shape of one step: it fails exactly when the stack is too small, and
/// otherwise replaces what the instruction needs by what it produces.
pub proof fn lemma_step_shape(s: Seq<Val>, c: Cmd, t: Val, o: spec_fn(FloatOp) -> u64)
    ensures
        step(s, c, t, o) is Some <==> s.len() >= needs(c),
        step(s, c, t, o) matches Some(s2) ==> s2.len() == s.len() - needs(c) + produces(c),
{
}

proof fn lemma_depth_at_most(cmds: Seq<Cmd>, n: int)
    requires
        0 <= n,
    ensures
        depth(cmds, n) <= n,
    decreases n,
{
    if n > 0 {
        lemma_depth_at_most(cmds, n - 1);
    }
}

proof fn lemma_no_underflow_before(cmds: Seq<Cmd>, i: int, n: int)
    requires
        first_underflow(cmds, n) is None,
        0 <= i < n,
    ensures
        !underflows_at(cmds, i),
    decreases n - i,
{
    if i < n - 1 {
        lemma_no_underflow_before(cmds, i, n - 1);
    }
}

proof fn lemma_depth_nonnegative(cmds: Seq<Cmd>, n: int)
    requires
        0 <= n,
        first_underflow(cmds, n) is None,
    ensures
        depth(cmds, n) >= 0,
    decreases n,
{
    if n > 0 {
        lemma_depth_nonnegative(cmds, n - 1);
    }
}

/// In a program that `compile` accepts, instruction `i` finds at least the
/// values it needs, and what it leaves is at least the count of `compile`.
proof fn lemma_step_fits(cmds: Seq<Cmd>, i: int)
    requires
        compiles(cmds),
        cmds.len() <= isize::MAX,
        0 <= i < cmds.len(),
    ensures
        depth(cmds, i) >= needs(cmds[i]),
        depth(cmds, i + 1) <= depth(cmds, i) - needs(cmds[i]) + produces(cmds[i]),
{
    lemma_no_underflow_before(cmds, i, cmds.len() as int);
    lemma_depth_at_most(cmds, i);
    lemma_first_underflow_none_prefix(cmds, i, cmds.len() as int);
    lemma_depth_nonnegative(cmds, i);
}

proof fn lemma_checked_run(cmds: Seq<Cmd>, n: int, t: Val, o: spec_fn(FloatOp) -> u64)
    requires
        compiles(cmds),
        cmds.len() <= isize::MAX,
        0 <= n <= cmds.len(),
    ensures
        run(cmds, n, t, o) matches Some(s) && s.len() >= depth(cmds, n),
    decreases n,
{
    if n > 0 {
        lemma_checked_run(cmds, n - 1, t, o);
        let s = run(cmds, n - 1, t, o)->0;
        lemma_step_fits(cmds, n - 1);
        lemma_step_shape(s, cmds[n - 1], t, o);
    }
}

/// A program that `compile` accepts never pops from a stack that is
/// too small and always leaves a value on top, whatever `t` is and whatever
/// the float unit answers.
pub proof fn lemma_compiled_programs_evaluate(cmds: Seq<Cmd>, t: Val, o: spec_fn(FloatOp) -> u64)
    requires
        compiles(cmds),
        cmds.len() <= isize::MAX,
    ensures
        result_of(cmds, t, o) is Some,
{
    let n = cmds.len() as int;
    lemma_checked_run(cmds, n, t, o);
    lemma_depth_nonnegative(cmds, n);
}

/// Evaluates a checked program at time `t`, handing every float operation
/// to `float`. A checked program cannot underflow the stack, so this always
/// produces a value.
pub fn eval_beat<F: Fn(FloatOp) -> u64>(program: &Program, t: Val, float: F) -> (r: Val)
    requires
        total(float),
    ensures
        forall|o: spec_fn(FloatOp) -> u64|
            answers(float, o) ==> result_of(program.code(), t, o) == Some(r),
{
    eval_program(program, t, &float)
}

/// Evaluates a checked program at time `t`, as `eval_beat` does, with the
/// float unit borrowed.
pub fn eval_program<F: Fn(FloatOp) -> u64>(program: &Program, t: Val, float: &F) -> (r: Val)
    requires
        total(*float),
    ensures
        forall|o: spec_fn(FloatOp) -> u64|
            answers(*float, o) ==> result_of(program.code(), t, o) == Some(r),
{
    proof {
        use_type_invariant(program);
    }
    let cmds = program.code_ref();
    let n = cmds.len();
    let mut stack: Vec<Val> = Vec::new();
    let mut i: usize = 0;
    while i < n
        invariant
            n == cmds@.len(),
            cmds@ == program.code(),
            compiles(cmds@),
            n <= isize::MAX,
            0 <= i <= n,
            total(*float),
            stack@.len() >= depth(cmds@, i as int),
            forall|o: spec_fn(FloatOp) -> u64|
                answers(*float, o) ==> run(cmds@, i as int, t, o) == Some(stack@),
        decreases n - i,
    {
        proof {
            lemma_step_fits(cmds@, i as int);
        }
        let ok = apply(&mut stack, &cmds[i], t, float);
        i = i + 1;
    }
    proof {
        lemma_depth_nonnegative(cmds@, n as int);
    }
    match stack.pop() {
        Some(v) => v,
        None => Val::I(0),
    }
}

/// Evaluates a program at time `t`, handing every float operation to
/// `float`, checking the stack as it goes: `Err(())` when an instruction pops
/// from a stack that is too small or the program leaves nothing behind.
pub fn eval_checking_stack<F: Fn(FloatOp) -> u64>(cmds: &Vec<Cmd>, t: Val, float: &F) -> (r: Result<Val, ()>)
    requires
        total(*float),
    ensures
        forall|o: spec_fn(FloatOp) -> u64|
            answers(*float, o) ==> r == (match result_of(cmds@, t, o) {
                Some(v) => Ok(v),
                None => Err(()),
            }),
{
    let n = cmds.len();
    let mut stack: Vec<Val> = Vec::new();
    let mut i: usize = 0;
    while i < n
        invariant
            n == cmds@.len(),
            0 <= i <= n,
            total(*float),
            forall|o: spec_fn(FloatOp) -> u64|
                answers(*float, o) ==> run(cmds@, i as int, t, o) == Some(stack@),
        decreases n - i,
    {
        let ok = apply(&mut stack, &cmds[i], t, float);
        if !ok {
            proof {
                assert forall|o: spec_fn(FloatOp) -> u64| answers(*float, o) implies run(cmds@, n as int, t, o) is None by {
                    lemma_run_stays_failed(cmds@, (i + 1) as int, n as int, t, o);
                }
            }
            return Err(());
        }
        i = i + 1;
    }
    match stack.pop() {
        Some(v) => Ok(v),
        None => Err(()),
    }
}

proof fn lemma_run_stays_failed(cmds: Seq<Cmd>, i: int, n: int, t: Val, o: spec_fn(FloatOp) -> u64)
    requires
        0 <= i <= n,
        run(cmds, i, t, o) is None,
    ensures
        run(cmds, n, t, o) is None,
    decreases n - i,
{
    if i < n {
        lemma_run_stays_failed(cmds, i, n - 1, t, o);
    }
}

} // verus!

verus! {

/// The truth value of the comparison `c` (one of `< > <= >= == !=`) of `a`
/// and `b`, as the evaluator computes it.
pub fn relate<F: Fn(FloatOp) -> u64>(c: &Cmd, a: Val, b: Val, float: &F) -> (r: bool)
    requires
        total(*float),
        is_comparison(*c),
    ensures
        forall|o: spec_fn(FloatOp) -> u64| answers(*float, o) ==> r == compared(*c, a, b, o),
{
    match c {
        Cmd::Eq => equal_exec(a, b, float),
        Cmd::Neq => !equal_exec(a, b, float),
        _ => ordered_exec(c, a, b, float),
    }
}

/// The float unit `o` finds `x == y` exactly when it finds `y == x`.
pub open spec fn symmetric_equality(o: spec_fn(FloatOp) -> u64) -> bool {
    forall|x: u64, y: u64| (o(FloatOp::Equal(x, y)) != 0) == (#[trigger] o(FloatOp::Equal(y, x)) != 0)
}

/// The float unit `o` finds `x < y` exactly when it finds `y > x`, and
/// `x <= y` exactly when it finds `y >= x`.
pub open spec fn mirrored_order(o: spec_fn(FloatOp) -> u64) -> bool {
    &&& forall|x: u64, y: u64| (o(FloatOp::Less(x, y)) != 0) == (#[trigger] o(FloatOp::Greater(y, x)) != 0)
    &&& forall|x: u64, y: u64| (o(FloatOp::LessEq(x, y)) != 0) == (#[trigger] o(FloatOp::GreaterEq(y, x)) != 0)
}

/// Value equality is symmetric: for two integers always, and for any values
/// when the float unit's equality of doubles is symmetric. An integer and a
/// double are equal when the double equals the integer widened and the
/// integer equals the double truncated, in either order.
pub proof fn lemma_equal_symmetric(a: Val, b: Val, o: spec_fn(FloatOp) -> u64)
    requires
        symmetric_equality(o) || (a is I && b is I),
    ensures
        equal(a, b, o) == equal(b, a, o),
        compared(Cmd::Eq, a, b, o) == compared(Cmd::Eq, b, a, o),
        compared(Cmd::Neq, a, b, o) == compared(Cmd::Neq, b, a, o),
{
    match (a, b) {
        (Val::F(l), Val::F(r)) => {
            assert((o(FloatOp::Equal(l, r)) != 0) == (o(FloatOp::Equal(r, l)) != 0));
        },
        (Val::I(l), Val::F(r)) => {
            let w = o(FloatOp::Widen(l));
            assert((o(FloatOp::Equal(w, r)) != 0) == (o(FloatOp::Equal(r, w)) != 0));
        },
        (Val::F(l), Val::I(r)) => {
            let w = o(FloatOp::Widen(r));
            assert((o(FloatOp::Equal(l, w)) != 0) == (o(FloatOp::Equal(w, l)) != 0));
        },
        _ => {},
    }
}

/// Comparing two values the other way round gives the mirrored answer:
/// `a < b` exactly when `b > a`, and `a <= b` exactly when `b >= a`; for two
/// integers always, and for any values when the float unit's comparisons of
/// doubles are mirrored.
pub proof fn lemma_ordered_reversed(a: Val, b: Val, o: spec_fn(FloatOp) -> u64)
    requires
        mirrored_order(o) || (a is I && b is I),
    ensures
        compared(Cmd::Lt, a, b, o) == compared(Cmd::Gt, b, a, o),
        compared(Cmd::Leq, a, b, o) == compared(Cmd::Geq, b, a, o),
{
    if !(a is I && b is I) {
        let x = bits_of(a, o);
        let y = bits_of(b, o);
        assert((o(FloatOp::Less(x, y)) != 0) == (o(FloatOp::Greater(y, x)) != 0));
        assert((o(FloatOp::LessEq(x, y)) != 0) == (o(FloatOp::GreaterEq(y, x)) != 0));
    }
}

proof fn lemma_run_prefix(x: Seq<Cmd>, y: Seq<Cmd>, k: int, t: Val, o: spec_fn(FloatOp) -> u64)
    requires
        0 <= k <= x.len(),
    ensures
        run(x + y, k, t, o) == run(x, k, t, o),
    decreases k,
{
    if k > 0 {
        lemma_run_prefix(x, y, k - 1, t, o);
        assert((x + y)[k - 1] == x[k - 1]);
    }
}

proof fn lemma_run_skips_metadata(a: Seq<Cmd>, m: Cmd, b: Seq<Cmd>, j: int, t: Val, o: spec_fn(FloatOp) -> u64)
    requires
        is_meta(m),
        0 <= j <= b.len(),
    ensures
        run(a + seq![m] + b, a.len() + 1 + j, t, o) == run(a + b, a.len() + j, t, o),
    decreases j,
{
    let am = a + seq![m];
    let s = am + b;
    let u = a + b;
    if j == 0 {
        lemma_run_prefix(am, b, (a.len() + 1) as int, t, o);
        lemma_run_prefix(am, b, a.len() as int, t, o);
        lemma_run_prefix(a, seq![m], a.len() as int, t, o);
        lemma_run_prefix(a, b, a.len() as int, t, o);
        assert(s[a.len() as int] == m);
    } else {
        lemma_run_skips_metadata(a, m, b, j - 1, t, o);
        assert(s[a.len() + j] == b[j - 1]);
        assert(u[a.len() + j - 1] == b[j - 1]);
    }
}

/// Metadata (`Fg`, `Bg`, `Khz`, `Comment`) has no effect on evaluation:
/// inserting one anywhere in a program leaves what it evaluates to, at any
/// time and with any float unit, unchanged.
pub proof fn lemma_metadata_has_no_effect(a: Seq<Cmd>, m: Cmd, b: Seq<Cmd>, t: Val, o: spec_fn(FloatOp) -> u64)
    requires
        is_meta(m),
    ensures
        result_of(a + seq![m] + b, t, o) == result_of(a + b, t, o),
{
    lemma_run_skips_metadata(a, m, b, b.len() as int, t, o);
    assert((a + seq![m] + b).len() == a.len() + 1 + b.len());
    assert((a + b).len() == a.len() + b.len());
}

} // verus!
