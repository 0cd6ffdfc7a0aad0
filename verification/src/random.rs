use vstd::prelude::*;

use rand::Rng;

use crate::classic::{program_of, Program};
use crate::cmd::{is_binary, Cmd};
use crate::color::Color;
use crate::compile::{depth, last_bg, last_fg, last_khz};
use crate::eval::{answers, equal, eval_checking_stack, relate, result_of, total, FloatOp, Val};
use crate::text::push_str;
use crate::unit::{is_unit, lemma_compose_units};

verus! {

/// `rand::thread_rng().gen_range(low, high)` (rand 0.4) on `u64`: a number
/// drawn from `low..high`. The source asserts `low < high`, so that is
/// required; the result lies in `[low, high)`. Which number comes out is
/// left open.
#[verifier::external_body]
fn gen_range(low: u64, high: u64) -> (r: u64)
    requires
        low < high,
    ensures
        low <= r < high,
{
    rand::thread_rng().gen_range(low, high)
}

/// `rand::thread_rng().choose(values)` (rand 0.4): `None` for an empty
/// slice, otherwise a reference to one of its elements. Which element is
/// left open.
#[verifier::external_body]
fn pick<T>(values: &[T]) -> (r: Option<&T>)
    ensures
        values@.len() == 0 <==> r is None,
        r matches Some(x) ==> values@.contains(*x),
{
    rand::thread_rng().choose(values)
}

/// A copy of an instruction.
fn copy_cmd(c: &Cmd) -> (r: Cmd)
    ensures
        r == *c,
{
    match c {
        Cmd::Var => Cmd::Var,
        Cmd::NumF(b) => Cmd::NumF(*b),
        Cmd::NumI(x) => Cmd::NumI(*x),
        Cmd::Hex(x) => Cmd::Hex(*x),
        Cmd::Add => Cmd::Add,
        Cmd::Sub => Cmd::Sub,
        Cmd::Mul => Cmd::Mul,
        Cmd::Div => Cmd::Div,
        Cmd::Mod => Cmd::Mod,
        Cmd::Shl => Cmd::Shl,
        Cmd::Shr => Cmd::Shr,
        Cmd::And => Cmd::And,
        Cmd::Orr => Cmd::Orr,
        Cmd::Xor => Cmd::Xor,
        Cmd::Sin => Cmd::Sin,
        Cmd::Cos => Cmd::Cos,
        Cmd::Tan => Cmd::Tan,
        Cmd::Pow => Cmd::Pow,
        Cmd::AddF => Cmd::AddF,
        Cmd::SubF => Cmd::SubF,
        Cmd::MulF => Cmd::MulF,
        Cmd::DivF => Cmd::DivF,
        Cmd::ModF => Cmd::ModF,
        Cmd::Lt => Cmd::Lt,
        Cmd::Gt => Cmd::Gt,
        Cmd::Leq => Cmd::Leq,
        Cmd::Geq => Cmd::Geq,
        Cmd::Eq => Cmd::Eq,
        Cmd::Neq => Cmd::Neq,
        Cmd::Cond => Cmd::Cond,
        Cmd::Arr(n) => Cmd::Arr(*n),
        Cmd::Fg(col) => Cmd::Fg(*col),
        Cmd::Bg(col) => Cmd::Bg(*col),
        Cmd::Khz(k) => Cmd::Khz(*k),
        Cmd::Comment(text) => Cmd::Comment(text.clone()),
    }
}

/// One of the given instructions, picked at random.
pub fn pick_one(options: Vec<Cmd>) -> (r: Cmd)
    requires
        options@.len() > 0,
    ensures
        options@.contains(r),
{
    match pick(options.as_slice()) {
        Some(c) => copy_cmd(c),
        None => copy_cmd(&options[0]),
    }
}

/// A random color; each channel is drawn from `0..255`.
pub fn random_color() -> (c: Color)
    ensures
        c.0[0] < 255 && c.0[1] < 255 && c.0[2] < 255,
{
    let r = gen_range(0, 255) as u8;
    let g = gen_range(0, 255) as u8;
    let b = gen_range(0, 255) as u8;
    Color([r, g, b])
}

/// `left right op`.
pub fn compose(left: Vec<Cmd>, right: Vec<Cmd>, two_arg_op: Cmd) -> (r: Vec<Cmd>)
    ensures
        r@ == left@ + right@ + seq![two_arg_op],
{
    let ghost l0 = left@;
    let ghost r0 = right@;
    let mut left = left;
    let mut right = right;
    left.append(&mut right);
    left.push(two_arg_op);
    assert(left@ =~= l0 + r0 + seq![two_arg_op]);
    left
}

} // verus!

verus! {

/// Instructions that the random generator builds beats from: `t`, integer
/// literals, and operators on two values.
pub open spec fn generator_cmd(c: Cmd) -> bool {
    c is Var || c is NumI || is_binary(c)
}

pub open spec fn generated(s: Seq<Cmd>) -> bool {
    forall|i: int| 0 <= i < s.len() ==> generator_cmd(#[trigger] s[i])
}

proof fn lemma_generated_compose(a: Seq<Cmd>, b: Seq<Cmd>, op: Cmd)
    requires
        generated(a),
        generated(b),
        is_binary(op),
    ensures
        generated(a + b + seq![op]),
{
    let s = a + b + seq![op];
    assert forall|i: int| 0 <= i < s.len() implies generator_cmd(#[trigger] s[i]) by {
        if i < a.len() {
            assert(s[i] == a[i]);
        } else if i < a.len() + b.len() {
            assert(s[i] == b[i - a.len()]);
        } else {
            assert(s[i] == op);
        }
    }
}

/// `t n >>`, or just `t` when `n` is 0.
pub open spec fn shift_unit(n: u64) -> Seq<Cmd> {
    if n == 0 {
        seq![Cmd::Var]
    } else {
        seq![Cmd::Var, Cmd::NumI(n as i64), Cmd::Shr]
    }
}

/// The operators that join the parts of a "t like" beat.
pub open spec fn two_ops() -> Seq<Cmd> {
    seq![Cmd::Sub, Cmd::Mul, Cmd::Div, Cmd::Mod, Cmd::Shl, Cmd::Shr, Cmd::And, Cmd::Orr, Cmd::Xor]
}

/// The operators that join the parts of an oscillator.
pub open spec fn oscillator_ops() -> Seq<Cmd> {
    seq![Cmd::Mul, Cmd::Mod, Cmd::And, Cmd::Orr, Cmd::Xor]
}

/// The text of a chain of shift units: the unit of `ns[0]`, then for each
/// later shift `ns[i]` its unit followed by the operator `os[i - 1]`
/// (`unit {unit op}`).
pub open spec fn chain_text(ns: Seq<u64>, os: Seq<Cmd>) -> Seq<Cmd>
    decreases ns.len(),
{
    if ns.len() == 0 {
        Seq::empty()
    } else if ns.len() == 1 {
        shift_unit(ns[0])
    } else {
        chain_text(ns.drop_last(), os.drop_last()) + shift_unit(ns.last()) + seq![os.last()]
    }
}

/// `s` is a chain of `k + 1` shift units: a first one with a shift below
/// `first_max`, then `k` units with shifts below `next_max`, each followed by
/// one of `ops`.
pub open spec fn is_chain(s: Seq<Cmd>, k: nat, first_max: u64, next_max: u64, ops: Seq<Cmd>) -> bool {
    exists|ns: Seq<u64>, os: Seq<Cmd>|
        #![trigger chain_text(ns, os)]
        ns.len() == k + 1 && os.len() == k && ns[0] < first_max && (forall|i: int|
            1 <= i < ns.len() ==> #[trigger] ns[i] < next_max) && (forall|i: int|
            0 <= i < os.len() ==> ops.contains(#[trigger] os[i])) && s == chain_text(ns, os)
}

/// A "t multiply" beat built from `k` extra units on each side: a "t like"
/// chain (shifts below 3, joined by `two_ops`), an oscillator chain (shifts
/// below 13, joined by `oscillator_ops`), and `*`.
pub open spec fn is_t_multiply(s: Seq<Cmd>, k: nat) -> bool {
    exists|a: Seq<Cmd>, b: Seq<Cmd>|
        #![trigger is_chain(a, k, 3, 3, two_ops()), is_chain(b, k, 13, 13, oscillator_ops())]
        s == a + b + seq![Cmd::Mul] && is_chain(a, k, 3, 3, two_ops()) && is_chain(
            b,
            k,
            13,
            13,
            oscillator_ops(),
        )
}

/// `t n >>` for a random `n` in `min..max`, or just `t` when `n` is 0.
fn random_t_shr(min: u64, max: u64) -> (r: Vec<Cmd>)
    requires
        min < max <= i64::MAX,
    ensures
        exists|n: u64| min <= n < max && r@ == #[trigger] shift_unit(n),
        is_unit(r@),
        generated(r@),
{
    let number = gen_range(min, max);
    let mut v: Vec<Cmd> = Vec::new();
    v.push(Cmd::Var);
    if number != 0 {
        v.push(Cmd::NumI(number as i64));
        v.push(Cmd::Shr);
    }
    proof {
        reveal_with_fuel(crate::compile::first_underflow, 4);
        reveal_with_fuel(depth, 4);
        assert(v@ =~= shift_unit(number));
    }
    v
}

/// One of `- * / % << >> & | ^`, at random.
fn random_two_op() -> (r: Cmd)
    ensures
        two_ops().contains(r),
        is_binary(r),
{
    let mut ops: Vec<Cmd> = Vec::new();
    ops.push(Cmd::Sub);
    ops.push(Cmd::Mul);
    ops.push(Cmd::Div);
    ops.push(Cmd::Mod);
    ops.push(Cmd::Shl);
    ops.push(Cmd::Shr);
    ops.push(Cmd::And);
    ops.push(Cmd::Orr);
    ops.push(Cmd::Xor);
    assert(ops@ =~= two_ops());
    let r = pick_one(ops);
    proof {
        let i = choose|i: int| 0 <= i < two_ops().len() && two_ops()[i] == r;
    }
    r
}

/// One of `* % & | ^`, at random.
fn random_oscillator_op() -> (r: Cmd)
    ensures
        oscillator_ops().contains(r),
        is_binary(r),
{
    let mut ops: Vec<Cmd> = Vec::new();
    ops.push(Cmd::Mul);
    ops.push(Cmd::Mod);
    ops.push(Cmd::And);
    ops.push(Cmd::Orr);
    ops.push(Cmd::Xor);
    assert(ops@ =~= oscillator_ops());
    let r = pick_one(ops);
    proof {
        let i = choose|i: int| 0 <= i < oscillator_ops().len() && oscillator_ops()[i] == r;
    }
    r
}

/// A "t like" beat: `t >> n`, then `length` times another `t >> m` combined
/// by a random two-operand operator; every shift is below 3.
fn random_t_like(length: usize) -> (r: Vec<Cmd>)
    ensures
        is_chain(r@, length as nat, 3, 3, two_ops()),
        is_unit(r@),
        generated(r@),
{
    let mut vec = random_t_shr(0, 3);
    let ghost mut ns: Seq<u64> = seq![choose|n: u64| n < 3 && vec@ == shift_unit(n)];
    let ghost mut os: Seq<Cmd> = Seq::empty();
    assert(vec@ == chain_text(ns, os));
    for i in 0..length
        invariant
            ns.len() == i + 1,
            os.len() == i,
            ns[0] < 3,
            forall|j: int| 1 <= j < ns.len() ==> #[trigger] ns[j] < 3,
            forall|j: int| 0 <= j < os.len() ==> two_ops().contains(#[trigger] os[j]),
            vec@ == chain_text(ns, os),
            is_unit(vec@),
            generated(vec@),
    {
        let unit = random_t_shr(0, 3);
        let op = random_two_op();
        proof {
            lemma_compose_units(vec@, unit@, op);
            lemma_generated_compose(vec@, unit@, op);
            let n = choose|n: u64| n < 3 && unit@ == shift_unit(n);
            let ns2 = ns.push(n);
            let os2 = os.push(op);
            assert(ns2.drop_last() =~= ns);
            assert(os2.drop_last() =~= os);
            assert(chain_text(ns2, os2) == vec@ + unit@ + seq![op]);
            ns = ns2;
            os = os2;
        }
        vec = compose(vec, unit, op);
    }
    assert(is_chain(vec@, length as nat, 3, 3, two_ops()));
    vec
}

/// An "oscillator" beat: `t >> n`, then `length` times another `t >> m`
/// (both shifts below 13) combined by one of `* % & | ^`.
fn random_oscillator(length: usize) -> (r: Vec<Cmd>)
    ensures
        is_chain(r@, length as nat, 13, 13, oscillator_ops()),
        is_unit(r@),
        generated(r@),
{
    let mut vec = random_t_shr(0, 13);
    let ghost mut ns: Seq<u64> = seq![choose|n: u64| n < 13 && vec@ == shift_unit(n)];
    let ghost mut os: Seq<Cmd> = Seq::empty();
    assert(vec@ == chain_text(ns, os));
    for i in 0..length
        invariant
            ns.len() == i + 1,
            os.len() == i,
            ns[0] < 13,
            forall|j: int| 1 <= j < ns.len() ==> #[trigger] ns[j] < 13,
            forall|j: int| 0 <= j < os.len() ==> oscillator_ops().contains(#[trigger] os[j]),
            vec@ == chain_text(ns, os),
            is_unit(vec@),
            generated(vec@),
    {
        let unit = random_t_shr(0, 13);
        let op = random_oscillator_op();
        proof {
            lemma_compose_units(vec@, unit@, op);
            lemma_generated_compose(vec@, unit@, op);
            let n = choose|n: u64| n < 13 && unit@ == shift_unit(n);
            let ns2 = ns.push(n);
            let os2 = os.push(op);
            assert(ns2.drop_last() =~= ns);
            assert(os2.drop_last() =~= os);
            assert(chain_text(ns2, os2) == vec@ + unit@ + seq![op]);
            ns = ns2;
            os = os2;
        }
        vec = compose(vec, unit, op);
    }
    assert(is_chain(vec@, length as nat, 13, 13, oscillator_ops()));
    vec
}

/// A random "t multiply" beat: a t-like part times an oscillator, each
/// built from `goal_length / 2` extra units. The result is a unit, so it is
/// a valid program on its own and can be placed anywhere in one.
pub fn random_t_multiply(goal_length: usize) -> (r: Vec<Cmd>)
    ensures
        is_t_multiply(r@, (goal_length / 2) as nat),
        is_unit(r@),
        generated(r@),
{
    let t_like = random_t_like(goal_length / 2);
    let oscillator = random_oscillator(goal_length / 2);
    proof {
        lemma_compose_units(t_like@, oscillator@, Cmd::Mul);
        lemma_generated_compose(t_like@, oscillator@, Cmd::Mul);
    }
    compose(t_like, oscillator, Cmd::Mul)
}

/// How many samples decide whether a beat is silent: five seconds at 8 kHz.
pub const TRIAL_SAMPLES: i64 = 40000;

/// The classic evaluator's sample of `code` at integer time `t`.
pub open spec fn classic_sample(code: Seq<Cmd>, t: int, o: spec_fn(FloatOp) -> u64) -> Result<Val, ()> {
    match result_of(code, Val::I(t as i64), o) {
        Some(v) => Ok(v),
        None => Err(()),
    }
}

/// `x` equals `y`: two values that compare equal, or two failures.
pub open spec fn same_sample(x: Result<Val, ()>, y: Result<Val, ()>, o: spec_fn(FloatOp) -> u64) -> bool {
    match (x, y) {
        (Ok(a), Ok(b)) => equal(a, b, o),
        (Err(_), Err(_)) => true,
        _ => false,
    }
}

/// Every one of the first `n` samples of `code` equals the sample at time 0.
pub open spec fn silent_for(code: Seq<Cmd>, n: int, o: spec_fn(FloatOp) -> u64) -> bool {
    forall|t: int|
        0 <= t < n ==> #[trigger] same_sample(classic_sample(code, t, o), classic_sample(code, 0, o), o)
}

fn same_sample_exec<F: Fn(FloatOp) -> u64>(x: Result<Val, ()>, y: Result<Val, ()>, float: &F) -> (r: bool)
    requires
        total(*float),
    ensures
        forall|o: spec_fn(FloatOp) -> u64| answers(*float, o) ==> r == same_sample(x, y, o),
{
    match (x, y) {
        (Ok(a), Ok(b)) => relate(&Cmd::Eq, a, b, float),
        (Err(_), Err(_)) => true,
        _ => false,
    }
}

/// Whether the first `TRIAL_SAMPLES` samples of a program (at times
/// `0, 1, 2, ...`) all equal the first one.
pub fn is_silent<F: Fn(FloatOp) -> u64>(program: &Program, float: &F) -> (r: bool)
    requires
        total(*float),
    ensures
        forall|o: spec_fn(FloatOp) -> u64|
            answers(*float, o) ==> (r == silent_for(program.code(), TRIAL_SAMPLES as int, o)),
{
    let first = eval_checking_stack(program.code_ref(), Val::I(0), float);
    let mut t: i64 = 0;
    while t < TRIAL_SAMPLES
        invariant
            0 <= t <= TRIAL_SAMPLES,
            total(*float),
            forall|o: spec_fn(FloatOp) -> u64|
                answers(*float, o) ==> first == classic_sample(program.code(), 0, o),
            forall|o: spec_fn(FloatOp) -> u64|
                answers(*float, o) ==> silent_for(program.code(), t as int, o),
        decreases TRIAL_SAMPLES - t,
    {
        let x = eval_checking_stack(program.code_ref(), Val::I(t), float);
        if !same_sample_exec(x, first, float) {
            proof {
                assert forall|o: spec_fn(FloatOp) -> u64| answers(*float, o) implies !silent_for(
                    program.code(),
                    TRIAL_SAMPLES as int,
                    o,
                ) by {
                    assert(x == classic_sample(program.code(), t as int, o));
                    assert(!same_sample(classic_sample(program.code(), t as int, o), classic_sample(program.code(), 0, o), o));
                }
            }
            return false;
        }
        proof {
            assert forall|o: spec_fn(FloatOp) -> u64| answers(*float, o) implies silent_for(
                program.code(),
                t + 1,
                o,
            ) by {
                assert(x == classic_sample(program.code(), t as int, o));
                assert forall|u: int| 0 <= u < t + 1 implies #[trigger] same_sample(
                    classic_sample(program.code(), u, o),
                    classic_sample(program.code(), 0, o),
                    o,
                ) by {
                    if u < t {
                        assert(silent_for(program.code(), t as int, o));
                    }
                }
            }
        }
        t = t + 1;
    }
    true
}

/// A beat of the random generator for a drawn length: a "t multiply" part,
/// then `!khz:8`, a foreground and a background color (channels below 255)
/// and the comment `#bbrandom`.
pub open spec fn is_random_beat(s: Seq<Cmd>, length: nat) -> bool {
    let n = s.len() as int;
    &&& n >= 4
    &&& is_t_multiply(s.take(n - 4), length / 2)
    &&& s[n - 4] == Cmd::Khz(8)
    &&& s[n - 3] matches Cmd::Fg(c) && c.0[0] < 255 && c.0[1] < 255 && c.0[2] < 255
    &&& s[n - 2] matches Cmd::Bg(c) && c.0[0] < 255 && c.0[1] < 255 && c.0[2] < 255
    &&& s[n - 1] matches Cmd::Comment(text) && text@ == "bbrandom"@
}

/// The program of a try, silent or not.
pub open spec fn tried(r: Result<Program, Program>) -> Program {
    match r {
        Ok(p) => p,
        Err(p) => p,
    }
}

/// One try of the random generator: a beat built for a length drawn from
/// `min..max`, compiled; `Ok` when it is not silent, `Err` (with the beat)
/// when it is, so that the caller can try again.
pub fn try_gen_beat<F: Fn(FloatOp) -> u64>(min: usize, max: usize, float: &F) -> (r: Result<Program, Program>)
    requires
        min < max,
        total(*float),
    ensures
        exists|length: nat| min <= length < max && #[trigger] is_random_beat(tried(r).code(), length),
        tried(r).spec_khz() == Some(8u8),
        tried(r).spec_fg() matches Some(c) && tried(r).code()[tried(r).code().len() - 3] == Cmd::Fg(c),
        tried(r).spec_bg() matches Some(c) && tried(r).code()[tried(r).code().len() - 2] == Cmd::Bg(c),
        forall|o: spec_fn(FloatOp) -> u64|
            answers(*float, o) ==> (r is Ok <==> !silent_for(tried(r).code(), TRIAL_SAMPLES as int, o)),
{
    let length = gen_range(min as u64, max as u64) as usize;
    let mut code = random_t_multiply(length);
    let ghost body = code@;
    code.push(Cmd::Khz(8));
    let fg = random_color();
    code.push(Cmd::Fg(fg));
    let bg = random_color();
    code.push(Cmd::Bg(bg));
    let mut tag = String::new();
    push_str(&mut tag, "bbrandom");
    code.push(Cmd::Comment(tag));
    proof {
        let n = code@.len() as int;
        assert(code@.take(n - 4) =~= body);
        assert(is_random_beat(code@, length as nat));
    }
    proof {
        let n = code@.len() as int;
        reveal_with_fuel(last_khz, 4);
        reveal_with_fuel(last_fg, 3);
        reveal_with_fuel(last_bg, 2);
        assert(last_khz(code@, n) == Some(8u8));
        assert(last_fg(code@, n) == Some(fg));
        assert(last_bg(code@, n) == Some(bg));
    }
    let program = program_of(code);
    let ghost beat = program.code();
    let silent = is_silent(&program, float);
    let r = if silent {
        Err(program)
    } else {
        Ok(program)
    };
    assert(tried(r).code() == beat);
    assert(is_random_beat(tried(r).code(), length as nat));
    r
}

} // verus!
