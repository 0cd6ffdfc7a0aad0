use bytebeat::classic::{compile, eval_beat, format_beat, parse_beat};
use bytebeat::cmd::Cmd;
use bytebeat::color::Color;
use bytebeat::eval::{relate, FloatOp, Val};

fn float_unit(op: FloatOp) -> u64 {
    let f = f64::from_bits;
    let truth = |b: bool| if b { 1 } else { 0 };
    match op {
        FloatOp::Truncate(b) => (f(b) as i64) as u64,
        FloatOp::Widen(x) => (x as f64).to_bits(),
        FloatOp::Sin(b) => f(b).sin().to_bits(),
        FloatOp::Cos(b) => f(b).cos().to_bits(),
        FloatOp::Tan(b) => f(b).tan().to_bits(),
        FloatOp::Pow(a, b) => f(a).powf(f(b)).to_bits(),
        FloatOp::Add(a, b) => (f(a) + f(b)).to_bits(),
        FloatOp::Sub(a, b) => (f(a) - f(b)).to_bits(),
        FloatOp::Mul(a, b) => (f(a) * f(b)).to_bits(),
        FloatOp::Div(a, b) => (f(a) / f(b)).to_bits(),
        FloatOp::Rem(a, b) => (f(a) % f(b)).to_bits(),
        FloatOp::Less(a, b) => truth(f(a) < f(b)),
        FloatOp::Greater(a, b) => truth(f(a) > f(b)),
        FloatOp::LessEq(a, b) => truth(f(a) <= f(b)),
        FloatOp::GreaterEq(a, b) => truth(f(a) >= f(b)),
        FloatOp::Equal(a, b) => truth(f(a) == f(b)),
    }
}

fn read_float(s: &str) -> Option<u64> {
    s.parse::<f64>().ok().map(f64::to_bits)
}

fn print_float(b: u64) -> String {
    format!("{}", f64::from_bits(b))
}

fn fv(x: f64) -> Val {
    Val::F(x.to_bits())
}

fn nf(x: f64) -> Cmd {
    Cmd::NumF(x.to_bits())
}

/// Evaluates `code` at each time and compares with the expected value; then
/// checks printing and parsing.
fn check_classic(text: &str, code: Vec<Cmd>, evals: &[(Val, Val)]) {
    let program = compile(code.clone()).unwrap();
    for (t, expected) in evals {
        let got = eval_beat(&program, *t, float_unit);
        match got {
            Ok(v) => assert!(relate(&Cmd::Eq, v, *expected, &float_unit), "t = {:?}, cmd: {}", t, text),
            Err(()) => panic!("t = {:?}, cmd: {}: no value", t, text),
        }
    }
    assert_eq!(format_beat(&code, print_float), text);
    assert_eq!(parse_beat(text, read_float), Ok(code));
}

#[test]
fn lib_test_metadata() {
    let prog = compile(vec![
        Cmd::Fg(Color([0, 0, 0])),
        Cmd::Bg(Color([0, 0, 0])),
        Cmd::Khz(8),
        Cmd::Khz(11),
        Cmd::Fg(Color([1, 0, 0])),
        Cmd::Bg(Color([0, 1, 1])),
    ])
    .unwrap();
    assert_eq!(prog.hz(), Some(11_000));
    assert_eq!(prog.fg(), Some(Color([1, 0, 0])));
    assert_eq!(prog.bg(), Some(Color([0, 1, 1])));
}

#[test]
fn test_arr_stack_too_small() {
    let cmd = compile(vec![Cmd::NumI(1), Cmd::NumI(2), Cmd::NumI(3), Cmd::Arr(3)]).unwrap();
    assert!(eval_beat(&cmd, fv(0.0), float_unit).is_err(), "t = {}, cmd: {}", 0.0, "1 2 3 [3");
}

#[test]
fn test_eval_empty_arr_is_err() {
    let cmd = compile(vec![Cmd::Arr(0)]).unwrap();
    assert!(eval_beat(&cmd, fv(0.0), float_unit).is_err(), "t = {}, cmd: {}", 0.0, "[0");
    assert!(eval_beat(&cmd, fv(1.0), float_unit).is_err(), "t = {}, cmd: {}", 1.0, "[0");
    assert!(eval_beat(&cmd, fv(2.0), float_unit).is_err(), "t = {}, cmd: {}", 2.0, "[0");
}

#[test]
fn lib_test_overflow() {
    let code = compile(vec![Cmd::Var, Cmd::Var, Cmd::Mul]).unwrap();
    let res: u8 = eval_beat(&code, fv(1_073_741_825.0), float_unit).unwrap().to_sample(&float_unit);
    assert_eq!(res, (1_073_741_825i64.wrapping_mul(1_073_741_825)) as u8);
}

#[test]
fn classic_var() {
    check_classic("t", vec![Cmd::Var], &[(fv(0.0), fv(0.0)), (fv(0.5), fv(0.5))]);
}

#[test]
fn classic_numi() {
    check_classic("0 42", vec![Cmd::NumI(0), Cmd::NumI(42)], &[(fv(0.0), fv(42.0))]);
}

#[test]
fn classic_numf() {
    check_classic(
        "0.0 42.69",
        vec![nf(0.0), nf(42.69)],
        &[(fv(0.0), fv(42.69)), (fv(13.0), fv(42.69))],
    );
}

#[test]
fn classic_add() {
    check_classic("t t +", vec![Cmd::Var, Cmd::Var, Cmd::Add], &[(fv(0.5), fv(0.0)), (fv(1.0), fv(2.0))]);
}

#[test]
fn classic_sub() {
    check_classic(
        "t 1 -",
        vec![Cmd::Var, Cmd::NumI(1), Cmd::Sub],
        &[(fv(0.0), fv(-1.0)), (fv(0.6), fv(-1.0)), (fv(1.5), fv(0.0))],
    );
}

#[test]
fn classic_div_0() {
    check_classic("1 0 /", vec![Cmd::NumI(1), Cmd::NumI(0), Cmd::Div], &[(fv(1.0), fv(0.0))]);
}

#[test]
fn classic_rem() {
    check_classic(
        "t 7 %",
        vec![Cmd::Var, Cmd::NumI(7), Cmd::Mod],
        &[(fv(-8.0), fv(-1.0)), (fv(-1.0), fv(-1.0)), (fv(0.0), fv(0.0)), (fv(5.0), fv(5.0)), (fv(8.0), fv(1.0))],
    );
}

#[test]
fn classic_khz() {
    check_classic("!khz:8 8000", vec![Cmd::Khz(8), Cmd::NumI(8000)], &[(Val::I(0), Val::I(8000))]);
}

#[test]
fn classic_comment() {
    check_classic(
        "#bbcurated 42",
        vec![Cmd::Comment("bbcurated".into()), Cmd::NumI(42)],
        &[(Val::I(0), Val::I(42))],
    );
}

#[test]
fn classic_arr_pops_index_first() {
    // The classic evaluator pops the index before checking the stack, so
    // `[0` pushes a zero only when there is an index to pop.
    check_classic(
        "1 2 3 [0",
        vec![Cmd::NumI(1), Cmd::NumI(2), Cmd::NumI(3), Cmd::Arr(0)],
        &[(Val::I(0), Val::I(0)), (Val::I(4), Val::I(0))],
    );
    check_classic(
        "1 2 3 t [3",
        vec![Cmd::NumI(1), Cmd::NumI(2), Cmd::NumI(3), Cmd::Var, Cmd::Arr(3)],
        &[(Val::I(-1), Val::I(3)), (Val::I(0), Val::I(1)), (Val::I(4), Val::I(2))],
    );
}

#[test]
fn classic_underflow_is_err() {
    let cmd = compile(vec![Cmd::Add]).unwrap();
    assert!(eval_beat(&cmd, Val::I(0), float_unit).is_err());
    let empty = compile(vec![]).unwrap();
    assert!(eval_beat(&empty, Val::I(0), float_unit).is_err());
}

#[test]
fn classic_accepts_every_program() {
    let p = compile(vec![Cmd::Add, Cmd::Khz(3)]).unwrap();
    assert_eq!(p.hz(), Some(3000));
    assert_eq!(p.code_ref().len(), 2);
}

#[test]
fn classic_parse_error_is_token() {
    assert_eq!(parse_beat("t 0x10 +", read_float), Err("0x10"));
    assert_eq!(parse_beat("t [x", read_float), Err("[x"));
    assert_eq!(parse_beat("!fg:zz", read_float), Err("!fg:zz"));
    assert_eq!(parse_beat("1 2 3 [3", read_float), Ok(vec![Cmd::NumI(1), Cmd::NumI(2), Cmd::NumI(3), Cmd::Arr(3)]));
}
