use bytebeat::cmd::Cmd;
use bytebeat::color::Color;
use bytebeat::compile::{compile, ErrorKind};
use bytebeat::eval::{eval_beat, relate, FloatOp, Val};
use bytebeat::format::format_beat;
use bytebeat::parse::parse_beat;

fn float_unit(op: FloatOp) -> u64 {
    let f = f64::from_bits;
    let truth = |b: bool| if b { 1 } else { 0 };
    match op {
        FloatOp::Truncate(b) => (f(b) as i64) as u64,
        FloatOp::Widen(x) => (x as f64).to_bits(),
        FloatOp::Sin(b) => f(b).sin().to_bits(),
        FloatOp::Cos(b) => f(b).cos().to_bits(),
        FloatOp::Tan(b) => f(b).tan().to_bits(),
        FloatOp::Pow(a, b) => f(a).powf(f(b)).to_bits(),
        FloatOp::Add(a, b) => (f(a) + f(b)).to_bits(),
        FloatOp::Sub(a, b) => (f(a) - f(b)).to_bits(),
        FloatOp::Mul(a, b) => (f(a) * f(b)).to_bits(),
        FloatOp::Div(a, b) => (f(a) / f(b)).to_bits(),
        FloatOp::Rem(a, b) => (f(a) % f(b)).to_bits(),
        FloatOp::Less(a, b) => truth(f(a) < f(b)),
        FloatOp::Greater(a, b) => truth(f(a) > f(b)),
        FloatOp::LessEq(a, b) => truth(f(a) <= f(b)),
        FloatOp::GreaterEq(a, b) => truth(f(a) >= f(b)),
        FloatOp::Equal(a, b) => truth(f(a) == f(b)),
    }
}

fn read_float(s: &str) -> Option<u64> {
    s.parse::<f64>().ok().map(f64::to_bits)
}

fn print_float(b: u64) -> String {
    format!("{}", f64::from_bits(b))
}

fn fv(x: f64) -> Val {
    Val::F(x.to_bits())
}

fn same(a: Val, b: Val) -> bool {
    relate(&Cmd::Eq, a, b, &float_unit)
}

fn nf(x: f64) -> Cmd {
    Cmd::NumF(x.to_bits())
}

/// Compiles, evaluates, prints and parses one example beat.
fn check_beat(text: &str, code: Vec<Cmd>, evals: &[(Val, Val)]) {
    let program = compile(code.clone()).expect("compiles");
    for (t, expected) in evals {
        let got = eval_beat(&program, *t, float_unit);
        assert!(same(got, *expected), "t = {:?}, cmd: {}, got {:?}", t, text, got);
    }
    assert_eq!(format_beat(&code, print_float), text);
    assert_eq!(parse_beat(text, read_float), Ok(code));
}

#[test]
fn tests_test_metadata() {
    let code = vec![
        Cmd::Fg(Color([0, 0, 0])),
        Cmd::Bg(Color([0, 0, 0])),
        Cmd::Khz(8),
        Cmd::Khz(11),
        Cmd::Fg(Color([1, 0, 0])),
        Cmd::Bg(Color([0, 1, 1])),
        Cmd::NumI(0),
    ];
    let prog = compile(code).unwrap();
    assert_eq!(prog.hz(), Some(11_000));
    assert_eq!(prog.fg(), Some(Color([1, 0, 0])));
    assert_eq!(prog.bg(), Some(Color([0, 1, 1])));
}

#[test]
fn tests_test_overflow() {
    let code = compile(vec![Cmd::Var, Cmd::Var, Cmd::Mul]).unwrap();
    let res: u8 = eval_beat(&code, fv(1_073_741_825.0), float_unit).to_sample(&float_unit);
    assert_eq!(res, (1_073_741_825i64.wrapping_mul(1_073_741_825)) as u8);
}

fn rejection_kind(code: Vec<Cmd>) -> ErrorKind {
    match compile(code) {
        Ok(_) => panic!("program should be rejected"),
        Err(e) => {
            let kind = e.error_kind();
            match kind {
                ErrorKind::EmptyProgram => ErrorKind::EmptyProgram,
                ErrorKind::UnderflowedStack { index, stack_size } => {
                    ErrorKind::UnderflowedStack { index: *index, stack_size: *stack_size }
                }
            }
        }
    }
}

#[test]
fn invalid_empty() {
    assert_eq!(rejection_kind(vec![]), ErrorKind::EmptyProgram);
}

#[test]
fn invalid_add_empty() {
    assert_eq!(
        rejection_kind(vec![Cmd::Add]),
        ErrorKind::UnderflowedStack { index: 0, stack_size: 0 }
    );
}

#[test]
fn invalid_add_small_stack() {
    assert_eq!(
        rejection_kind(vec![Cmd::Var, Cmd::Add]),
        ErrorKind::UnderflowedStack { index: 1, stack_size: 1 }
    );
}

#[test]
fn invalid_cond_small_stack() {
    assert_eq!(
        rejection_kind(vec![Cmd::Var, Cmd::Var, Cmd::Cond]),
        ErrorKind::UnderflowedStack { index: 2, stack_size: 2 }
    );
}

#[test]
fn invalid_empty_arr_is_err() {
    assert_eq!(
        rejection_kind(vec![Cmd::Arr(0)]),
        ErrorKind::UnderflowedStack { index: 0, stack_size: 0 }
    );
}

#[test]
fn invalid_arr_stack_too_small() {
    assert_eq!(
        rejection_kind(vec![Cmd::Var, Cmd::Arr(1)]),
        ErrorKind::UnderflowedStack { index: 1, stack_size: 1 }
    );
}

#[test]
fn invalid_arr_stack_too_small2() {
    assert_eq!(
        rejection_kind(vec![Cmd::NumI(1), Cmd::NumI(2), Cmd::NumI(3), Cmd::Arr(3)]),
        ErrorKind::UnderflowedStack { index: 3, stack_size: 3 }
    );
}

#[test]
fn invalid_sin_empty() {
    assert_eq!(
        rejection_kind(vec![Cmd::Sin]),
        ErrorKind::UnderflowedStack { index: 0, stack_size: 0 }
    );
}

#[test]
fn invalid_should_not_dip_below_zero() {
    assert_eq!(
        rejection_kind(vec![Cmd::Var, Cmd::Var, Cmd::Var, Cmd::Add, Cmd::Add, Cmd::Add, Cmd::Var]),
        ErrorKind::UnderflowedStack { index: 5, stack_size: 1 }
    );
}

#[test]
fn invalid_need_at_one_value_on_stack() {
    assert_eq!(
        rejection_kind(vec![
            Cmd::Khz(8),
            Cmd::Bg(Color([0, 0, 0])),
            Cmd::Fg(Color([0, 0, 0])),
            Cmd::Comment("Hello".into()),
        ]),
        ErrorKind::EmptyProgram
    );
}

#[test]
fn rejection_keeps_code() {
    let code = vec![Cmd::Var, Cmd::Add];
    let err = compile(code.clone()).err().unwrap();
    assert_eq!(err.as_code(), &code[..]);
    assert_eq!(err.into_code(), code);
}

#[test]
fn beat_var() {
    check_beat("t", vec![Cmd::Var], &[(fv(0.0), fv(0.0)), (fv(0.5), fv(0.5))]);
}

#[test]
fn beat_numi() {
    check_beat(
        "0 42",
        vec![Cmd::NumI(0), Cmd::NumI(42)],
        &[(fv(0.0), fv(42.0)), (fv(0.0), fv(42.0))],
    );
}

#[test]
fn beat_numf() {
    check_beat(
        "0.0 42.69",
        vec![nf(0.0), nf(42.69)],
        &[(fv(0.0), fv(42.69)), (fv(13.0), fv(42.69))],
    );
}

#[test]
fn beat_add() {
    check_beat(
        "t t +",
        vec![Cmd::Var, Cmd::Var, Cmd::Add],
        &[(fv(0.5), fv(0.0)), (fv(1.0), fv(2.0))],
    );
}

#[test]
fn beat_sub() {
    check_beat(
        "t 1 -",
        vec![Cmd::Var, Cmd::NumI(1), Cmd::Sub],
        &[(fv(0.0), fv(-1.0)), (fv(0.6), fv(-1.0)), (fv(1.5), fv(0.0))],
    );
}

#[test]
fn beat_mul() {
    check_beat(
        "t t *",
        vec![Cmd::Var, Cmd::Var, Cmd::Mul],
        &[(fv(0.5), fv(0.0)), (fv(2.5), fv(4.0)), (fv(3.0), fv(9.0))],
    );
}

#[test]
fn beat_div() {
    check_beat(
        "t 2 /",
        vec![Cmd::Var, Cmd::NumI(2), Cmd::Div],
        &[
            (fv(0.0), fv(0.0)),
            (fv(1.0), fv(0.0)),
            (fv(2.0), fv(1.0)),
            (fv(3.0), fv(1.0)),
            (fv(4.0), fv(2.0)),
        ],
    );
}

#[test]
fn beat_div_0() {
    check_beat("1 0 /", vec![Cmd::NumI(1), Cmd::NumI(0), Cmd::Div], &[(fv(1.0), fv(0.0))]);
}

#[test]
fn beat_rem() {
    check_beat(
        "t 7 %",
        vec![Cmd::Var, Cmd::NumI(7), Cmd::Mod],
        &[
            (fv(-8.0), fv(-1.0)),
            (fv(-1.0), fv(-1.0)),
            (fv(0.0), fv(0.0)),
            (fv(5.0), fv(5.0)),
            (fv(8.0), fv(1.0)),
        ],
    );
}

#[test]
fn beat_rem_0() {
    check_beat("7 0 %", vec![Cmd::NumI(7), Cmd::NumI(0), Cmd::Mod], &[(fv(1.0), fv(0.0))]);
}

#[test]
fn beat_shl() {
    check_beat(
        "1.1 t <<",
        vec![nf(1.1), Cmd::Var, Cmd::Shl],
        &[
            (fv(-60.0), fv(16.0)),
            (fv(0.0), fv(1.0)),
            (fv(0.6), fv(1.0)),
            (fv(1.0), fv(2.0)),
            (fv(8.3), fv(256.0)),
            (fv(65.0), fv(2.0)),
        ],
    );
}

#[test]
fn beat_shr() {
    check_beat(
        "1024.1 t >>",
        vec![nf(1024.1), Cmd::Var, Cmd::Shr],
        &[
            (fv(-60.0), fv(64.0)),
            (fv(0.0), fv(1024.0)),
            (fv(0.2), fv(1024.0)),
            (fv(1.0), fv(512.0)),
            (fv(4.0), fv(64.0)),
            (fv(4.7), fv(64.0)),
            (fv(11.0), fv(0.0)),
        ],
    );
}

#[test]
fn beat_and() {
    check_beat("1 2 &", vec![Cmd::NumI(1), Cmd::NumI(2), Cmd::And], &[(fv(1.0), fv(0.0))]);
}

#[test]
fn beat_orr() {
    check_beat("1 2 |", vec![Cmd::NumI(1), Cmd::NumI(2), Cmd::Orr], &[(fv(1.0), fv(3.0))]);
}

#[test]
fn beat_xor() {
    check_beat(
        "t -1 ^",
        vec![Cmd::Var, Cmd::NumI(-1), Cmd::Xor],
        &[(fv(0.0), fv(-1.0)), (fv(3.2), fv((!3i64) as f64))],
    );
}

#[test]
fn beat_addf() {
    check_beat(
        "0.1 t +.",
        vec![nf(0.1), Cmd::Var, Cmd::AddF],
        &[(fv(0.0), fv(0.1)), (fv(-2.0), fv(-1.9)), (fv(1.0), fv(1.1))],
    );
}

#[test]
fn beat_subf() {
    check_beat(
        "0 t -.",
        vec![Cmd::NumI(0), Cmd::Var, Cmd::SubF],
        &[(fv(-6.9), fv(6.9)), (fv(0.0), fv(0.0)), (fv(4.2), fv(-4.2))],
    );
}

#[test]
fn beat_mulf() {
    check_beat(
        "7.5 t *.",
        vec![nf(7.5), Cmd::Var, Cmd::MulF],
        &[(fv(4.2), fv(31.5)), (fv(0.0), fv(0.0)), (fv(-6.9), fv(-51.75))],
    );
}

#[test]
fn beat_divf() {
    check_beat(
        "7.5 t /.",
        vec![nf(7.5), Cmd::Var, Cmd::DivF],
        &[
            (fv(4.2), fv(1.7857142857142856)),
            (fv(0.0), fv(0.0)),
            (fv(-6.9), fv(-1.0869565217391304)),
        ],
    );
}

#[test]
fn beat_modf() {
    check_beat(
        "7.5 t %.",
        vec![nf(7.5), Cmd::Var, Cmd::ModF],
        &[(fv(4.2), fv(3.3)), (fv(0.0), fv(0.0)), (fv(-6.9), fv(0.5999999999999996))],
    );
}

#[test]
fn beat_lt() {
    check_beat(
        "t 64 <",
        vec![Cmd::Var, Cmd::NumI(64), Cmd::Lt],
        &[(fv(0.0), fv(1.0)), (fv(64.0), fv(0.0)), (fv(128.0), fv(0.0))],
    );
}

#[test]
fn beat_gt() {
    check_beat(
        "t 64 >",
        vec![Cmd::Var, Cmd::NumI(64), Cmd::Gt],
        &[(fv(0.0), fv(0.0)), (fv(64.0), fv(0.0)), (fv(128.0), fv(1.0))],
    );
}

#[test]
fn beat_leq() {
    check_beat(
        "t 64 <=",
        vec![Cmd::Var, Cmd::NumI(64), Cmd::Leq],
        &[(fv(0.0), fv(1.0)), (fv(64.0), fv(1.0)), (fv(128.0), fv(0.0))],
    );
}

#[test]
fn beat_geq() {
    check_beat(
        "t 64 >=",
        vec![Cmd::Var, Cmd::NumI(64), Cmd::Geq],
        &[(fv(0.0), fv(0.0)), (fv(64.0), fv(1.0)), (fv(128.0), fv(1.0))],
    );
}

#[test]
fn beat_eq() {
    check_beat(
        "t 64 ==",
        vec![Cmd::Var, Cmd::NumI(64), Cmd::Eq],
        &[(fv(0.0), fv(0.0)), (fv(64.0), fv(1.0)), (fv(128.0), fv(0.0))],
    );
}

#[test]
fn beat_neq() {
    check_beat(
        "t 64 !=",
        vec![Cmd::Var, Cmd::NumI(64), Cmd::Neq],
        &[(fv(0.0), fv(1.0)), (fv(64.0), fv(0.0)), (fv(128.0), fv(1.0))],
    );
}

#[test]
fn beat_cond() {
    check_beat(
        "3 2 t ?",
        vec![Cmd::NumI(3), Cmd::NumI(2), Cmd::Var, Cmd::Cond],
        &[(Val::I(0), Val::I(2)), (Val::I(1), Val::I(3)), (Val::I(2), Val::I(3))],
    );
}

#[test]
fn beat_color() {
    check_beat(
        "!fg:F00 !bg:00F 0",
        vec![
            Cmd::Fg(Color([0xFF, 0x00, 0x00])),
            Cmd::Bg(Color([0x00, 0x00, 0xFF])),
            Cmd::NumI(0),
        ],
        &[(Val::I(0), Val::I(0))],
    );
}

#[test]
fn beat_khz() {
    check_beat("!khz:8 8000", vec![Cmd::Khz(8), Cmd::NumI(8000)], &[(Val::I(0), Val::I(8000))]);
}

#[test]
fn beat_comment() {
    check_beat(
        "#bbcurated 42",
        vec![Cmd::Comment("bbcurated".into()), Cmd::NumI(42)],
        &[(Val::I(0), Val::I(42))],
    );
}

#[test]
fn beat_hex() {
    check_beat(
        "0x0 0x1 0x2 0xA 0xF 0x10 0xA0 0xFF 0xFFFF 0xBAD1DEA",
        vec![
            Cmd::Hex(0x0),
            Cmd::Hex(0x1),
            Cmd::Hex(0x2),
            Cmd::Hex(0xA),
            Cmd::Hex(0xF),
            Cmd::Hex(0x10),
            Cmd::Hex(0xA0),
            Cmd::Hex(0xFF),
            Cmd::Hex(0xFFFF),
            Cmd::Hex(0xBAD1DEA),
        ],
        &[(Val::I(0), Val::I(195894762))],
    );
}

#[test]
fn beat_even() {
    check_beat(
        "3 2 t 2 % 0 == ?",
        vec![
            Cmd::NumI(3),
            Cmd::NumI(2),
            Cmd::Var,
            Cmd::NumI(2),
            Cmd::Mod,
            Cmd::NumI(0),
            Cmd::Eq,
            Cmd::Cond,
        ],
        &[
            (Val::I(0), Val::I(3)),
            (Val::I(1), Val::I(2)),
            (Val::I(2), Val::I(3)),
            (Val::I(3), Val::I(2)),
            (Val::I(4), Val::I(3)),
            (Val::I(5), Val::I(2)),
        ],
    );
}

#[test]
fn beat_circle() {
    check_beat(
        "t sin t sin *. t cos t cos *. +.",
        vec![
            Cmd::Var,
            Cmd::Sin,
            Cmd::Var,
            Cmd::Sin,
            Cmd::MulF,
            Cmd::Var,
            Cmd::Cos,
            Cmd::Var,
            Cmd::Cos,
            Cmd::MulF,
            Cmd::AddF,
        ],
        &[(fv(0.0), fv(1.0)), (fv(0.5), fv(1.0)), (fv(13.0), fv(1.0))],
    );
}

#[test]
fn beat_tan_ratio() {
    check_beat(
        "t sin t cos /. t tan -.",
        vec![Cmd::Var, Cmd::Sin, Cmd::Var, Cmd::Cos, Cmd::DivF, Cmd::Var, Cmd::Tan, Cmd::SubF],
        &[(fv(0.0), fv(0.0)), (fv(0.5), fv(0.0)), (fv(13.0), fv(0.0))],
    );
}

#[test]
fn beat_pow() {
    check_beat(
        "t 3.5 pow",
        vec![Cmd::Var, nf(3.5), Cmd::Pow],
        &[
            (fv(0.0), fv(0.0)),
            (fv(1.0), fv(1.0)),
            (fv(2.0), fv(11.313708498984761)),
            (fv(2.7), fv(32.34246929812256)),
        ],
    );
}

#[test]
fn beat_arr() {
    let evals: Vec<(Val, Val)> = [(-4, 3), (-3, 1), (-2, 2), (-1, 3), (0, 1), (1, 2), (2, 3), (3, 1), (4, 2), (5, 3), (6, 1)]
        .iter()
        .map(|&(t, r)| (Val::I(t), Val::I(r)))
        .collect();
    check_beat(
        "1 2 3 t [3",
        vec![Cmd::NumI(1), Cmd::NumI(2), Cmd::NumI(3), Cmd::Var, Cmd::Arr(3)],
        &evals,
    );
}

#[test]
fn beat_arr_pops() {
    check_beat(
        "10 1 2 3 t [3 +",
        vec![
            Cmd::NumI(10),
            Cmd::NumI(1),
            Cmd::NumI(2),
            Cmd::NumI(3),
            Cmd::Var,
            Cmd::Arr(3),
            Cmd::Add,
        ],
        &[(Val::I(0), Val::I(11)), (Val::I(1), Val::I(12)), (Val::I(2), Val::I(13))],
    );
}

#[test]
fn beat_arr_pushes_zero() {
    check_beat(
        "1 2 3 [0",
        vec![Cmd::NumI(1), Cmd::NumI(2), Cmd::NumI(3), Cmd::Arr(0)],
        &[
            (Val::I(0), Val::I(0)),
            (Val::I(1), Val::I(0)),
            (Val::I(2), Val::I(0)),
            (Val::I(3), Val::I(0)),
            (Val::I(4), Val::I(0)),
        ],
    );
}

#[test]
fn beat_example1() {
    check_beat(
        "t 1 >> t | tan 128 +",
        vec![
            Cmd::Var,
            Cmd::NumI(1),
            Cmd::Shr,
            Cmd::Var,
            Cmd::Orr,
            Cmd::Tan,
            Cmd::NumI(128),
            Cmd::Add,
        ],
        &[(fv(1.0), fv(129.0))],
    );
}

#[test]
fn beat_example2() {
    check_beat(
        "t 1 >> t | tan 128 +.",
        vec![
            Cmd::Var,
            Cmd::NumI(1),
            Cmd::Shr,
            Cmd::Var,
            Cmd::Orr,
            Cmd::Tan,
            Cmd::NumI(128),
            Cmd::AddF,
        ],
        &[(fv(1.0), fv(129.5574077246549))],
    );
}

#[test]
fn beat_example3() {
    check_beat(
        "2.5 1.2 %.",
        vec![nf(2.5), nf(1.2), Cmd::ModF],
        &[(fv(0.0), fv(0.10000000000000009))],
    );
}

#[test]
fn beat_example4() {
    check_beat(
        "t cos t cos *. t sin t sin *. +.",
        vec![
            Cmd::Var,
            Cmd::Cos,
            Cmd::Var,
            Cmd::Cos,
            Cmd::MulF,
            Cmd::Var,
            Cmd::Sin,
            Cmd::Var,
            Cmd::Sin,
            Cmd::MulF,
            Cmd::AddF,
        ],
        &[(fv(0.4), fv(1.0))],
    );
}

#[test]
fn beat_example5() {
    check_beat(
        "t 10 / t 2 t 10 >> pow * sin + sin 64 * 128 +",
        vec![
            Cmd::Var,
            Cmd::NumI(10),
            Cmd::Div,
            Cmd::Var,
            Cmd::NumI(2),
            Cmd::Var,
            Cmd::NumI(10),
            Cmd::Shr,
            Cmd::Pow,
            Cmd::Mul,
            Cmd::Sin,
            Cmd::Add,
            Cmd::Sin,
            Cmd::NumI(64),
            Cmd::Mul,
            Cmd::NumI(128),
            Cmd::Add,
        ],
        &[(fv(3.0), fv(128.0))],
    );
}

#[test]
fn beat_example6() {
    check_beat(
        "t 10.0 /. t 2.0 t 10.0 >> pow *. sin +. sin 64.0 *. 128.0 +.",
        vec![
            Cmd::Var,
            nf(10.0),
            Cmd::DivF,
            Cmd::Var,
            nf(2.0),
            Cmd::Var,
            nf(10.0),
            Cmd::Shr,
            Cmd::Pow,
            Cmd::MulF,
            Cmd::Sin,
            Cmd::AddF,
            Cmd::Sin,
            nf(64.0),
            Cmd::MulF,
            nf(128.0),
            Cmd::AddF,
        ],
        &[(Val::I(3), fv(155.324961718789))],
    );
}

#[test]
fn beat_empty_arr_pops_the_index() {
    let p = compile(vec![Cmd::NumI(5), Cmd::NumI(6), Cmd::Arr(0), Cmd::Add]).unwrap();
    assert!(matches!(eval_beat(&p, Val::I(0), float_unit), Val::I(5)));
}
