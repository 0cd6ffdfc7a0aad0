use bytebeat::cmd::Cmd;
use bytebeat::color::Color;
use bytebeat::compile::compile;
use bytebeat::eval::{eval_beat, relate, FloatOp, Val};
use bytebeat::format::format_beat;
use bytebeat::parse::parse_beat;
use bytebeat::random::random_t_multiply;

fn float_unit(op: FloatOp) -> u64 {
    let f = f64::from_bits;
    let truth = |b: bool| if b { 1 } else { 0 };
    match op {
        FloatOp::Truncate(b) => (f(b) as i64) as u64,
        FloatOp::Widen(x) => (x as f64).to_bits(),
        FloatOp::Sin(b) => f(b).sin().to_bits(),
        FloatOp::Cos(b) => f(b).cos().to_bits(),
        FloatOp::Tan(b) => f(b).tan().to_bits(),
        FloatOp::Pow(a, b) => f(a).powf(f(b)).to_bits(),
        FloatOp::Add(a, b) => (f(a) + f(b)).to_bits(),
        FloatOp::Sub(a, b) => (f(a) - f(b)).to_bits(),
        FloatOp::Mul(a, b) => (f(a) * f(b)).to_bits(),
        FloatOp::Div(a, b) => (f(a) / f(b)).to_bits(),
        FloatOp::Rem(a, b) => (f(a) % f(b)).to_bits(),
        FloatOp::Less(a, b) => truth(f(a) < f(b)),
        FloatOp::Greater(a, b) => truth(f(a) > f(b)),
        FloatOp::LessEq(a, b) => truth(f(a) <= f(b)),
        FloatOp::GreaterEq(a, b) => truth(f(a) >= f(b)),
        FloatOp::Equal(a, b) => truth(f(a) == f(b)),
    }
}

fn read_float(s: &str) -> Option<u64> {
    s.parse::<f64>().ok().map(f64::to_bits)
}

fn print_float(b: u64) -> String {
    format!("{}", f64::from_bits(b))
}

#[test]
fn compiled_programs_always_evaluate() {
    // Every program that compiles leaves a value; here on programs with
    // arrays, conditions and metadata, at several times.
    let programs = vec![
        vec![Cmd::NumI(1), Cmd::NumI(2), Cmd::NumI(3), Cmd::Arr(0)],
        vec![Cmd::NumI(7), Cmd::Arr(0), Cmd::Khz(8)],
        vec![Cmd::Var, Cmd::Var, Cmd::Var, Cmd::Cond, Cmd::Sin],
        vec![Cmd::Var, Cmd::NumI(0), Cmd::Div, Cmd::NumI(0), Cmd::Mod],
    ];
    for code in programs {
        let p = compile(code).unwrap();
        for t in [Val::I(-3), Val::I(0), Val::I(i64::MAX), Val::F(f64::NAN.to_bits()), Val::F(2.5f64.to_bits())] {
            let _value: Val = eval_beat(&p, t, float_unit);
        }
    }
    assert!(matches!(eval_beat(&compile(vec![Cmd::NumI(7), Cmd::Arr(0)]).unwrap(), Val::I(5), float_unit), Val::I(0)));
}

#[test]
fn printing_then_parsing_gives_the_program_back() {
    let code = vec![
        Cmd::Var,
        Cmd::NumI(-42),
        Cmd::NumF(0.25f64.to_bits()),
        Cmd::NumF(3.0f64.to_bits()),
        Cmd::Hex(0xBEEF),
        Cmd::Arr(12),
        Cmd::Fg(Color([0x11, 0xAA, 0xFF])),
        Cmd::Bg(Color([0, 0x33, 0x77])),
        Cmd::Khz(44),
        Cmd::Comment("curated".to_string()),
        Cmd::Leq,
        Cmd::ModF,
        Cmd::Cond,
    ];
    let text = format_beat(&code, print_float);
    assert_eq!(text, "t -42 0.25 3.0 0xBEEF [12 !fg:1AF !bg:037 !khz:44 #curated <= %. ?");
    assert_eq!(parse_beat(&text, read_float), Ok(code));
}

#[test]
fn printing_a_negative_hex_does_not_read_back() {
    let text = format_beat(&[Cmd::Hex(-1)], print_float);
    assert_eq!(text, "0xFFFFFFFFFFFFFFFF");
    assert!(parse_beat(&text, read_float).is_err());
}

#[test]
fn a_unit_can_go_anywhere_in_a_program() {
    let program = vec![Cmd::Var, Cmd::NumI(8), Cmd::Shr, Cmd::Var, Cmd::Mul];
    assert!(compile(program.clone()).is_ok());
    for _ in 0..10 {
        let unit = random_t_multiply(4);
        for at in 0..=program.len() {
            let mut with_unit = program[..at].to_vec();
            with_unit.extend(unit.iter().cloned());
            with_unit.extend(program[at..].iter().cloned());
            assert!(compile(with_unit).is_ok());
        }
    }
}

#[test]
fn the_last_metadata_wins() {
    let p = compile(vec![Cmd::Khz(8), Cmd::Var, Cmd::Khz(44), Cmd::Bg(Color([1, 2, 3]))]).unwrap();
    assert_eq!(p.hz(), Some(44_000));
    assert_eq!(p.bg(), Some(Color([1, 2, 3])));
    assert_eq!(p.fg(), None);
}

fn same_bits(a: Val, b: Val) -> bool {
    match (a, b) {
        (Val::I(x), Val::I(y)) => x == y,
        (Val::F(x), Val::F(y)) => x == y,
        _ => false,
    }
}

#[test]
fn metadata_does_not_change_values() {
    let plain = vec![Cmd::Var, Cmd::Sin, Cmd::NumI(3), Cmd::Var, Cmd::Arr(1), Cmd::MulF];
    let tagged = vec![
        Cmd::Khz(11),
        Cmd::Var,
        Cmd::Sin,
        Cmd::Fg(Color([1, 2, 3])),
        Cmd::NumI(3),
        Cmd::Comment("x".to_string()),
        Cmd::Var,
        Cmd::Arr(1),
        Cmd::Bg(Color([9, 9, 9])),
        Cmd::MulF,
        Cmd::Khz(8),
    ];
    let p = compile(plain).unwrap();
    let q = compile(tagged).unwrap();
    for t in [Val::I(0), Val::I(7), Val::F(1.25f64.to_bits()), Val::F(f64::NAN.to_bits())] {
        assert!(same_bits(eval_beat(&p, t, float_unit), eval_beat(&q, t, float_unit)));
    }
}

#[test]
fn printing_joined_programs_joins_texts() {
    let a = vec![Cmd::Var, Cmd::NumI(8)];
    let b = vec![Cmd::Shr, Cmd::Khz(8)];
    let ab: Vec<Cmd> = a.iter().chain(b.iter()).cloned().collect();
    assert_eq!(
        format_beat(&ab, print_float),
        format!("{} {}", format_beat(&a, print_float), format_beat(&b, print_float))
    );
    assert_eq!(format_beat(&[], print_float), "");
    assert_eq!(format_beat(&[Cmd::Arr(3)], print_float), "[3");
}

#[test]
fn equality_is_symmetric_and_mixed() {
    let vals = [
        Val::I(64),
        Val::F(64.0f64.to_bits()),
        Val::I(1),
        Val::F(1.5f64.to_bits()),
        Val::F(f64::NAN.to_bits()),
        Val::I(i64::MAX),
        Val::F((i64::MAX as f64).to_bits()),
    ];
    for &a in &vals {
        for &b in &vals {
            assert_eq!(relate(&Cmd::Eq, a, b, &float_unit), relate(&Cmd::Eq, b, a, &float_unit));
            assert_eq!(relate(&Cmd::Lt, a, b, &float_unit), relate(&Cmd::Gt, b, a, &float_unit));
            assert_eq!(relate(&Cmd::Leq, a, b, &float_unit), relate(&Cmd::Geq, b, a, &float_unit));
        }
    }
    assert!(relate(&Cmd::Eq, vals[0], vals[1], &float_unit));
    assert!(!relate(&Cmd::Eq, vals[2], vals[3], &float_unit));
    assert!(!relate(&Cmd::Eq, vals[4], vals[4], &float_unit));
    // i64::MAX widens to 2^63, which truncates back to i64::MAX: equal.
    assert!(relate(&Cmd::Eq, vals[5], vals[6], &float_unit));
}
