use bytebeat::classic;
use bytebeat::cmd::Cmd;
use bytebeat::compile::compile;
use bytebeat::eval::{FloatOp, Val};
use bytebeat::random::{compose, is_silent, pick_one, random_color, random_t_multiply, try_gen_beat};

fn float_unit(op: FloatOp) -> u64 {
    let f = f64::from_bits;
    let truth = |b: bool| if b { 1 } else { 0 };
    match op {
        FloatOp::Truncate(b) => (f(b) as i64) as u64,
        FloatOp::Widen(x) => (x as f64).to_bits(),
        FloatOp::Sin(b) => f(b).sin().to_bits(),
        FloatOp::Cos(b) => f(b).cos().to_bits(),
        FloatOp::Tan(b) => f(b).tan().to_bits(),
        FloatOp::Pow(a, b) => f(a).powf(f(b)).to_bits(),
        FloatOp::Add(a, b) => (f(a) + f(b)).to_bits(),
        FloatOp::Sub(a, b) => (f(a) - f(b)).to_bits(),
        FloatOp::Mul(a, b) => (f(a) * f(b)).to_bits(),
        FloatOp::Div(a, b) => (f(a) / f(b)).to_bits(),
        FloatOp::Rem(a, b) => (f(a) % f(b)).to_bits(),
        FloatOp::Less(a, b) => truth(f(a) < f(b)),
        FloatOp::Greater(a, b) => truth(f(a) > f(b)),
        FloatOp::LessEq(a, b) => truth(f(a) <= f(b)),
        FloatOp::GreaterEq(a, b) => truth(f(a) >= f(b)),
        FloatOp::Equal(a, b) => truth(f(a) == f(b)),
    }
}

#[test]
fn test_compose() {
    let a = vec![Cmd::Var, Cmd::NumI(8), Cmd::Shr];
    let b = vec![Cmd::Var, Cmd::NumI(1), Cmd::Shr];
    let op = Cmd::And;
    assert_eq!(
        compose(a, b, op),
        vec![Cmd::Var, Cmd::NumI(8), Cmd::Shr, Cmd::Var, Cmd::NumI(1), Cmd::Shr, Cmd::And]
    );
}

/// Reads one shift unit (`t` or `t n >>`) at `i`; returns its shift and the
/// position after it.
fn shift_unit_at(code: &[Cmd], i: usize) -> (i64, usize) {
    assert_eq!(code[i], Cmd::Var);
    match code.get(i + 1) {
        Some(Cmd::NumI(n)) => {
            assert_eq!(code[i + 2], Cmd::Shr);
            (*n, i + 3)
        }
        _ => (0, i + 1),
    }
}

#[test]
fn random_t_multiply_has_the_grammar() {
    for goal in 0..8 {
        for _ in 0..20 {
            let code = random_t_multiply(goal);
            let k = goal / 2;
            assert_eq!(code.last(), Some(&Cmd::Mul));
            // t-like chain
            let (n, mut i) = shift_unit_at(&code, 0);
            assert!((0..3).contains(&n));
            for _ in 0..k {
                let (n, j) = shift_unit_at(&code, i);
                assert!((0..3).contains(&n));
                assert!(matches!(
                    code[j],
                    Cmd::Sub | Cmd::Mul | Cmd::Div | Cmd::Mod | Cmd::Shl | Cmd::Shr | Cmd::And | Cmd::Orr | Cmd::Xor
                ));
                i = j + 1;
            }
            // oscillator chain
            let (n, j) = shift_unit_at(&code, i);
            assert!((0..13).contains(&n));
            i = j;
            for _ in 0..k {
                let (n, j) = shift_unit_at(&code, i);
                assert!((0..13).contains(&n));
                assert!(matches!(code[j], Cmd::Mul | Cmd::Mod | Cmd::And | Cmd::Orr | Cmd::Xor));
                i = j + 1;
            }
            assert_eq!(i + 1, code.len());
            // A unit is a program of its own.
            assert!(compile(code).is_ok());
        }
    }
}

#[test]
fn random_color_channels_below_255() {
    for _ in 0..100 {
        let c = random_color();
        assert!(c.0.iter().all(|&x| x < 255));
    }
}

#[test]
fn pick_one_picks_an_option() {
    let options = vec![Cmd::Add, Cmd::Sub, Cmd::Xor];
    for _ in 0..50 {
        let c = pick_one(options.clone());
        assert!(options.contains(&c));
    }
    assert_eq!(pick_one(vec![Cmd::Cond]), Cmd::Cond);
}

#[test]
fn constant_beat_is_silent() {
    let p = classic::compile(vec![Cmd::NumI(42)]).unwrap();
    assert!(is_silent(&p, &float_unit));
    let q = classic::compile(vec![Cmd::Var]).unwrap();
    assert!(!is_silent(&q, &float_unit));
    // A program that always fails is silent too: every sample is the same error.
    let r = classic::compile(vec![Cmd::Add]).unwrap();
    assert!(is_silent(&r, &float_unit));
    // A NaN never equals itself, so it is not silent.
    let nan = classic::compile(vec![Cmd::NumF(f64::NAN.to_bits())]).unwrap();
    assert!(!is_silent(&nan, &float_unit));
    // Late change: t 39999 == is 0 until the very last sample.
    let late = classic::compile(vec![Cmd::Var, Cmd::NumI(39_999), Cmd::Eq]).unwrap();
    assert!(!is_silent(&late, &float_unit));
    let never = classic::compile(vec![Cmd::Var, Cmd::NumI(40_000), Cmd::Eq]).unwrap();
    assert!(is_silent(&never, &float_unit));
}

#[test]
fn try_gen_beat_tags_its_beats() {
    for _ in 0..5 {
        let r = try_gen_beat(2, 7, &float_unit);
        let (p, silent) = match r {
            Ok(p) => (p, false),
            Err(p) => (p, true),
        };
        assert_eq!(silent, is_silent(&p, &float_unit));
        let code = p.code_ref();
        let n = code.len();
        assert_eq!(code[n - 4], Cmd::Khz(8));
        assert_eq!(Some(code[n - 3].clone()), p.fg().map(Cmd::Fg));
        assert_eq!(Some(code[n - 2].clone()), p.bg().map(Cmd::Bg));
        assert_eq!(code[n - 1], Cmd::Comment("bbrandom".to_string()));
        assert_eq!(code[n - 5], Cmd::Mul);
        assert_eq!(p.hz(), Some(8000));
        let _ = classic::eval_beat(&p, Val::I(0), float_unit);
    }
}

#[test]
fn random_draws_vary() {
    let colors: Vec<_> = (0..50).map(|_| random_color()).collect();
    assert!(colors.iter().any(|c| *c != colors[0]));
    let options = vec![Cmd::Add, Cmd::Sub, Cmd::Xor];
    let picks: Vec<Cmd> = (0..200).map(|_| pick_one(options.clone())).collect();
    for o in &options {
        assert!(picks.contains(o));
    }
    let beats: Vec<Vec<Cmd>> = (0..50).map(|_| random_t_multiply(6)).collect();
    assert!(beats.iter().any(|b| *b != beats[0]));
}
