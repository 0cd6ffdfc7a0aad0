use bytebeat::cmd::Cmd;
use bytebeat::color::Color;
use bytebeat::compile::compile;
use bytebeat::crash::decode_crash;
use bytebeat::eval::Val;
use bytebeat::parse::{parse_beat, ParseError};

fn read_float(s: &str) -> Option<u64> {
    s.parse::<f64>().ok().map(f64::to_bits)
}

fn print_float(b: u64) -> String {
    format!("{}", f64::from_bits(b))
}

#[test]
fn parse_errors_name_token_and_position() {
    assert_eq!(parse_beat("t [x", read_float), Err(ParseError::BadArr("[x", 1)));
    assert_eq!(parse_beat("t t !fg:xyz", read_float), Err(ParseError::BadFG("!fg:xyz", 2)));
    assert_eq!(parse_beat("!bg:12345", read_float), Err(ParseError::BadBG("!bg:12345", 0)));
    assert_eq!(parse_beat("!khz:256", read_float), Err(ParseError::BadKhz("!khz:256", 0)));
    assert_eq!(parse_beat("t foo", read_float), Err(ParseError::UnknownToken("foo", 1)));
    assert_eq!(parse_beat("0xZZ", read_float), Err(ParseError::UnknownToken("0xZZ", 0)));
    assert_eq!(parse_beat("1.2.3", read_float), Err(ParseError::UnknownToken("1.2.3", 0)));
    // The first bad token is reported.
    assert_eq!(parse_beat("a [b", read_float), Err(ParseError::UnknownToken("a", 0)));
}

#[test]
fn parse_accepts_signs_and_white_space() {
    assert_eq!(
        parse_beat("  -5\t+7\n0x-1 !fg:FFFF", read_float),
        Ok(vec![Cmd::NumI(-5), Cmd::NumI(7), Cmd::Hex(-1), Cmd::Fg(Color([255, 255, 255]))])
    );
    assert_eq!(parse_beat("", read_float), Ok(vec![]));
    assert_eq!(parse_beat("#", read_float), Ok(vec![Cmd::Comment(String::new())]));
}

#[test]
fn parse_error_messages() {
    assert_eq!(ParseError::BadArr("[x", 1).describe(), "Bad Array op: [x, index: 1");
    assert_eq!(ParseError::BadFG("!fg:q", 0).describe(), "Bad Foreground Color: !fg:q, index: 0");
    assert_eq!(ParseError::BadBG("!bg:q", 4).describe(), "Bad Background Color: !bg:q, index: 4");
    assert_eq!(ParseError::BadKhz("!khz:z", 12).describe(), "Bad Sample Rate: !khz:z, index: 12");
    assert_eq!(ParseError::UnknownToken("foo", 3).describe(), "Unknown Token: foo, index: 3");
}

#[test]
fn compile_error_messages() {
    let e = compile(vec![Cmd::Var, Cmd::Add]).err().unwrap();
    assert_eq!(
        e.describe(&print_float),
        "Attempt to pop beyond stack size. instruction: + index: 1, size of stack 1"
    );
    let e = compile(vec![Cmd::NumF(1.5f64.to_bits()), Cmd::Arr(4)]).err().unwrap();
    assert_eq!(
        e.describe(&print_float),
        "Attempt to pop beyond stack size. instruction: [4 index: 1, size of stack 1"
    );
    let e = compile(vec![]).err().unwrap();
    assert_eq!(e.describe(&print_float), "Program is empty: []");
    let e = compile(vec![Cmd::Khz(8), Cmd::Fg(Color([1, 2, 3])), Cmd::Comment("a\"b".to_string())])
        .err()
        .unwrap();
    assert_eq!(
        e.describe(&print_float),
        "Program is empty: [Khz(8), Fg(Color([1, 2, 3])), Comment(\"a\\\"b\")]"
    );
}

#[test]
fn compile_error_keeps_instructions() {
    let code = vec![Cmd::Sin, Cmd::Var];
    let e = compile(code.clone()).err().unwrap();
    assert_eq!(e.as_code(), &code[..]);
    assert_eq!(e.into_code(), code);
}

#[test]
fn crash_inputs_decode_time_and_program() {
    let mut data = vec![0u8, 0x01, 0x02, 0, 0, 0, 0, 0, 0x80];
    data.extend_from_slice(b"t 2 *");
    let (time, program) = decode_crash(&data);
    assert!(matches!(time, Val::I(x) if x == (0x8000_0000_0000_0201u64 as i64)));
    assert_eq!(program, b"t 2 *");
    let mut data = vec![1u8];
    data.extend_from_slice(&2.5f64.to_bits().to_le_bytes());
    let (time, program) = decode_crash(&data);
    assert!(matches!(time, Val::F(b) if f64::from_bits(b) == 2.5));
    assert!(program.is_empty());
}
