use vstd::prelude::*;

use crate::cmd::Cmd;
use crate::color::Color;
use crate::numbers::{lemma_parse_ignores_case, parse_int, parse_int_at, upper};
use crate::text::{chars_of, spans_match, token_spans, tokens};

verus! {

broadcast use vstd::string::group_string_axioms;

/// A token that does not read as an instruction, with the token and its
/// position among the tokens of the text.
#[derive(Debug, PartialEq, Eq)]
pub enum ParseError<'a> {
    BadArr(&'a str, usize),
    BadFG(&'a str, usize),
    BadBG(&'a str, usize),
    BadKhz(&'a str, usize),
    UnknownToken(&'a str, usize),
}

/// Which rule a token breaks.
#[derive(Debug, Clone, Copy, PartialEq, Eq, Structural)]
pub enum Fault {
    BadArr,
    BadFG,
    BadBG,
    BadKhz,
    UnknownToken,
}

/// What a token stands for.
pub enum Meaning {
    /// An instruction without text.
    Plain(Cmd),
    /// A comment with this text.
    Note(Seq<char>),
    /// No instruction.
    Bad(Fault),
}

impl<'a> ParseError<'a> {
    pub open spec fn fault(self) -> Fault {
        match self {
            ParseError::BadArr(..) => Fault::BadArr,
            ParseError::BadFG(..) => Fault::BadFG,
            ParseError::BadBG(..) => Fault::BadBG,
            ParseError::BadKhz(..) => Fault::BadKhz,
            ParseError::UnknownToken(..) => Fault::UnknownToken,
        }
    }

    pub open spec fn token(self) -> Seq<char> {
        match self {
            ParseError::BadArr(t, _) => t@,
            ParseError::BadFG(t, _) => t@,
            ParseError::BadBG(t, _) => t@,
            ParseError::BadKhz(t, _) => t@,
            ParseError::UnknownToken(t, _) => t@,
        }
    }

    pub open spec fn position(self) -> int {
        match self {
            ParseError::BadArr(_, i) => i as int,
            ParseError::BadFG(_, i) => i as int,
            ParseError::BadBG(_, i) => i as int,
            ParseError::BadKhz(_, i) => i as int,
            ParseError::UnknownToken(_, i) => i as int,
        }
    }
}

/// The instruction that a keyword token names.
pub open spec fn keyword(tok: Seq<char>) -> Option<Cmd> {
    if tok.len() == 1 {
        let c = tok[0];
        if c == 't' {
            Some(Cmd::Var)
        } else if c == '+' {
            Some(Cmd::Add)
        } else if c == '-' {
            Some(Cmd::Sub)
        } else if c == '*' {
            Some(Cmd::Mul)
        } else if c == '/' {
            Some(Cmd::Div)
        } else if c == '%' {
            Some(Cmd::Mod)
        } else if c == '&' {
            Some(Cmd::And)
        } else if c == '|' {
            Some(Cmd::Orr)
        } else if c == '^' {
            Some(Cmd::Xor)
        } else if c == '<' {
            Some(Cmd::Lt)
        } else if c == '>' {
            Some(Cmd::Gt)
        } else if c == '?' {
            Some(Cmd::Cond)
        } else {
            None
        }
    } else if tok.len() == 2 {
        let a = tok[0];
        let b = tok[1];
        if a == '<' && b == '<' {
            Some(Cmd::Shl)
        } else if a == '>' && b == '>' {
            Some(Cmd::Shr)
        } else if a == '+' && b == '.' {
            Some(Cmd::AddF)
        } else if a == '-' && b == '.' {
            Some(Cmd::SubF)
        } else if a == '*' && b == '.' {
            Some(Cmd::MulF)
        } else if a == '/' && b == '.' {
            Some(Cmd::DivF)
        } else if a == '%' && b == '.' {
            Some(Cmd::ModF)
        } else if a == '<' && b == '=' {
            Some(Cmd::Leq)
        } else if a == '>' && b == '=' {
            Some(Cmd::Geq)
        } else if a == '=' && b == '=' {
            Some(Cmd::Eq)
        } else if a == '!' && b == '=' {
            Some(Cmd::Neq)
        } else {
            None
        }
    } else if tok.len() == 3 {
        let a = tok[0];
        let b = tok[1];
        let c = tok[2];
        if a == 's' && b == 'i' && c == 'n' {
            Some(Cmd::Sin)
        } else if a == 'c' && b == 'o' && c == 's' {
            Some(Cmd::Cos)
        } else if a == 't' && b == 'a' && c == 'n' {
            Some(Cmd::Tan)
        } else if a == 'p' && b == 'o' && c == 'w' {
            Some(Cmd::Pow)
        } else {
            None
        }
    } else {
        None
    }
}

pub open spec fn has_prefix(tok: Seq<char>, p: Seq<char>) -> bool {
    tok.len() >= p.len() && tok.take(p.len() as int) == p
}

/// The channel for a 4-bit color digit: the digit repeated in both nibbles.
pub open spec fn widen_nibble(n: int) -> u8 {
    (n * 17) as u8
}

/// The color that a 12-bit code `RGB` names (higher bits are ignored).
pub open spec fn nibble_color(raw: int) -> Color {
    Color(
        [
            widen_nibble((raw / 256) % 16),
            widen_nibble((raw / 16) % 16),
            widen_nibble(raw % 16),
        ],
    )
}

/// What a token stands for. `hex` says whether `0x` literals are read;
/// `rd` reads a float literal (a token with a `.`) to the bits of a double.
pub open spec fn meaning(tok: Seq<char>, rd: spec_fn(Seq<char>) -> Option<u64>, hex: bool) -> Meaning {
    match keyword(tok) {
        Some(c) => Meaning::Plain(c),
        None => if tok.len() > 0 && tok[0] == '[' {
            match parse_int(tok.drop_first(), 10, false, 0, usize::MAX as int) {
                Some(v) => Meaning::Plain(Cmd::Arr(v as usize)),
                None => Meaning::Bad(Fault::BadArr),
            }
        } else if has_prefix(tok, seq!['!', 'f', 'g', ':']) {
            match parse_int(tok.skip(4), 16, false, 0, 0xFFFF) {
                Some(v) => Meaning::Plain(Cmd::Fg(nibble_color(v))),
                None => Meaning::Bad(Fault::BadFG),
            }
        } else if has_prefix(tok, seq!['!', 'b', 'g', ':']) {
            match parse_int(tok.skip(4), 16, false, 0, 0xFFFF) {
                Some(v) => Meaning::Plain(Cmd::Bg(nibble_color(v))),
                None => Meaning::Bad(Fault::BadBG),
            }
        } else if has_prefix(tok, seq!['!', 'k', 'h', 'z', ':']) {
            match parse_int(tok.skip(5), 10, false, 0, 255) {
                Some(v) => Meaning::Plain(Cmd::Khz(v as u8)),
                None => Meaning::Bad(Fault::BadKhz),
            }
        } else if tok.len() > 0 && tok[0] == '#' {
            Meaning::Note(tok.drop_first())
        } else if hex && has_prefix(tok, seq!['0', 'x']) {
            match parse_int(tok.skip(2), 16, true, i64::MIN as int, i64::MAX as int) {
                Some(v) => Meaning::Plain(Cmd::Hex(v as i64)),
                None => Meaning::Bad(Fault::UnknownToken),
            }
        } else if tok.contains('.') {
            match rd(tok) {
                Some(b) => Meaning::Plain(Cmd::NumF(b)),
                None => Meaning::Bad(Fault::UnknownToken),
            }
        } else {
            match parse_int(tok, 10, true, i64::MIN as int, i64::MAX as int) {
                Some(v) => Meaning::Plain(Cmd::NumI(v as i64)),
                None => Meaning::Bad(Fault::UnknownToken),
            }
        },
    }
}

/// The instruction `c` is what the meaning `m` describes.
pub open spec fn denotes(m: Meaning, c: Cmd) -> bool {
    match m {
        Meaning::Plain(k) => c == k,
        Meaning::Note(t) => c matches Cmd::Comment(s) && s@ == t,
        Meaning::Bad(_) => false,
    }
}

/// The position of the first of the first `n` tokens that reads as nothing.
pub open spec fn first_fault(
    toks: Seq<Seq<char>>,
    rd: spec_fn(Seq<char>) -> Option<u64>,
    hex: bool,
    n: int,
) -> Option<int>
    decreases n,
{
    if n <= 0 {
        None
    } else {
        match first_fault(toks, rd, hex, n - 1) {
            Some(i) => Some(i),
            None => if meaning(toks[n - 1], rd, hex) is Bad {
                Some(n - 1)
            } else {
                None
            },
        }
    }
}

/// The float reader `f` reads every literal as the function `rd` does.
pub open spec fn reads<R: Fn(&str) -> Option<u64>>(f: R, rd: spec_fn(Seq<char>) -> Option<u64>) -> bool {
    forall|s: &str, r: Option<u64>| #[trigger] f.ensures((s,), r) ==> r == rd(s@)
}

/// The float reader `f` accepts every literal.
pub open spec fn reads_all<R: Fn(&str) -> Option<u64>>(f: R) -> bool {
    forall|s: &str| #[trigger] f.requires((s,))
}

/// `cmds` is what the tokens `toks` read as, one instruction per token.
pub open spec fn reads_to(
    toks: Seq<Seq<char>>,
    rd: spec_fn(Seq<char>) -> Option<u64>,
    hex: bool,
    cmds: Seq<Cmd>,
) -> bool {
    &&& cmds.len() == toks.len()
    &&& forall|i: int| 0 <= i < toks.len() ==> denotes(meaning(toks[i], rd, hex), #[trigger] cmds[i])
}

} // verus!

verus! {

fn keyword_exec(s: &Vec<char>, a: usize, b: usize) -> (r: Option<Cmd>)
    requires
        a <= b <= s@.len(),
    ensures
        r == keyword(s@.subrange(a as int, b as int)),
{
    let ghost tok = s@.subrange(a as int, b as int);
    let n = b - a;
    if n == 1 {
        let c = s[a];
        assert(tok[0] == c);
        if c == 't' {
            Some(Cmd::Var)
        } else if c == '+' {
            Some(Cmd::Add)
        } else if c == '-' {
            Some(Cmd::Sub)
        } else if c == '*' {
            Some(Cmd::Mul)
        } else if c == '/' {
            Some(Cmd::Div)
        } else if c == '%' {
            Some(Cmd::Mod)
        } else if c == '&' {
            Some(Cmd::And)
        } else if c == '|' {
            Some(Cmd::Orr)
        } else if c == '^' {
            Some(Cmd::Xor)
        } else if c == '<' {
            Some(Cmd::Lt)
        } else if c == '>' {
            Some(Cmd::Gt)
        } else if c == '?' {
            Some(Cmd::Cond)
        } else {
            None
        }
    } else if n == 2 {
        let x = s[a];
        let y = s[a + 1];
        assert(tok[0] == x && tok[1] == y);
        if x == '<' && y == '<' {
            Some(Cmd::Shl)
        } else if x == '>' && y == '>' {
            Some(Cmd::Shr)
        } else if x == '+' && y == '.' {
            Some(Cmd::AddF)
        } else if x == '-' && y == '.' {
            Some(Cmd::SubF)
        } else if x == '*' && y == '.' {
            Some(Cmd::MulF)
        } else if x == '/' && y == '.' {
            Some(Cmd::DivF)
        } else if x == '%' && y == '.' {
            Some(Cmd::ModF)
        } else if x == '<' && y == '=' {
            Some(Cmd::Leq)
        } else if x == '>' && y == '=' {
            Some(Cmd::Geq)
        } else if x == '=' && y == '=' {
            Some(Cmd::Eq)
        } else if x == '!' && y == '=' {
            Some(Cmd::Neq)
        } else {
            None
        }
    } else if n == 3 {
        let x = s[a];
        let y = s[a + 1];
        let z = s[a + 2];
        assert(tok[0] == x && tok[1] == y && tok[2] == z);
        if x == 's' && y == 'i' && z == 'n' {
            Some(Cmd::Sin)
        } else if x == 'c' && y == 'o' && z == 's' {
            Some(Cmd::Cos)
        } else if x == 't' && y == 'a' && z == 'n' {
            Some(Cmd::Tan)
        } else if x == 'p' && y == 'o' && z == 'w' {
            Some(Cmd::Pow)
        } else {
            None
        }
    } else {
        None
    }
}

fn nibble_color_exec(raw: u16) -> (c: Color)
    ensures
        c == nibble_color(raw as int),
{
    let r = (raw >> 8 & 0xF) as u8;
    let g = (raw >> 4 & 0xF) as u8;
    let b = (raw & 0xF) as u8;
    assert(r == (raw / 256) % 16) by (bit_vector)
        requires
            r == (raw >> 8 & 0xF) as u8,
    ;
    assert(g == (raw / 16) % 16) by (bit_vector)
        requires
            g == (raw >> 4 & 0xF) as u8,
    ;
    assert(b == raw % 16) by (bit_vector)
        requires
            b == (raw & 0xF) as u8,
    ;
    assert(r << 4 | r == r * 17) by (bit_vector)
        requires
            r < 16,
    ;
    assert(g << 4 | g == g * 17) by (bit_vector)
        requires
            g < 16,
    ;
    assert(b << 4 | b == b * 17) by (bit_vector)
        requires
            b < 16,
    ;
    let col = Color([r << 4 | r, g << 4 | g, b << 4 | b]);
    assert(col.0@ =~= nibble_color(raw as int).0@);
    col
}

fn has_dot(s: &Vec<char>, a: usize, b: usize) -> (r: bool)
    requires
        a <= b <= s@.len(),
    ensures
        r == s@.subrange(a as int, b as int).contains('.'),
{
    let ghost tok = s@.subrange(a as int, b as int);
    let mut i = a;
    while i < b
        invariant
            a <= i <= b <= s@.len(),
            tok == s@.subrange(a as int, b as int),
            forall|j: int| 0 <= j < i - a ==> tok[j] != '.',
        decreases b - i,
    {
        if s[i] == '.' {
            assert(tok[i - a] == '.');
            return true;
        }
        i = i + 1;
    }
    false
}

/// Reads one token `s[a..b]` of `text` (whose characters `s` are).
fn read_token<R: Fn(&str) -> Option<u64>>(
    text: &str,
    s: &Vec<char>,
    a: usize,
    b: usize,
    read_float: &R,
    hex: bool,
) -> (r: Result<Cmd, Fault>)
    requires
        s@ == text@,
        a < b <= s@.len(),
        reads_all(*read_float),
    ensures
        forall|rd: spec_fn(Seq<char>) -> Option<u64>|
            reads(*read_float, rd) ==> match r {
                Ok(c) => denotes(meaning(s@.subrange(a as int, b as int), rd, hex), c),
                Err(f) => meaning(s@.subrange(a as int, b as int), rd, hex) == Meaning::Bad(f),
            },
{
    let ghost tok = s@.subrange(a as int, b as int);
    let n = b - a;
    match keyword_exec(s, a, b) {
        Some(c) => {
            return Ok(c);
        },
        None => {},
    }
    let c0 = s[a];
    assert(tok[0] == c0);
    if c0 == '[' {
        assert(tok.drop_first() == s@.subrange(a + 1, b as int));
        return match parse_int_at(s, a + 1, b, 10, false, 0, usize::MAX as i128) {
            Some(v) => Ok(Cmd::Arr(v as usize)),
            None => Err(Fault::BadArr),
        };
    }
    let fg = n >= 4 && c0 == '!' && s[a + 1] == 'f' && s[a + 2] == 'g' && s[a + 3] == ':';
    let bg = n >= 4 && c0 == '!' && s[a + 1] == 'b' && s[a + 2] == 'g' && s[a + 3] == ':';
    proof {
        if n >= 4 {
            assert(has_prefix(tok, seq!['!', 'f', 'g', ':']) == fg) by {
                if fg {
                    assert(tok.take(4) =~= seq!['!', 'f', 'g', ':']);
                } else {
                    if tok.take(4) == seq!['!', 'f', 'g', ':'] {
                        assert(tok.take(4)[1] == tok[1]);
                        assert(tok.take(4)[2] == tok[2]);
                        assert(tok.take(4)[3] == tok[3]);
                    }
                }
            }
            assert(has_prefix(tok, seq!['!', 'b', 'g', ':']) == bg) by {
                if bg {
                    assert(tok.take(4) =~= seq!['!', 'b', 'g', ':']);
                } else {
                    if tok.take(4) == seq!['!', 'b', 'g', ':'] {
                        assert(tok.take(4)[1] == tok[1]);
                        assert(tok.take(4)[2] == tok[2]);
                        assert(tok.take(4)[3] == tok[3]);
                    }
                }
            }
            assert(tok.skip(4) == s@.subrange(a + 4, b as int));
        }
    }
    if fg || bg {
        let raw = parse_int_at(s, a + 4, b, 16, false, 0, 0xFFFF);
        return match raw {
            Some(v) => {
                let col = nibble_color_exec(v as u16);
                if fg {
                    Ok(Cmd::Fg(col))
                } else {
                    Ok(Cmd::Bg(col))
                }
            },
            None => if fg {
                Err(Fault::BadFG)
            } else {
                Err(Fault::BadBG)
            },
        };
    }
    let khz = n >= 5 && c0 == '!' && s[a + 1] == 'k' && s[a + 2] == 'h' && s[a + 3] == 'z' && s[a
        + 4] == ':';
    proof {
        if n >= 5 {
            assert(has_prefix(tok, seq!['!', 'k', 'h', 'z', ':']) == khz) by {
                if khz {
                    assert(tok.take(5) =~= seq!['!', 'k', 'h', 'z', ':']);
                } else {
                    if tok.take(5) == seq!['!', 'k', 'h', 'z', ':'] {
                        assert(tok.take(5)[1] == tok[1]);
                        assert(tok.take(5)[2] == tok[2]);
                        assert(tok.take(5)[3] == tok[3]);
                        assert(tok.take(5)[4] == tok[4]);
                    }
                }
            }
            assert(tok.skip(5) == s@.subrange(a + 5, b as int));
        }
    }
    if khz {
        return match parse_int_at(s, a + 5, b, 10, false, 0, 255) {
            Some(v) => Ok(Cmd::Khz(v as u8)),
            None => Err(Fault::BadKhz),
        };
    }
    if c0 == '#' {
        let body = text.substring_char(a + 1, b);
        let note = body.to_owned();
        assert(tok.drop_first() == s@.subrange(a + 1, b as int));
        return Ok(Cmd::Comment(note));
    }
    let hex_prefix = n >= 2 && c0 == '0' && s[a + 1] == 'x';
    proof {
        if n >= 2 {
            assert(has_prefix(tok, seq!['0', 'x']) == hex_prefix) by {
                if hex_prefix {
                    assert(tok.take(2) =~= seq!['0', 'x']);
                } else {
                    if tok.take(2) == seq!['0', 'x'] {
                        assert(tok.take(2)[1] == tok[1]);
                    }
                }
            }
            assert(tok.skip(2) == s@.subrange(a + 2, b as int));
        }
    }
    if hex && hex_prefix {
        return match parse_int_at(s, a + 2, b, 16, true, i64::MIN as i128, i64::MAX as i128) {
            Some(v) => Ok(Cmd::Hex(v as i64)),
            None => Err(Fault::UnknownToken),
        };
    }
    if has_dot(s, a, b) {
        let lit = text.substring_char(a, b);
        let bits = read_float(lit);
        proof {
            assert(lit@ == tok);
            assert forall|rd: spec_fn(Seq<char>) -> Option<u64>| reads(*read_float, rd) implies bits
                == rd(tok) by {
                assert(read_float.ensures((lit,), bits));
            }
        }
        return match bits {
            Some(b) => Ok(Cmd::NumF(b)),
            None => Err(Fault::UnknownToken),
        };
    }
    match parse_int_at(s, a, b, 10, true, i64::MIN as i128, i64::MAX as i128) {
        Some(v) => Ok(Cmd::NumI(v as i64)),
        None => Err(Fault::UnknownToken),
    }
}

} // verus!

verus! {

proof fn lemma_first_fault_stable(
    toks: Seq<Seq<char>>,
    rd: spec_fn(Seq<char>) -> Option<u64>,
    hex: bool,
    k: int,
    n: int,
)
    requires
        0 <= k < n,
        first_fault(toks, rd, hex, k + 1) == Some(k),
    ensures
        first_fault(toks, rd, hex, n) == Some(k),
    decreases n - k,
{
    if n > k + 1 {
        lemma_first_fault_stable(toks, rd, hex, k, n - 1);
    }
}

/// Reads every token; on failure, the position of the first bad token and
/// the rule it breaks.
fn read_all<R: Fn(&str) -> Option<u64>>(
    text: &str,
    s: &Vec<char>,
    spans: &Vec<(usize, usize)>,
    read_float: &R,
    hex: bool,
) -> (r: Result<Vec<Cmd>, (usize, Fault)>)
    requires
        s@ == text@,
        spans_match(s@, spans@, tokens(s@)),
        reads_all(*read_float),
    ensures
        r matches Err((k, _)) ==> k < tokens(s@).len(),
        forall|rd: spec_fn(Seq<char>) -> Option<u64>|
            reads(*read_float, rd) ==> match r {
                Ok(cmds) => first_fault(tokens(s@), rd, hex, tokens(s@).len() as int) is None
                    && reads_to(tokens(s@), rd, hex, cmds@),
                Err((k, f)) => k < tokens(s@).len() && first_fault(
                    tokens(s@),
                    rd,
                    hex,
                    tokens(s@).len() as int,
                ) == Some(k as int) && meaning(tokens(s@)[k as int], rd, hex) == Meaning::Bad(f),
            },
{
    let ghost toks = tokens(s@);
    let n = spans.len();
    let mut cmds: Vec<Cmd> = Vec::new();
    let mut k: usize = 0;
    while k < n
        invariant
            s@ == text@,
            spans_match(s@, spans@, toks),
            toks == tokens(s@),
            reads_all(*read_float),
            n == spans@.len(),
            0 <= k <= n,
            cmds@.len() == k,
            forall|rd: spec_fn(Seq<char>) -> Option<u64>|
                reads(*read_float, rd) ==> {
                    &&& first_fault(toks, rd, hex, k as int) is None
                    &&& forall|i: int|
                        0 <= i < k ==> denotes(meaning(toks[i], rd, hex), #[trigger] cmds@[i])
                },
        decreases n - k,
    {
        let (a, b) = spans[k];
        assert(spans@[k as int] == (a, b));
        match read_token(text, s, a, b, read_float, hex) {
            Ok(c) => {
                cmds.push(c);
            },
            Err(f) => {
                proof {
                    assert forall|rd: spec_fn(Seq<char>) -> Option<u64>| reads(*read_float, rd) implies first_fault(
                        toks,
                        rd,
                        hex,
                        toks.len() as int,
                    ) == Some(k as int) by {
                        lemma_first_fault_stable(toks, rd, hex, k as int, toks.len() as int);
                    }
                }
                return Err((k, f));
            },
        }
        k = k + 1;
    }
    Ok(cmds)
}

/// Splits `text` at white space and reads every token as an instruction.
/// Float literals (tokens with a `.` that no other rule claims) are read by
/// `read_float`, which gives the bits of the double or `None`.
pub fn parse_beat<'a, R: Fn(&str) -> Option<u64>>(text: &'a str, read_float: R) -> (r: Result<
    Vec<Cmd>,
    ParseError<'a>,
>)
    requires
        reads_all(read_float),
    ensures
        forall|rd: spec_fn(Seq<char>) -> Option<u64>|
            reads(read_float, rd) ==> match r {
                Ok(cmds) => first_fault(tokens(text@), rd, true, tokens(text@).len() as int) is None
                    && reads_to(tokens(text@), rd, true, cmds@),
                Err(e) => first_fault(tokens(text@), rd, true, tokens(text@).len() as int) == Some(
                    e.position(),
                ) && e.token() == tokens(text@)[e.position()] && meaning(
                    tokens(text@)[e.position()],
                    rd,
                    true,
                ) == Meaning::Bad(e.fault()),
            },
{
    let s = chars_of(text);
    let spans = token_spans(&s);
    match read_all(text, &s, &spans, &read_float, true) {
        Ok(cmds) => Ok(cmds),
        Err((k, f)) => {
            let (a, b) = spans[k];
            assert(spans@[k as int] == (a, b));
            let tok = text.substring_char(a, b);
            Err(
                match f {
                    Fault::BadArr => ParseError::BadArr(tok, k),
                    Fault::BadFG => ParseError::BadFG(tok, k),
                    Fault::BadBG => ParseError::BadBG(tok, k),
                    Fault::BadKhz => ParseError::BadKhz(tok, k),
                    Fault::UnknownToken => ParseError::UnknownToken(tok, k),
                },
            )
        },
    }
}

/// Reads every token of `text` with the classic rules (no `0x` literals);
/// on failure, the first token that reads as nothing.
pub fn parse_classic<'a, R: Fn(&str) -> Option<u64>>(text: &'a str, read_float: R) -> (r: Result<
    Vec<Cmd>,
    &'a str,
>)
    requires
        reads_all(read_float),
    ensures
        forall|rd: spec_fn(Seq<char>) -> Option<u64>|
            reads(read_float, rd) ==> match r {
                Ok(cmds) => first_fault(tokens(text@), rd, false, tokens(text@).len() as int) is None
                    && reads_to(tokens(text@), rd, false, cmds@),
                Err(tok) => exists|k: int|
                    first_fault(tokens(text@), rd, false, tokens(text@).len() as int) == Some(k)
                        && tok@ == #[trigger] tokens(text@)[k],
            },
{
    let s = chars_of(text);
    let spans = token_spans(&s);
    match read_all(text, &s, &spans, &read_float, false) {
        Ok(cmds) => Ok(cmds),
        Err((k, f)) => {
            let (a, b) = spans[k];
            assert(spans@[k as int] == (a, b));
            Err(text.substring_char(a, b))
        },
    }
}

} // verus!

verus! {

/// The message for a parse error: what is wrong, the token and its position.
pub open spec fn error_message(e: ParseError) -> Seq<char> {
    let what = match e {
        ParseError::BadArr(..) => "Bad Array op: "@,
        ParseError::BadFG(..) => "Bad Foreground Color: "@,
        ParseError::BadBG(..) => "Bad Background Color: "@,
        ParseError::BadKhz(..) => "Bad Sample Rate: "@,
        ParseError::UnknownToken(..) => "Unknown Token: "@,
    };
    what + e.token() + ", index: "@ + crate::numbers::digits_of(e.position() as nat, 10)
}

impl<'a> ParseError<'a> {
    /// The message for this error, e.g. `Unknown Token: x, index: 3`.
    pub fn describe(&self) -> (r: String)
        ensures
            r@ == error_message(*self),
    {
        let (what, token, index) = match self {
            ParseError::BadArr(t, i) => ("Bad Array op: ", *t, *i),
            ParseError::BadFG(t, i) => ("Bad Foreground Color: ", *t, *i),
            ParseError::BadBG(t, i) => ("Bad Background Color: ", *t, *i),
            ParseError::BadKhz(t, i) => ("Bad Sample Rate: ", *t, *i),
            ParseError::UnknownToken(t, i) => ("Unknown Token: ", *t, *i),
        };
        let mut out = String::new();
        crate::text::push_str(&mut out, what);
        crate::text::push_str(&mut out, token);
        crate::text::push_str(&mut out, ", index: ");
        crate::numbers::push_unsigned(&mut out, index as u64);
        assert(out@ =~= error_message(*self));
        out
    }
}

} // verus!

verus! {

/// The letter digits of a `0x` token may be written in either case: `0xff`
/// means what `0xFF` means.
pub proof fn lemma_hex_literal_ignores_case(d: Seq<char>, rd: spec_fn(Seq<char>) -> Option<u64>)
    ensures
        meaning(seq!['0', 'x'] + d.map_values(|c: char| upper(c)), rd, true) == meaning(
            seq!['0', 'x'] + d,
            rd,
            true,
        ),
{
    let u = d.map_values(|c: char| upper(c));
    lemma_parse_ignores_case(d, 16, true, i64::MIN as int, i64::MAX as int);
    let h1 = seq!['0', 'x'] + u;
    let h2 = seq!['0', 'x'] + d;
    assert(h1.take(2) =~= seq!['0', 'x'] && h2.take(2) =~= seq!['0', 'x']);
    assert(h1.skip(2) =~= u && h2.skip(2) =~= d);
    assert(h1[0] == '0' && h2[0] == '0' && h1.len() >= 2 && h2.len() >= 2);
    assert(keyword(h1) is None && keyword(h2) is None);
    assert(!has_prefix(h1, seq!['!', 'f', 'g', ':']) && !has_prefix(h2, seq!['!', 'f', 'g', ':'])) by {
        if h1.len() >= 4 { assert(h1.take(4)[0] == '0'); }
        if h2.len() >= 4 { assert(h2.take(4)[0] == '0'); }
    }
    assert(!has_prefix(h1, seq!['!', 'b', 'g', ':']) && !has_prefix(h2, seq!['!', 'b', 'g', ':'])) by {
        if h1.len() >= 4 { assert(h1.take(4)[0] == '0'); }
        if h2.len() >= 4 { assert(h2.take(4)[0] == '0'); }
    }
    assert(!has_prefix(h1, seq!['!', 'k', 'h', 'z', ':']) && !has_prefix(h2, seq!['!', 'k', 'h', 'z', ':'])) by {
        if h1.len() >= 5 { assert(h1.take(5)[0] == '0'); }
        if h2.len() >= 5 { assert(h2.take(5)[0] == '0'); }
    }
}

/// The letter digits of a `!fg:` token may be written in either case:
/// `!fg:fff` means what `!fg:FFF` means.
pub proof fn lemma_color_ignores_case(d: Seq<char>, rd: spec_fn(Seq<char>) -> Option<u64>)
    ensures
        meaning(seq!['!', 'f', 'g', ':'] + d.map_values(|c: char| upper(c)), rd, true) == meaning(
            seq!['!', 'f', 'g', ':'] + d,
            rd,
            true,
        ),
        meaning(seq!['!', 'b', 'g', ':'] + d.map_values(|c: char| upper(c)), rd, true) == meaning(
            seq!['!', 'b', 'g', ':'] + d,
            rd,
            true,
        ),
{
    let u = d.map_values(|c: char| upper(c));
    lemma_parse_ignores_case(d, 16, false, 0, 0xFFFF);
    let f1 = seq!['!', 'f', 'g', ':'] + u;
    let f2 = seq!['!', 'f', 'g', ':'] + d;
    assert(f1.take(4) =~= seq!['!', 'f', 'g', ':'] && f2.take(4) =~= seq!['!', 'f', 'g', ':']);
    assert(f1.skip(4) =~= u && f2.skip(4) =~= d);
    assert(f1[0] == '!' && f2[0] == '!' && f1.len() >= 4 && f2.len() >= 4);
    assert(keyword(f1) is None && keyword(f2) is None);
    let b1 = seq!['!', 'b', 'g', ':'] + u;
    let b2 = seq!['!', 'b', 'g', ':'] + d;
    assert(b1.take(4) =~= seq!['!', 'b', 'g', ':'] && b2.take(4) =~= seq!['!', 'b', 'g', ':']);
    assert(b1.skip(4) =~= u && b2.skip(4) =~= d);
    assert(b1[0] == '!' && b2[0] == '!' && b1.len() >= 4 && b2.len() >= 4);
    assert(keyword(b1) is None && keyword(b2) is None);
    assert(!has_prefix(b1, seq!['!', 'f', 'g', ':']) && !has_prefix(b2, seq!['!', 'f', 'g', ':'])) by {
        assert(b1.take(4)[1] == 'b' && b2.take(4)[1] == 'b');
    }
}

} // verus!
