use vstd::prelude::*;

use crate::cmd::Cmd;
use crate::numbers::{decimal, digit_char, digits_of, push_decimal, push_digits};
use crate::text::{joined, lemma_joined_concat, push_str, str_contains};

verus! {

broadcast use vstd::string::group_string_axioms;

/// The text of a float literal from the printed double: the printed text,
/// with `.0` added when it has no `.`.
pub open spec fn float_text(printed: Seq<char>) -> Seq<char> {
    if printed.contains('.') {
        printed
    } else {
        printed + seq!['.', '0']
    }
}

/// The three hex digits of a color's low nibbles.
pub open spec fn color_digits(c: crate::color::Color) -> Seq<char> {
    seq![
        digit_char((c.0[0] % 16) as int),
        digit_char((c.0[1] % 16) as int),
        digit_char((c.0[2] % 16) as int),
    ]
}

/// The text of one instruction; `pr` prints a double (from its bits).
pub open spec fn cmd_text(c: Cmd, pr: spec_fn(u64) -> Seq<char>) -> Seq<char> {
    match c {
        Cmd::Var => seq!['t'],
        Cmd::NumF(b) => float_text(pr(b)),
        Cmd::NumI(y) => decimal(y as int),
        Cmd::Hex(y) => seq!['0', 'x'] + digits_of((y as u64) as nat, 16),
        Cmd::Add => seq!['+'],
        Cmd::Sub => seq!['-'],
        Cmd::Mul => seq!['*'],
        Cmd::Div => seq!['/'],
        Cmd::Mod => seq!['%'],
        Cmd::Shl => seq!['<', '<'],
        Cmd::Shr => seq!['>', '>'],
        Cmd::And => seq!['&'],
        Cmd::Orr => seq!['|'],
        Cmd::Xor => seq!['^'],
        Cmd::Sin => seq!['s', 'i', 'n'],
        Cmd::Cos => seq!['c', 'o', 's'],
        Cmd::Tan => seq!['t', 'a', 'n'],
        Cmd::Pow => seq!['p', 'o', 'w'],
        Cmd::AddF => seq!['+', '.'],
        Cmd::SubF => seq!['-', '.'],
        Cmd::MulF => seq!['*', '.'],
        Cmd::DivF => seq!['/', '.'],
        Cmd::ModF => seq!['%', '.'],
        Cmd::Lt => seq!['<'],
        Cmd::Gt => seq!['>'],
        Cmd::Leq => seq!['<', '='],
        Cmd::Geq => seq!['>', '='],
        Cmd::Eq => seq!['=', '='],
        Cmd::Neq => seq!['!', '='],
        Cmd::Cond => seq!['?'],
        Cmd::Arr(n) => seq!['['] + digits_of(n as nat, 10),
        Cmd::Fg(col) => seq!['!', 'f', 'g', ':'] + color_digits(col),
        Cmd::Bg(col) => seq!['!', 'b', 'g', ':'] + color_digits(col),
        Cmd::Khz(k) => seq!['!', 'k', 'h', 'z', ':'] + digits_of(k as nat, 10),
        Cmd::Comment(s) => seq!['#'] + s@,
    }
}

/// The text of a program: its instructions separated by single spaces.
pub open spec fn beat_text(cmds: Seq<Cmd>, pr: spec_fn(u64) -> Seq<char>) -> Seq<char> {
    joined(cmds.map_values(|c: Cmd| cmd_text(c, pr)))
}

/// The float printer `p` prints every double as the function `pr` does.
pub open spec fn prints<P: Fn(u64) -> String>(p: P, pr: spec_fn(u64) -> Seq<char>) -> bool {
    forall|b: u64, s: String| #[trigger] p.ensures((b,), s) ==> s@ == pr(b)
}

/// The float printer `p` accepts every double.
pub open spec fn prints_all<P: Fn(u64) -> String>(p: P) -> bool {
    forall|b: u64| #[trigger] p.requires((b,))
}

fn push_chars2(out: &mut String, a: char, b: char)
    ensures
        final(out)@ == old(out)@ + seq![a, b],
{
    out.push(a);
    out.push(b);
    assert(final(out)@ =~= old(out)@ + seq![a, b]);
}

fn push_chars3(out: &mut String, a: char, b: char, c: char)
    ensures
        final(out)@ == old(out)@ + seq![a, b, c],
{
    out.push(a);
    out.push(b);
    out.push(c);
    assert(final(out)@ =~= old(out)@ + seq![a, b, c]);
}

fn push_color(out: &mut String, tag: char, col: crate::color::Color)
    ensures
        final(out)@ == old(out)@ + seq!['!', tag, 'g', ':'] + color_digits(col),
{
    let ghost start = out@;
    out.push('!');
    out.push(tag);
    out.push('g');
    out.push(':');
    push_digits(out, (col.0[0] & 0xF) as u64, 16);
    push_digits(out, (col.0[1] & 0xF) as u64, 16);
    push_digits(out, (col.0[2] & 0xF) as u64, 16);
    proof {
        let r = col.0[0];
        let g = col.0[1];
        let b = col.0[2];
        assert(r & 0xF == r % 16) by (bit_vector);
        assert(g & 0xF == g % 16) by (bit_vector);
        assert(b & 0xF == b % 16) by (bit_vector);
        assert(out@ =~= start + seq!['!', tag, 'g', ':'] + color_digits(col));
    }
}

/// Appends the text of one instruction.
pub fn push_cmd_text<P: Fn(u64) -> String>(out: &mut String, c: &Cmd, print_float: &P)
    requires
        prints_all(*print_float),
    ensures
        forall|pr: spec_fn(u64) -> Seq<char>|
            prints(*print_float, pr) ==> final(out)@ == old(out)@ + cmd_text(*c, pr),
{
    let ghost start = out@;
    match c {
        Cmd::Var => out.push('t'),
        Cmd::NumF(b) => {
            let printed = print_float(*b);
            push_str(out, printed.as_str());
            if !str_contains(printed.as_str(), '.') {
                push_chars2(out, '.', '0');
            }
            proof {
                assert forall|pr: spec_fn(u64) -> Seq<char>| prints(*print_float, pr) implies out@ == start
                    + cmd_text(*c, pr) by {
                    assert(print_float.ensures((*b,), printed));
                    assert(printed@ == pr(*b));
                }
            }
        },
        Cmd::NumI(y) => push_decimal(out, *y),
        Cmd::Hex(y) => {
            push_chars2(out, '0', 'x');
            push_digits(out, *y as u64, 16);
            assert(out@ =~= start + cmd_text(*c, |b: u64| Seq::<char>::empty()));
        },
        Cmd::Add => out.push('+'),
        Cmd::Sub => out.push('-'),
        Cmd::Mul => out.push('*'),
        Cmd::Div => out.push('/'),
        Cmd::Mod => out.push('%'),
        Cmd::Shl => push_chars2(out, '<', '<'),
        Cmd::Shr => push_chars2(out, '>', '>'),
        Cmd::And => out.push('&'),
        Cmd::Orr => out.push('|'),
        Cmd::Xor => out.push('^'),
        Cmd::Sin => push_chars3(out, 's', 'i', 'n'),
        Cmd::Cos => push_chars3(out, 'c', 'o', 's'),
        Cmd::Tan => push_chars3(out, 't', 'a', 'n'),
        Cmd::Pow => push_chars3(out, 'p', 'o', 'w'),
        Cmd::AddF => push_chars2(out, '+', '.'),
        Cmd::SubF => push_chars2(out, '-', '.'),
        Cmd::MulF => push_chars2(out, '*', '.'),
        Cmd::DivF => push_chars2(out, '/', '.'),
        Cmd::ModF => push_chars2(out, '%', '.'),
        Cmd::Lt => out.push('<'),
        Cmd::Gt => out.push('>'),
        Cmd::Leq => push_chars2(out, '<', '='),
        Cmd::Geq => push_chars2(out, '>', '='),
        Cmd::Eq => push_chars2(out, '=', '='),
        Cmd::Neq => push_chars2(out, '!', '='),
        Cmd::Cond => out.push('?'),
        Cmd::Arr(n) => {
            out.push('[');
            push_digits(out, *n as u64, 10);
            assert(out@ =~= start + cmd_text(*c, |b: u64| Seq::<char>::empty()));
        },
        Cmd::Fg(col) => push_color(out, 'f', *col),
        Cmd::Bg(col) => push_color(out, 'b', *col),
        Cmd::Khz(k) => {
            out.push('!');
            push_chars2(out, 'k', 'h');
            push_chars2(out, 'z', ':');
            push_digits(out, *k as u64, 10);
            assert(out@ =~= start + cmd_text(*c, |b: u64| Seq::<char>::empty()));
        },
        Cmd::Comment(text) => {
            out.push('#');
            push_str(out, text.as_str());
            assert(out@ =~= start + cmd_text(*c, |b: u64| Seq::<char>::empty()));
        },
    }
}

/// The text of a program: its instructions separated by single spaces.
/// Doubles are printed by `print_float`, which gets their bits.
pub fn format_beat<P: Fn(u64) -> String>(cmds: &[Cmd], print_float: P) -> (r: String)
    requires
        prints_all(print_float),
    ensures
        forall|pr: spec_fn(u64) -> Seq<char>|
            prints(print_float, pr) ==> r@ == beat_text(cmds@, pr),
{
    let mut out = String::new();
    let n = cmds.len();
    let mut i: usize = 0;
    while i < n
        invariant
            n == cmds@.len(),
            0 <= i <= n,
            prints_all(print_float),
            forall|pr: spec_fn(u64) -> Seq<char>|
                prints(print_float, pr) ==> out@ == beat_text(cmds@.take(i as int), pr),
        decreases n - i,
    {
        let ghost before = out@;
        if i > 0 {
            out.push(' ');
        }
        push_cmd_text(&mut out, &cmds[i], &print_float);
        proof {
            assert forall|pr: spec_fn(u64) -> Seq<char>| prints(print_float, pr) implies out@
                == beat_text(cmds@.take(i + 1), pr) by {
                let ts = cmds@.take(i + 1).map_values(|c: Cmd| cmd_text(c, pr));
                let ts0 = cmds@.take(i as int).map_values(|c: Cmd| cmd_text(c, pr));
                assert(ts.drop_last() =~= ts0);
                assert(ts.last() == cmd_text(cmds@[i as int], pr));
                if i == 0 {
                    assert(ts0.len() == 0);
                }
            }
        }
        i = i + 1;
    }
    assert(cmds@.take(n as int) =~= cmds@);
    out
}

} // verus!

verus! {

/// The text of one instruction.
pub fn cmd_string<P: Fn(u64) -> String>(c: &Cmd, print_float: &P) -> (r: String)
    requires
        prints_all(*print_float),
    ensures
        forall|pr: spec_fn(u64) -> Seq<char>| prints(*print_float, pr) ==> r@ == cmd_text(*c, pr),
{
    let mut out = String::new();
    push_cmd_text(&mut out, c, print_float);
    proof {
        assert forall|pr: spec_fn(u64) -> Seq<char>| prints(*print_float, pr) implies out@ == cmd_text(
            *c,
            pr,
        ) by {
            assert(Seq::<char>::empty() + cmd_text(*c, pr) =~= cmd_text(*c, pr));
        }
    }
    out
}

/// The text of a program is the texts of its parts joined by a space; an
/// empty program prints as nothing and a single instruction as its own text.
pub proof fn lemma_beat_text_concat(a: Seq<Cmd>, b: Seq<Cmd>, c: Cmd, pr: spec_fn(u64) -> Seq<char>)
    ensures
        a.len() > 0 && b.len() > 0 ==> beat_text(a + b, pr) == beat_text(a, pr) + seq![' '] + beat_text(
            b,
            pr,
        ),
        beat_text(Seq::empty(), pr) == Seq::<char>::empty(),
        beat_text(seq![c], pr) == cmd_text(c, pr),
{
    let f = |x: Cmd| cmd_text(x, pr);
    if a.len() > 0 && b.len() > 0 {
        assert((a + b).map_values(f) =~= a.map_values(f) + b.map_values(f));
        lemma_joined_concat(a.map_values(f), b.map_values(f));
    }
    assert(Seq::<Cmd>::empty().map_values(f) =~= Seq::<Seq<char>>::empty());
    assert(seq![c].map_values(f) =~= seq![cmd_text(c, pr)]);
}

} // verus!
