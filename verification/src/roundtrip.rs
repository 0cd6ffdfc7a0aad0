use vstd::prelude::*;

use crate::cmd::Cmd;
use crate::format::{beat_text, cmd_text, color_digits, float_text};
use crate::numbers::{
    decimal, digit_char, digits_of, is_digit_char, lemma_digit_chars, lemma_digits_roundtrip,
    lemma_parse_decimal, lemma_parse_digits,
};
use crate::parse::{denotes, first_fault, has_prefix, meaning, reads_to, Meaning};
use crate::text::{is_space, joined, tokens};

verus! {

/// A word: at least one character and no white space.
pub open spec fn is_word(t: Seq<char>) -> bool {
    t.len() > 0 && forall|i: int| 0 <= i < t.len() ==> !is_space(#[trigger] t[i])
}

proof fn lemma_tokens_word(x: Seq<char>, t: Seq<char>)
    requires
        x.len() == 0 || is_space(x.last()),
        is_word(t),
    ensures
        tokens(x + t) == tokens(x).push(t),
    decreases t.len(),
{
    let s = x + t;
    assert(s.drop_last() == x + t.drop_last());
    if t.len() == 1 {
        assert(x + t.drop_last() == x);
        assert(seq![t.last()] == t);
    } else {
        assert(is_word(t.drop_last()));
        lemma_tokens_word(x, t.drop_last());
        assert(s[s.len() - 2] == t[t.len() - 2]);
        assert(t.drop_last().push(t.last()) == t);
    }
}

proof fn lemma_tokens_joined(ts: Seq<Seq<char>>)
    requires
        forall|i: int| 0 <= i < ts.len() ==> is_word(#[trigger] ts[i]),
    ensures
        tokens(joined(ts)) == ts,
    decreases ts.len(),
{
    if ts.len() == 0 {
    } else if ts.len() == 1 {
        lemma_tokens_word(Seq::empty(), ts[0]);
        assert(Seq::<char>::empty() + ts[0] == ts[0]);
        assert(Seq::<Seq<char>>::empty().push(ts[0]) == ts);
    } else {
        let init = ts.drop_last();
        assert forall|i: int| 0 <= i < init.len() implies is_word(#[trigger] init[i]) by {
            assert(init[i] == ts[i]);
        }
        lemma_tokens_joined(init);
        let x = joined(init) + seq![' '];
        assert(x.drop_last() == joined(init));
        assert(tokens(x) == tokens(joined(init)));
        assert(is_word(ts[ts.len() - 1]));
        lemma_tokens_word(x, ts.last());
        assert(init.push(ts.last()) == ts);
    }
}

/// An instruction that comes back unchanged through its text: `0x`
/// literals that are not negative, colors whose channels are a hex digit
/// repeated (`0x00`, `0x11`, ..., `0xFF`), comments without white space, and
/// doubles whose printed text reads back to the same bits.
pub open spec fn printable(c: Cmd, pr: spec_fn(u64) -> Seq<char>, rd: spec_fn(Seq<char>) -> Option<u64>) -> bool {
    match c {
        Cmd::Hex(y) => y >= 0,
        Cmd::Fg(col) | Cmd::Bg(col) => col.0[0] % 17 == 0 && col.0[1] % 17 == 0 && col.0[2] % 17
            == 0,
        Cmd::Comment(s) => forall|i: int| 0 <= i < s@.len() ==> !is_space(#[trigger] s@[i]),
        Cmd::NumF(b) => is_word(float_text(pr(b))) && meaning(float_text(pr(b)), rd, true)
            == Meaning::Plain(Cmd::NumF(b)),
        _ => true,
    }
}

} // verus!

verus! {

proof fn lemma_three_hex_digits(r: int, g: int, b: int)
    requires
        0 <= r < 16,
        0 <= g < 16,
        0 <= b < 16,
    ensures
        crate::numbers::parse_int(seq![digit_char(r), digit_char(g), digit_char(b)], 16, false, 0, 0xFFFF)
            == Some(r * 256 + g * 16 + b),
{
    let d = seq![digit_char(r), digit_char(g), digit_char(b)];
    assert(crate::numbers::digit_value(digit_char(r)) == r);
    assert(crate::numbers::digit_value(digit_char(g)) == g);
    assert(crate::numbers::digit_value(digit_char(b)) == b);
    assert(d.drop_last().drop_last().drop_last() =~= Seq::<char>::empty());
    assert(d.drop_last().drop_last() =~= seq![digit_char(r)]);
    assert(d.drop_last() =~= seq![digit_char(r), digit_char(g)]);
    assert(seq![digit_char(r)].drop_last() =~= Seq::<char>::empty());
    assert(seq![digit_char(r)].last() == digit_char(r));
    assert(crate::numbers::digits_value(Seq::<char>::empty(), 16) == 0);
    assert(crate::numbers::digits_value(seq![digit_char(r)], 16) == r);
    assert(crate::numbers::digits_value(d.drop_last(), 16) == r * 16 + g);
    assert(crate::numbers::digits_value(d, 16) == (r * 16 + g) * 16 + b);
    assert(crate::numbers::all_digits(d, 16));
}

proof fn lemma_nibbles(r: int, g: int, b: int)
    requires
        0 <= r < 16,
        0 <= g < 16,
        0 <= b < 16,
    ensures
        ((r * 256 + g * 16 + b) / 256) % 16 == r,
        ((r * 256 + g * 16 + b) / 16) % 16 == g,
        (r * 256 + g * 16 + b) % 16 == b,
{
    assert(((r * 256 + g * 16 + b) / 256) % 16 == r) by (nonlinear_arith)
        requires
            0 <= r < 16,
            0 <= g < 16,
            0 <= b < 16,
    ;
    assert(((r * 256 + g * 16 + b) / 16) % 16 == g) by (nonlinear_arith)
        requires
            0 <= r < 16,
            0 <= g < 16,
            0 <= b < 16,
    ;
    assert((r * 256 + g * 16 + b) % 16 == b) by (nonlinear_arith)
        requires
            0 <= r < 16,
            0 <= g < 16,
            0 <= b < 16,
    ;
}

proof fn lemma_repeated_nibble(c: u8)
    requires
        c % 17 == 0,
    ensures
        crate::parse::widen_nibble((c % 16) as int) == c,
{
    assert(((c % 16) * 17) as u8 == c) by (bit_vector)
        requires
            c % 17 == 0,
    ;
}

proof fn lemma_color_reads_back(tag: char, col: crate::color::Color)
    requires
        col.0[0] % 17 == 0 && col.0[1] % 17 == 0 && col.0[2] % 17 == 0,
        tag == 'f' || tag == 'b',
    ensures
        ({
            let t = seq!['!', tag, 'g', ':'] + color_digits(col);
            &&& is_word(t)
            &&& t.skip(4) == color_digits(col)
            &&& crate::numbers::parse_int(color_digits(col), 16, false, 0, 0xFFFF) == Some(
                (col.0[0] % 16) * 256 + (col.0[1] % 16) * 16 + col.0[2] % 16,
            )
            &&& crate::parse::nibble_color(
                (col.0[0] % 16) * 256 + (col.0[1] % 16) * 16 + col.0[2] % 16,
            ) == col
        }),
{
    let r = (col.0[0] % 16) as int;
    let g = (col.0[1] % 16) as int;
    let b = (col.0[2] % 16) as int;
    let d = color_digits(col);
    let t = seq!['!', tag, 'g', ':'] + d;
    assert(t.skip(4) =~= d);
    lemma_three_hex_digits(r, g, b);
    lemma_nibbles(r, g, b);
    lemma_repeated_nibble(col.0[0]);
    lemma_repeated_nibble(col.0[1]);
    lemma_repeated_nibble(col.0[2]);
    let c2 = crate::parse::nibble_color(r * 256 + g * 16 + b);
    assert(c2.0@ =~= col.0@);
    assert(c2.0 =~= col.0);
    lemma_digit_char_not_space(r);
    lemma_digit_char_not_space(g);
    lemma_digit_char_not_space(b);
    assert forall|i: int| 0 <= i < t.len() implies !is_space(#[trigger] t[i]) by {
        if i >= 4 {
            assert(t[i] == d[i - 4]);
        }
    }
    assert(is_word(t));
    assert(crate::numbers::parse_int(d, 16, false, 0, 0xFFFF) == Some(r * 256 + g * 16 + b));
    assert(c2 == col);
}

proof fn lemma_digit_char_not_space(x: int)
    requires
        0 <= x < 36,
    ensures
        !is_space(digit_char(x)),
        is_digit_char(digit_char(x)),
{
}

} // verus!

verus! {

proof fn lemma_decimal_word(y: int)
    ensures
        is_word(decimal(y)),
        !decimal(y).contains('.'),
        decimal(y).len() >= 1,
        decimal(y)[0] != '[' && decimal(y)[0] != '!' && decimal(y)[0] != '#',
        decimal(y).len() >= 2 ==> decimal(y)[1] != 'x' && decimal(y)[1] != '.' && decimal(y)[1]
            != '=' && decimal(y)[1] != '<' && decimal(y)[1] != '>',
        decimal(y).len() == 1 ==> 0x30 <= decimal(y)[0] as u32 <= 0x39,
        decimal(y).len() == 3 ==> decimal(y)[0] == '-' || 0x30 <= decimal(y)[0] as u32 <= 0x39,
{
    let n: nat = if y < 0 {
        (-y) as nat
    } else {
        y as nat
    };
    let ds = digits_of(n, 10);
    lemma_digits_roundtrip(n, 10);
    lemma_digit_chars(n, 10);
    let t = decimal(y);
    if y < 0 {
        assert(t == seq!['-'] + ds);
        assert forall|i: int| 0 <= i < t.len() implies !is_space(#[trigger] t[i]) && t[i] != '.' by {
            if i > 0 {
                assert(t[i] == ds[i - 1]);
            }
        }
        if t.len() >= 2 {
            assert(t[1] == ds[0]);
        }
    } else {
        assert forall|i: int| 0 <= i < t.len() implies !is_space(#[trigger] t[i]) && t[i] != '.' by {
            assert(0x30 <= ds[i] as u32 <= 0x39);
        }
        assert(0x30 <= ds[0] as u32 <= 0x39);
        if t.len() >= 2 {
            assert(0x30 <= ds[1] as u32 <= 0x39);
        }
    }
}

proof fn lemma_tagged_digits(p: Seq<char>, n: nat, radix: nat)
    requires
        2 <= radix <= 36,
        p.len() > 0,
        forall|i: int| 0 <= i < p.len() ==> !is_space(#[trigger] p[i]),
    ensures
        is_word(p + digits_of(n, radix)),
        (p + digits_of(n, radix)).skip(p.len() as int) == digits_of(n, radix),
        (p + digits_of(n, radix))[0] == p[0],
        (p + digits_of(n, radix)).len() >= p.len() + 1,
        forall|i: int|
            p.len() <= i < (p + digits_of(n, radix)).len() ==> is_digit_char(
                #[trigger] (p + digits_of(n, radix))[i],
            ),
{
    let ds = digits_of(n, radix);
    let t = p + ds;
    lemma_digits_roundtrip(n, radix);
    lemma_digit_chars(n, radix);
    assert(t.skip(p.len() as int) =~= ds);
    assert forall|i: int| 0 <= i < t.len() implies !is_space(#[trigger] t[i]) by {
        if i >= p.len() {
            assert(t[i] == ds[i - p.len()]);
            assert(is_digit_char(ds[i - p.len()]));
        }
    }
    assert forall|i: int| p.len() <= i < t.len() implies is_digit_char(#[trigger] t[i]) by {
        assert(t[i] == ds[i - p.len()]);
    }
}

proof fn lemma_numi_reads_back(y: i64, pr: spec_fn(u64) -> Seq<char>, rd: spec_fn(Seq<char>) -> Option<u64>)
    ensures
        is_word(cmd_text(Cmd::NumI(y), pr)),
        denotes(meaning(cmd_text(Cmd::NumI(y), pr), rd, true), Cmd::NumI(y)),
{
    lemma_decimal_word(y as int);
    lemma_parse_decimal(y as int, i64::MIN as int, i64::MAX as int);
}

proof fn lemma_hex_reads_back(y: i64, pr: spec_fn(u64) -> Seq<char>, rd: spec_fn(Seq<char>) -> Option<u64>)
    requires
        y >= 0,
    ensures
        is_word(cmd_text(Cmd::Hex(y), pr)),
        denotes(meaning(cmd_text(Cmd::Hex(y), pr), rd, true), Cmd::Hex(y)),
{
    let t = cmd_text(Cmd::Hex(y), pr);
    let n = (y as u64) as nat;
    lemma_tagged_digits(seq!['0', 'x'], n, 16);
    lemma_parse_digits(n, 16, true, i64::MIN as int, i64::MAX as int);
    assert(t.take(2) =~= seq!['0', 'x']);
    assert(is_digit_char(t[2]));
}

proof fn lemma_arr_reads_back(n: usize, pr: spec_fn(u64) -> Seq<char>, rd: spec_fn(Seq<char>) -> Option<u64>)
    ensures
        is_word(cmd_text(Cmd::Arr(n), pr)),
        denotes(meaning(cmd_text(Cmd::Arr(n), pr), rd, true), Cmd::Arr(n)),
{
    let t = cmd_text(Cmd::Arr(n), pr);
    lemma_tagged_digits(seq!['['], n as nat, 10);
    lemma_parse_digits(n as nat, 10, false, 0, usize::MAX as int);
    assert(t.drop_first() == t.skip(1));
    assert(is_digit_char(t[1]));
}

proof fn lemma_fg_reads_back(col: crate::color::Color, pr: spec_fn(u64) -> Seq<char>, rd: spec_fn(Seq<char>) -> Option<u64>)
    requires
        col.0[0] % 17 == 0 && col.0[1] % 17 == 0 && col.0[2] % 17 == 0,
    ensures
        is_word(cmd_text(Cmd::Fg(col), pr)),
        denotes(meaning(cmd_text(Cmd::Fg(col), pr), rd, true), Cmd::Fg(col)),
{
    let t = cmd_text(Cmd::Fg(col), pr);
    lemma_color_reads_back('f', col);
    assert(t.take(4) =~= seq!['!', 'f', 'g', ':']);
}

proof fn lemma_bg_reads_back(col: crate::color::Color, pr: spec_fn(u64) -> Seq<char>, rd: spec_fn(Seq<char>) -> Option<u64>)
    requires
        col.0[0] % 17 == 0 && col.0[1] % 17 == 0 && col.0[2] % 17 == 0,
    ensures
        is_word(cmd_text(Cmd::Bg(col), pr)),
        denotes(meaning(cmd_text(Cmd::Bg(col), pr), rd, true), Cmd::Bg(col)),
{
    let t = cmd_text(Cmd::Bg(col), pr);
    lemma_color_reads_back('b', col);
    assert(t.take(4) =~= seq!['!', 'b', 'g', ':']);
    assert(t.take(4) != seq!['!', 'f', 'g', ':']) by {
        assert(t.take(4)[1] == 'b');
    }
}

#[verifier::rlimit(40)]
proof fn lemma_khz_reads_back(k: u8, pr: spec_fn(u64) -> Seq<char>, rd: spec_fn(Seq<char>) -> Option<u64>)
    ensures
        is_word(cmd_text(Cmd::Khz(k), pr)),
        denotes(meaning(cmd_text(Cmd::Khz(k), pr), rd, true), Cmd::Khz(k)),
{
    let t = cmd_text(Cmd::Khz(k), pr);
    lemma_tagged_digits(seq!['!', 'k', 'h', 'z', ':'], k as nat, 10);
    assert(t.len() >= 6);
    assert(t[0] == '!');
    assert(crate::parse::keyword(t) is None);
    lemma_parse_digits(k as nat, 10, false, 0, 255);
    assert(t.take(5) =~= seq!['!', 'k', 'h', 'z', ':']);
    assert(t.take(4) != seq!['!', 'f', 'g', ':']) by {
        assert(t.take(4)[1] == 'k');
    }
    assert(t.take(4) != seq!['!', 'b', 'g', ':']) by {
        assert(t.take(4)[1] == 'k');
    }
}

proof fn lemma_comment_reads_back(c: Cmd, pr: spec_fn(u64) -> Seq<char>, rd: spec_fn(Seq<char>) -> Option<u64>)
    requires
        c is Comment,
        printable(c, pr, rd),
    ensures
        is_word(cmd_text(c, pr)),
        denotes(meaning(cmd_text(c, pr), rd, true), c),
{
    let s = c->Comment_0;
    let t = cmd_text(c, pr);
    assert(t == seq!['#'] + s@);
    assert(t.drop_first() =~= s@);
    assert forall|i: int| 0 <= i < t.len() implies !is_space(#[trigger] t[i]) by {
        if i > 0 {
            assert(t[i] == s@[i - 1]);
        }
    }
    if t.len() >= 4 {
        assert(t.take(4) != seq!['!', 'f', 'g', ':']) by {
            assert(t.take(4)[0] == '#');
        }
        assert(t.take(4) != seq!['!', 'b', 'g', ':']) by {
            assert(t.take(4)[0] == '#');
        }
    }
    if t.len() >= 5 {
        assert(t.take(5) != seq!['!', 'k', 'h', 'z', ':']) by {
            assert(t.take(5)[0] == '#');
        }
    }
}

/// The text of a printable instruction is one word that reads back as the
/// instruction.
pub proof fn lemma_cmd_reads_back(c: Cmd, pr: spec_fn(u64) -> Seq<char>, rd: spec_fn(Seq<char>) -> Option<u64>)
    requires
        printable(c, pr, rd),
    ensures
        is_word(cmd_text(c, pr)),
        denotes(meaning(cmd_text(c, pr), rd, true), c),
{
    match c {
        Cmd::NumF(_) => {},
        Cmd::NumI(y) => lemma_numi_reads_back(y, pr, rd),
        Cmd::Hex(y) => lemma_hex_reads_back(y, pr, rd),
        Cmd::Arr(n) => lemma_arr_reads_back(n, pr, rd),
        Cmd::Fg(col) => lemma_fg_reads_back(col, pr, rd),
        Cmd::Bg(col) => lemma_bg_reads_back(col, pr, rd),
        Cmd::Khz(k) => lemma_khz_reads_back(k, pr, rd),
        Cmd::Comment(_) => lemma_comment_reads_back(c, pr, rd),
        _ => {},
    }
}

} // verus!

verus! {

proof fn lemma_no_fault(toks: Seq<Seq<char>>, rd: spec_fn(Seq<char>) -> Option<u64>, hex: bool, n: int)
    requires
        0 <= n <= toks.len(),
        forall|i: int| 0 <= i < n ==> !(meaning(#[trigger] toks[i], rd, hex) is Bad),
    ensures
        first_fault(toks, rd, hex, n) is None,
    decreases n,
{
    if n > 0 {
        lemma_no_fault(toks, rd, hex, n - 1);
    }
}

/// Printing a program and reading the text back gives the same program,
/// for programs whose instructions are all printable: the text splits into
/// one token per instruction, no token is faulty, and each token reads as
/// its instruction.
pub proof fn lemma_format_then_parse(
    cmds: Seq<Cmd>,
    pr: spec_fn(u64) -> Seq<char>,
    rd: spec_fn(Seq<char>) -> Option<u64>,
)
    requires
        forall|i: int| 0 <= i < cmds.len() ==> printable(#[trigger] cmds[i], pr, rd),
    ensures
        tokens(beat_text(cmds, pr)).len() == cmds.len(),
        first_fault(tokens(beat_text(cmds, pr)), rd, true, cmds.len() as int) is None,
        reads_to(tokens(beat_text(cmds, pr)), rd, true, cmds),
{
    let ts = cmds.map_values(|c: Cmd| cmd_text(c, pr));
    assert forall|i: int| 0 <= i < ts.len() implies is_word(#[trigger] ts[i]) by {
        lemma_cmd_reads_back(cmds[i], pr, rd);
    }
    lemma_tokens_joined(ts);
    assert(tokens(beat_text(cmds, pr)) == ts);
    assert forall|i: int| 0 <= i < cmds.len() implies denotes(meaning(ts[i], rd, true), #[trigger] cmds[i]) by {
        lemma_cmd_reads_back(cmds[i], pr, rd);
    }
    lemma_no_fault(ts, rd, true, cmds.len() as int);
}

/// Without `0x` literals, the text of a printable instruction means the same
/// with and without the `0x` rule.
proof fn lemma_meaning_without_hex(c: Cmd, pr: spec_fn(u64) -> Seq<char>, rd: spec_fn(Seq<char>) -> Option<u64>)
    requires
        printable(c, pr, rd),
        !(c is Hex),
    ensures
        meaning(cmd_text(c, pr), rd, false) == meaning(cmd_text(c, pr), rd, true),
{
    let tok = cmd_text(c, pr);
    if has_prefix(tok, seq!['0', 'x']) {
        assert(tok[0] == tok.take(2)[0] && tok[1] == tok.take(2)[1]);
        match c {
            Cmd::NumI(y) => {
                if y >= 0 {
                    lemma_digit_chars(y as nat, 10);
                    assert(0x30 <= (digits_of(y as nat, 10)[1]) as u32 <= 0x39);
                }
            },
            _ => {},
        }
    }
}

proof fn lemma_same_reading(toks: Seq<Seq<char>>, rd: spec_fn(Seq<char>) -> Option<u64>, n: int)
    requires
        0 <= n <= toks.len(),
        forall|i: int| 0 <= i < toks.len() ==> meaning(#[trigger] toks[i], rd, false) == meaning(toks[i], rd, true),
    ensures
        first_fault(toks, rd, false, n) == first_fault(toks, rd, true, n),
    decreases n,
{
    if n > 0 {
        lemma_same_reading(toks, rd, n - 1);
        assert(meaning(toks[n - 1], rd, false) == meaning(toks[n - 1], rd, true));
    }
}

/// Printing a program without `0x` literals and reading the text back with
/// the classic rules gives the program back, on the same conditions.
pub proof fn lemma_format_then_parse_classic(
    cmds: Seq<Cmd>,
    pr: spec_fn(u64) -> Seq<char>,
    rd: spec_fn(Seq<char>) -> Option<u64>,
)
    requires
        forall|i: int| 0 <= i < cmds.len() ==> printable(#[trigger] cmds[i], pr, rd) && !(cmds[i] is Hex),
    ensures
        tokens(beat_text(cmds, pr)).len() == cmds.len(),
        first_fault(tokens(beat_text(cmds, pr)), rd, false, cmds.len() as int) is None,
        reads_to(tokens(beat_text(cmds, pr)), rd, false, cmds),
{
    lemma_format_then_parse(cmds, pr, rd);
    let toks = tokens(beat_text(cmds, pr));
    let ts = cmds.map_values(|c: Cmd| cmd_text(c, pr));
    assert(toks == ts) by {
        assert forall|i: int| 0 <= i < ts.len() implies is_word(#[trigger] ts[i]) by {
            lemma_cmd_reads_back(cmds[i], pr, rd);
        }
        lemma_tokens_joined(ts);
    }
    assert forall|i: int| 0 <= i < toks.len() implies meaning(#[trigger] toks[i], rd, false) == meaning(
        toks[i],
        rd,
        true,
    ) by {
        lemma_meaning_without_hex(cmds[i], pr, rd);
    }
    lemma_same_reading(toks, rd, cmds.len() as int);
    assert forall|i: int| 0 <= i < toks.len() implies denotes(meaning(toks[i], rd, false), #[trigger] cmds[i]) by {
        assert(denotes(meaning(toks[i], rd, true), cmds[i]));
    }
}

} // verus!
