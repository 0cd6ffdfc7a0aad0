use vstd::prelude::*;

verus! {

/// The value of a digit character in bases up to 36 (`0-9`, `a-z`, `A-Z`);
/// 99 for any other character.
pub open spec fn digit_value(c: char) -> int {
    let u = c as u32;
    if 0x30 <= u <= 0x39 {
        u - 0x30
    } else if 0x61 <= u <= 0x7A {
        u - 0x61 + 10
    } else if 0x41 <= u <= 0x5A {
        u - 0x41 + 10
    } else {
        99
    }
}

/// Every character of `s` is a digit in base `radix`.
pub open spec fn all_digits(s: Seq<char>, radix: int) -> bool {
    forall|i: int| 0 <= i < s.len() ==> digit_value(#[trigger] s[i]) < radix
}

/// The number that the digits `s` spell in base `radix`.
pub open spec fn digits_value(s: Seq<char>, radix: int) -> int
    decreases s.len(),
{
    if s.len() == 0 {
        0
    } else {
        digits_value(s.drop_last(), radix) * radix + digit_value(s.last())
    }
}

/// What Rust's `from_str_radix` / `str::parse` make of `s` for an integer
/// type with range `lo..=hi`: an optional `+` (or `-` when `signed`),
/// then one or more digits, and a value in range.
pub open spec fn parse_int(s: Seq<char>, radix: int, signed: bool, lo: int, hi: int) -> Option<int> {
    if s.len() == 0 {
        None
    } else if (s[0] == '+' || s[0] == '-') && s.len() == 1 {
        None
    } else {
        let neg = s[0] == '-' && signed;
        let ds = if s[0] == '+' || neg {
            s.drop_first()
        } else {
            s
        };
        if !all_digits(ds, radix) {
            None
        } else {
            let v = if neg {
                -digits_value(ds, radix)
            } else {
                digits_value(ds, radix)
            };
            if lo <= v <= hi {
                Some(v)
            } else {
                None
            }
        }
    }
}

/// The character for a digit value below 36, upper case.
pub open spec fn digit_char(d: int) -> char {
    if d < 10 {
        (0x30 + d) as char
    } else {
        (0x41 + d - 10) as char
    }
}

/// The digits of `n` in base `radix`, most significant first, without
/// leading zeros.
pub open spec fn digits_of(n: nat, radix: nat) -> Seq<char>
    decreases n,
{
    if n < radix || radix < 2 {
        seq![digit_char(n as int)]
    } else {
        proof {
            vstd::arithmetic::div_mod::lemma_div_decreases(n as int, radix as int);
        }
        digits_of(n / radix, radix).push(digit_char((n % radix) as int))
    }
}

/// The decimal text of an integer, with a leading `-` when negative.
pub open spec fn decimal(x: int) -> Seq<char> {
    if x < 0 {
        seq!['-'] + digits_of((-x) as nat, 10)
    } else {
        digits_of(x as nat, 10)
    }
}

proof fn lemma_value_grows(s: Seq<char>, radix: int, k: int)
    requires
        radix >= 1,
        0 <= k <= s.len(),
        all_digits(s, radix),
    ensures
        digits_value(s, radix) >= digits_value(s.take(k), radix) >= 0,
    decreases s.len() - k,
{
    if k < s.len() {
        let s2 = s.take(k + 1);
        assert(s2.drop_last() == s.take(k));
        assert(all_digits(s2, radix));
        lemma_value_grows(s, radix, k + 1);
        lemma_value_nonneg(s.take(k), radix);
        let v = digits_value(s.take(k), radix);
        assert(v * radix >= v) by (nonlinear_arith)
            requires
                v >= 0,
                radix >= 1,
        ;
    } else {
        assert(s.take(k) == s);
        lemma_value_nonneg(s, radix);
    }
}

proof fn lemma_value_nonneg(s: Seq<char>, radix: int)
    requires
        radix >= 1,
        all_digits(s, radix),
    ensures
        digits_value(s, radix) >= 0,
    decreases s.len(),
{
    if s.len() > 0 {
        assert(all_digits(s.drop_last(), radix));
        lemma_value_nonneg(s.drop_last(), radix);
        let v = digits_value(s.drop_last(), radix);
        assert(v * radix >= 0) by (nonlinear_arith)
            requires
                v >= 0,
                radix >= 1,
        ;
    }
}

fn digit_of(c: char) -> (r: u32)
    ensures
        r == digit_value(c),
{
    let u = c as u32;
    if 0x30 <= u && u <= 0x39 {
        u - 0x30
    } else if 0x61 <= u && u <= 0x7A {
        u - 0x61 + 10
    } else if 0x41 <= u && u <= 0x5A {
        u - 0x41 + 10
    } else {
        99
    }
}

/// The digits `s[from..to]` read in base `radix`: `None` when one of them is
/// not a digit or the number exceeds 2^64.
fn read_digits(s: &Vec<char>, from: usize, to: usize, radix: u32) -> (r: Option<u128>)
    requires
        from <= to <= s@.len(),
        2 <= radix <= 36,
    ensures
        ({
            let ds = s@.subrange(from as int, to as int);
            match r {
                Some(v) => all_digits(ds, radix as int) && v == digits_value(ds, radix as int)
                    && v <= 0x1_0000_0000_0000_0000u128,
                None => !all_digits(ds, radix as int) || digits_value(ds, radix as int)
                    > 0x1_0000_0000_0000_0000u128,
            }
        }),
{
    let ghost ds = s@.subrange(from as int, to as int);
    let mut acc: u128 = 0;
    let mut big = false;
    let mut i = from;
    while i < to
        invariant
            from <= i <= to <= s@.len(),
            2 <= radix <= 36,
            ds == s@.subrange(from as int, to as int),
            all_digits(ds.take(i - from), radix as int),
            !big ==> acc == digits_value(ds.take(i - from), radix as int) && acc
                <= 0x1_0000_0000_0000_0000u128,
            big ==> digits_value(ds.take(i - from), radix as int) > 0x1_0000_0000_0000_0000u128,
        decreases to - i,
    {
        let ghost pre = ds.take(i - from);
        let ghost cur = ds.take(i - from + 1);
        assert(cur.drop_last() == pre);
        let d = digit_of(s[i]);
        if d >= radix {
            proof {
                assert(digit_value(ds[i - from]) >= radix);
            }
            return None;
        }
        proof {
            lemma_value_nonneg(pre, radix as int);
        }
        if !big {
            assert(acc * (radix as u128) <= 0x1_0000_0000_0000_0000u128 * 36) by (nonlinear_arith)
                requires
                    acc <= 0x1_0000_0000_0000_0000u128,
                    radix <= 36,
            ;
            acc = acc * (radix as u128) + d as u128;
            if acc > 0x1_0000_0000_0000_0000u128 {
                big = true;
            }
        } else {
            proof {
                let v = digits_value(pre, radix as int);
                assert(v * radix >= v) by (nonlinear_arith)
                    requires
                        v >= 0,
                        radix >= 1,
                ;
            }
        }
        i = i + 1;
    }
    assert(ds.take(to - from) == ds);
    if big {
        None
    } else {
        Some(acc)
    }
}

/// `s[from..to]` parsed as Rust parses an integer of a type with range
/// `lo..=hi` (radix 2 to 36; `lo` and `hi` within 64 bits).
pub fn parse_int_at(
    s: &Vec<char>,
    from: usize,
    to: usize,
    radix: u32,
    signed: bool,
    lo: i128,
    hi: i128,
) -> (r: Option<i128>)
    requires
        from <= to <= s@.len(),
        2 <= radix <= 36,
        -0x1_0000_0000_0000_0000i128 <= lo,
        hi <= 0x1_0000_0000_0000_0000i128,
    ensures
        ({
            let t = s@.subrange(from as int, to as int);
            match parse_int(t, radix as int, signed, lo as int, hi as int) {
                Some(v) => r == Some(v as i128),
                None => r is None,
            }
        }),
{
    let ghost t = s@.subrange(from as int, to as int);
    if from == to {
        return None;
    }
    let first = s[from];
    if (first == '+' || first == '-') && to - from == 1 {
        return None;
    }
    let neg = first == '-' && signed;
    let start = if first == '+' || neg {
        from + 1
    } else {
        from
    };
    proof {
        if first == '+' || neg {
            assert(t.drop_first() == s@.subrange(start as int, to as int));
        } else {
            assert(t == s@.subrange(start as int, to as int));
        }
    }
    match read_digits(s, start, to, radix) {
        None => None,
        Some(m) => {
            let v: i128 = if neg {
                -(m as i128)
            } else {
                m as i128
            };
            if lo <= v && v <= hi {
                Some(v)
            } else {
                None
            }
        },
    }
}

} // verus!

verus! {

proof fn lemma_digit_char(d: int)
    requires
        0 <= d < 36,
    ensures
        digit_value(digit_char(d)) == d,
        digit_char(d) != '+',
        digit_char(d) != '-',
        digit_char(d) != '.',
{
}

/// The digits of `n` read back in the same base give `n`.
pub proof fn lemma_digits_roundtrip(n: nat, radix: nat)
    requires
        2 <= radix <= 36,
    ensures
        digits_of(n, radix).len() > 0,
        all_digits(digits_of(n, radix), radix as int),
        digits_value(digits_of(n, radix), radix as int) == n,
        digits_of(n, radix)[0] != '+',
        digits_of(n, radix)[0] != '-',
    decreases n,
{
    if n < radix {
        lemma_digit_char(n as int);
        let s = seq![digit_char(n as int)];
        assert(s.drop_last() =~= Seq::<char>::empty());
        assert(digits_value(s.drop_last(), radix as int) == 0);
        assert(0 * (radix as int) == 0);
        assert(s.last() == digit_char(n as int));
    } else {
        let q = n / radix;
        let r = n % radix;
        vstd::arithmetic::div_mod::lemma_div_decreases(n as int, radix as int);
        lemma_digits_roundtrip(q, radix);
        lemma_digit_char(r as int);
        let s = digits_of(n, radix);
        assert(s.drop_last() == digits_of(q, radix));
        assert(q * radix + r == n) by (nonlinear_arith)
            requires
                q == n / radix,
                r == n % radix,
                radix >= 2,
        ;
        assert forall|i: int| 0 <= i < s.len() implies digit_value(#[trigger] s[i]) < radix by {
            if i < s.len() - 1 {
                assert(s[i] == digits_of(q, radix)[i]);
            }
        }
    }
}

/// Reading the digits of `n` as an integer of range `lo..=hi` gives `n`
/// exactly when `n` is in range.
pub proof fn lemma_parse_digits(n: nat, radix: nat, signed: bool, lo: int, hi: int)
    requires
        2 <= radix <= 36,
    ensures
        parse_int(digits_of(n, radix), radix as int, signed, lo, hi) == (if lo <= n <= hi {
            Some(n as int)
        } else {
            None
        }),
{
    lemma_digits_roundtrip(n, radix);
}

/// Reading the decimal text of `x` as a signed integer of range `lo..=hi`
/// gives `x` exactly when `x` is in range.
pub proof fn lemma_parse_decimal(x: int, lo: int, hi: int)
    ensures
        parse_int(decimal(x), 10, true, lo, hi) == (if lo <= x <= hi {
            Some(x)
        } else {
            None
        }),
{
    if x < 0 {
        let ds = digits_of((-x) as nat, 10);
        lemma_digits_roundtrip((-x) as nat, 10);
        assert((seq!['-'] + ds).drop_first() == ds);
    } else {
        lemma_digits_roundtrip(x as nat, 10);
    }
}

fn digit_char_exec(d: u64) -> (c: char)
    requires
        d < 36,
    ensures
        c == digit_char(d as int),
{
    if d < 10 {
        ((0x30u8 + d as u8) as char)
    } else {
        ((0x41u8 + (d as u8 - 10)) as char)
    }
}

/// Appends the digits of `n` in base `radix`.
pub fn push_digits(out: &mut String, n: u64, radix: u64)
    requires
        2 <= radix <= 36,
    ensures
        final(out)@ == old(out)@ + digits_of(n as nat, radix as nat),
    decreases n,
{
    if n >= radix {
        proof {
            vstd::arithmetic::div_mod::lemma_div_decreases(n as int, radix as int);
        }
        push_digits(out, n / radix, radix);
    }
    out.push(digit_char_exec(n % radix));
    proof {
        if n < radix {
            vstd::arithmetic::div_mod::lemma_small_mod(n as nat, radix as nat);
        }
        assert(old(out)@ + digits_of(n as nat, radix as nat) =~= final(out)@) by {
            if n >= radix {
                assert(digits_of(n as nat, radix as nat) == digits_of((n / radix) as nat, radix as nat).push(
                    digit_char((n % radix) as int),
                ));
            }
        }
    }
}

/// Appends the decimal text of `x`.
pub fn push_decimal(out: &mut String, x: i64)
    ensures
        final(out)@ == old(out)@ + decimal(x as int),
{
    if x < 0 {
        out.push('-');
        let m: u64 = (0i128 - x as i128) as u64;
        push_digits(out, m, 10);
    } else {
        push_digits(out, x as u64, 10);
    }
}

/// Appends the decimal text of `x`.
pub fn push_unsigned(out: &mut String, x: u64)
    ensures
        final(out)@ == old(out)@ + digits_of(x as nat, 10),
{
    push_digits(out, x, 10);
}

} // verus!

verus! {

/// A character that `digit_char` can produce.
pub open spec fn is_digit_char(c: char) -> bool {
    (0x30 <= c as u32 <= 0x39) || (0x41 <= c as u32 <= 0x5A)
}

/// Every character of a digit string is a digit character, and a decimal
/// digit string holds only `0`-`9`.
pub proof fn lemma_digit_chars(n: nat, radix: nat)
    requires
        2 <= radix <= 36,
    ensures
        forall|i: int| 0 <= i < digits_of(n, radix).len() ==> is_digit_char(#[trigger] digits_of(n, radix)[i]),
        radix <= 10 ==> forall|i: int|
            0 <= i < digits_of(n, radix).len() ==> 0x30 <= (#[trigger] digits_of(n, radix)[i]) as u32 <= 0x39,
    decreases n,
{
    if n >= radix {
        vstd::arithmetic::div_mod::lemma_div_decreases(n as int, radix as int);
        lemma_digit_chars(n / radix, radix);
        let s = digits_of(n, radix);
        assert forall|i: int| 0 <= i < s.len() - 1 implies s[i] == digits_of(n / radix, radix)[i] by {}
    }
}

} // verus!

verus! {

/// `c` in upper case when it is a letter `a-z`; any other character as it is.
pub open spec fn upper(c: char) -> char {
    if 0x61 <= c as u32 <= 0x7A {
        (c as u32 - 32) as char
    } else {
        c
    }
}

/// The digits are `0-9` for 0 to 9 and the letters, in either case, for 10
/// to 35: the `k`-th letter after `a` or `A` is worth `10 + k`.
pub proof fn lemma_digit_values(k: u32)
    ensures
        k < 10 ==> digit_value((0x30 + k) as char) == k,
        k < 26 ==> digit_value((0x61 + k) as char) == 10 + k,
        k < 26 ==> digit_value((0x41 + k) as char) == 10 + k,
{
}

proof fn lemma_upper_digit(c: char)
    ensures
        digit_value(upper(c)) == digit_value(c),
        (c == '+') == (upper(c) == '+'),
        (c == '-') == (upper(c) == '-'),
{
}

proof fn lemma_upper_digits_value(s: Seq<char>, radix: int)
    ensures
        digits_value(s.map_values(|c: char| upper(c)), radix) == digits_value(s, radix),
        all_digits(s.map_values(|c: char| upper(c)), radix) == all_digits(s, radix),
    decreases s.len(),
{
    let u = s.map_values(|c: char| upper(c));
    if s.len() > 0 {
        assert(u.drop_last() =~= s.drop_last().map_values(|c: char| upper(c)));
        lemma_upper_digits_value(s.drop_last(), radix);
        lemma_upper_digit(s.last());
    }
    assert forall|i: int| 0 <= i < s.len() implies digit_value(#[trigger] u[i]) == digit_value(s[i]) by {
        lemma_upper_digit(s[i]);
    }
    if all_digits(s, radix) {
        assert forall|i: int| 0 <= i < u.len() implies digit_value(#[trigger] u[i]) < radix by {
            assert(digit_value(u[i]) == digit_value(s[i]));
        }
    } else {
        let i = choose|i: int| 0 <= i < s.len() && !(digit_value(#[trigger] s[i]) < radix);
        assert(digit_value(u[i]) == digit_value(s[i]));
    }
}

/// Reading a number does not depend on the case of its letter digits, as
/// with Rust's `from_str_radix`: `ff` and `FF` read the same.
pub proof fn lemma_parse_ignores_case(s: Seq<char>, radix: int, signed: bool, lo: int, hi: int)
    ensures
        parse_int(s.map_values(|c: char| upper(c)), radix, signed, lo, hi) == parse_int(s, radix, signed, lo, hi),
{
    let u = s.map_values(|c: char| upper(c));
    if s.len() > 0 {
        lemma_upper_digit(s[0]);
        lemma_upper_digits_value(s, radix);
        lemma_upper_digits_value(s.drop_first(), radix);
        assert(u.drop_first() =~= s.drop_first().map_values(|c: char| upper(c)));
    }
}

} // verus!
