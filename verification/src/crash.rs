//! The inputs that the fuzzer of the evaluator saves when it finds a crash:
//! one byte for the kind of time (0 for an integer, anything else for a
//! double), the 64 bits of the time with the least significant byte first,
//! then the text of the program.
use vstd::prelude::*;

use crate::eval::Val;

verus! {

/// The number that the bytes `b` stand for, least significant byte first.
pub open spec fn le_value(b: Seq<u8>) -> nat
    decreases b.len(),
{
    if b.len() == 0 {
        0
    } else {
        b[0] as nat + 256 * le_value(b.drop_first())
    }
}

/// `256` to the power `k`.
pub open spec fn byte_power(k: nat) -> nat
    decreases k,
{
    if k == 0 {
        1
    } else {
        256 * byte_power((k - 1) as nat)
    }
}

proof fn lemma_le_value_bound(b: Seq<u8>)
    ensures
        le_value(b) < byte_power(b.len()),
    decreases b.len(),
{
    if b.len() > 0 {
        lemma_le_value_bound(b.drop_first());
    }
}

/// The time that a crash input asks for.
pub open spec fn crash_time(data: Seq<u8>) -> Val {
    let raw = le_value(data.subrange(1, 9)) as u64;
    if data[0] == 0 {
        Val::I(raw as i64)
    } else {
        Val::F(raw)
    }
}

/// Reads the time of a crash input, and the bytes of its program; the input
/// must hold at least the nine bytes of the time.
pub fn decode_crash(data: &[u8]) -> (r: (Val, &[u8]))
    requires
        data@.len() >= 9,
    ensures
        r.0 == crash_time(data@),
        r.1@ == data@.subrange(9, data@.len() as int),
{
    let ghost word = data@.subrange(1, 9);
    let mut raw: u64 = 0;
    let mut i: usize = 9;
    proof {
        reveal_with_fuel(byte_power, 9);
    }
    while i > 1
        invariant
            1 <= i <= 9,
            data@.len() >= 9,
            word == data@.subrange(1, 9),
            raw == le_value(data@.subrange(i as int, 9)),
            byte_power(8) == 0x1_0000_0000_0000_0000,
        decreases i,
    {
        i = i - 1;
        let ghost rest = data@.subrange(i + 1, 9);
        let ghost here = data@.subrange(i as int, 9);
        proof {
            assert(here.drop_first() =~= rest);
            lemma_le_value_bound(rest);
            lemma_power_grows((9 - (i + 1)) as nat, 7);
        }
        raw = raw * 256 + data[i] as u64;
    }
    let time = if data[0] == 0 {
        Val::I(raw as i64)
    } else {
        Val::F(raw)
    };
    let (_, program) = data.split_at(9);
    (time, program)
}

proof fn lemma_power_grows(j: nat, k: nat)
    requires
        j <= k,
    ensures
        byte_power(j) <= byte_power(k),
    decreases k,
{
    if j < k {
        lemma_power_grows(j, (k - 1) as nat);
    }
}

/// The 64 bits stored in bytes 1 to 8 of a crash input, least significant
/// byte first.
pub open spec fn time_bits(data: Seq<u8>) -> int {
    data[1] as int + 0x100 * data[2] + 0x1_0000 * data[3] + 0x100_0000 * data[4] + 0x1_0000_0000
        * data[5] + 0x100_0000_0000 * data[6] + 0x1_0000_0000_0000 * data[7]
        + 0x100_0000_0000_0000 * data[8]
}

/// The time of a crash input is an integer exactly when its kind byte is 0;
/// any other kind byte makes it a double. Either way it holds the 64 bits of
/// bytes 1 to 8, least significant byte first.
pub proof fn lemma_crash_time(data: Seq<u8>)
    requires
        data.len() >= 9,
    ensures
        (data[0] == 0) == (crash_time(data) is I),
        data[0] == 0 ==> crash_time(data) == Val::I(time_bits(data) as u64 as i64),
        data[0] != 0 ==> crash_time(data) == Val::F(time_bits(data) as u64),
{
    let w = data.subrange(1, 9);
    assert(w.drop_first() =~= data.subrange(2, 9));
    assert(data.subrange(2, 9).drop_first() =~= data.subrange(3, 9));
    assert(data.subrange(3, 9).drop_first() =~= data.subrange(4, 9));
    assert(data.subrange(4, 9).drop_first() =~= data.subrange(5, 9));
    assert(data.subrange(5, 9).drop_first() =~= data.subrange(6, 9));
    assert(data.subrange(6, 9).drop_first() =~= data.subrange(7, 9));
    assert(data.subrange(7, 9).drop_first() =~= data.subrange(8, 9));
    assert(data.subrange(8, 9).drop_first() =~= Seq::<u8>::empty());
    reveal_with_fuel(le_value, 9);
    assert(le_value(w) == time_bits(data));
}

} // verus!
