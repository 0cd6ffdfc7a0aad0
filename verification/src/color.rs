use vstd::prelude::*;

verus! {

/// An RGB color with 8 bits per channel.
#[derive(Debug, Clone, Copy, PartialEq, Eq)]
pub struct Color(pub [u8; 3]);

/// The channel `c` scaled by the brightness `k`: the high byte of `c * k`.
pub open spec fn scale_channel(c: u8, k: u8) -> u8 {
    ((c as int * k as int) / 256) as u8
}

proof fn lemma_byte_product(a: u8, b: u8)
    ensures
        a as int * b as int <= 255 * 255,
{
    assert(a as int * b as int <= 255 * 255) by (nonlinear_arith)
        requires
            a <= 255,
            b <= 255,
            0 <= a,
            0 <= b,
    ;
}

/// A scaled channel is `c * k / 256` rounded down: the largest byte `s`
/// with `256 * s <= c * k`.
pub proof fn lemma_scale_channel(c: u8, k: u8)
    ensures
        256 * (scale_channel(c, k) as int) <= (c as int) * (k as int) < 256 * (scale_channel(c, k) as int + 1),
{
    lemma_byte_product(c, k);
    let p = c as int * k as int;
    assert(256 * (p / 256) <= p < 256 * (p / 256 + 1) && 0 <= p / 256 < 256) by (nonlinear_arith)
        requires
            0 <= p <= 255 * 255,
    ;
}

/// The color `c` with every channel scaled by `k / 256`.
pub open spec fn scaled(c: Color, k: u8) -> Color {
    Color([scale_channel(c.0[0], k), scale_channel(c.0[1], k), scale_channel(c.0[2], k)])
}

impl core::ops::Mul<u8> for Color {
    type Output = Color;

    /// Scales every channel by `rhs / 256`, rounding down.
    fn mul(self, rhs: u8) -> (r: Color)
        ensures
            r == scaled(self, rhs),
    {
        let Color(lhs) = self;
        proof {
            lemma_byte_product(lhs[0], rhs);
            lemma_byte_product(lhs[1], rhs);
            lemma_byte_product(lhs[2], rhs);
        }
        let r: u16 = lhs[0] as u16 * rhs as u16;
        let g: u16 = lhs[1] as u16 * rhs as u16;
        let b: u16 = lhs[2] as u16 * rhs as u16;
        assert(r >> 8 == r / 256) by (bit_vector);
        assert(g >> 8 == g / 256) by (bit_vector);
        assert(b >> 8 == b / 256) by (bit_vector);
        let out = Color([(r >> 8) as u8, (g >> 8) as u8, (b >> 8) as u8]);
        assert(out.0 =~= scaled(self, rhs).0);
        out
    }
}

impl vstd::std_specs::ops::MulSpecImpl<u8> for Color {
    open spec fn obeys_mul_spec() -> bool {
        true
    }

    open spec fn mul_req(self, rhs: u8) -> bool {
        true
    }

    open spec fn mul_spec(self, rhs: u8) -> Color {
        scaled(self, rhs)
    }
}

} // verus!
