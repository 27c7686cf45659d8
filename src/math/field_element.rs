use vstd::arithmetic::div_mod::{lemma_fundamental_div_mod, lemma_div_pos_is_pos};
use vstd::arithmetic::power2::{lemma2_to64, lemma_pow2_pos, pow2};
use vstd::bits::{lemma_u16_shr_is_div, lemma_u32_shr_is_div, lemma_u64_shl_is_mul, lemma_u64_shr_is_div};
use vstd::prelude::*;

use crate::constants::{BARRETT_MULTIPLIER, BARRETT_SHIFT, Q};
use crate::math::util::Truncate;

verus! {

/// Barrett's estimate of p / q, floor(p * 5039 / 2^24), leaves a remainder in [0, 2q)
/// for every p below 2^24.
pub proof fn lemma_barrett_quotient(p: int)
    requires
        0 <= p < 0x100_0000,
    ensures
        0 <= p - (p * 5039) / 0x100_0000 * q() < 2 * q(),
{
    let quo = (p * 5039) / 0x100_0000;
    lemma_fundamental_div_mod(p * 5039, 0x100_0000);
    let rem = (p * 5039) % 0x100_0000;
    assert(0 <= rem < 0x100_0000);
    assert(p * 5039 == 0x100_0000 * quo + rem);
    assert(quo * 3329 <= p && p - quo * 3329 < 6658) by (nonlinear_arith)
        requires
            p * 5039 == 0x100_0000 * quo + rem,
            0 <= rem < 0x100_0000,
            0 <= p < 0x100_0000,
    ;
}

/// A product of two reduced values is below 2^24.
pub proof fn lemma_product_bound(a: int, b: int)
    requires
        0 <= a < q(),
        0 <= b < q(),
    ensures
        0 <= a * b < 0x100_0000,
{
    assert(0 <= a * b < 0x100_0000) by (nonlinear_arith)
        requires
            0 <= a < 3329,
            0 <= b < 3329,
    ;
}

/// Barrett's estimate never exceeds the true quotient.
pub proof fn lemma_barrett_lower(p: int)
    requires
        0 <= p < 0x100_0000_0000,
    ensures
        (p * 5039) / 0x100_0000 * q() <= p,
        0 <= (p * 5039) / 0x100_0000,
{
    let quo = (p * 5039) / 0x100_0000;
    lemma_fundamental_div_mod(p * 5039, 0x100_0000);
    let rem = (p * 5039) % 0x100_0000;
    assert(quo * 3329 <= p && 0 <= quo) by (nonlinear_arith)
        requires
            p * 5039 == 0x100_0000 * quo + rem,
            0 <= rem < 0x100_0000,
            0 <= p,
    ;
}

/// With a remainder in [0, 2q), adding one for each of the thresholds q/2 and
/// q + q/2 that the remainder exceeds rounds dividend / q half up.
pub proof fn lemma_round_from_remainder(dividend: int, quo: int, rem: int)
    requires
        rem == dividend - quo * q(),
        0 <= rem < 2 * q(),
    ensures
        quo + (if rem > 1664 { 1int } else { 0int }) + (if rem > 4993 { 1int } else { 0int })
            == (2 * dividend + q()) / (2 * q()),
{
    let t = (2 * dividend + q()) / (2 * q());
    lemma_fundamental_div_mod(2 * dividend + q(), 2 * q());
    let s = (2 * dividend + q()) % (2 * q());
    assert(2 * dividend + 3329 == 6658 * t + s);
    assert(0 <= s < 6658);
}

/// floor(m / 2p) plus bit (p) of m is m / 2p rounded half up.
pub proof fn lemma_round_half_up_by_bit(m: int, p: int)
    requires
        0 <= m,
        0 < p,
    ensures
        m / (2 * p) + (m / p) % 2 == (m + p) / (2 * p),
{
    lemma_fundamental_div_mod(m, 2 * p);
    let a = m / (2 * p);
    let r = m % (2 * p);
    assert(m == a * (2 * p) + r) by (nonlinear_arith)
        requires m == (2 * p) * a + r;
    if r < p {
        assert(m == (2 * a) * p + r) by (nonlinear_arith)
            requires m == a * (2 * p) + r;
        vstd::arithmetic::div_mod::lemma_fundamental_div_mod_converse(m, p, 2 * a, r);
        assert(m + p == a * (2 * p) + (r + p));
        vstd::arithmetic::div_mod::lemma_fundamental_div_mod_converse(m + p, 2 * p, a, r + p);
    } else {
        assert(m == (2 * a + 1) * p + (r - p)) by (nonlinear_arith)
            requires m == a * (2 * p) + r;
        vstd::arithmetic::div_mod::lemma_fundamental_div_mod_converse(m, p, 2 * a + 1, r - p);
        assert(m + p == (a + 1) * (2 * p) + (r - p)) by (nonlinear_arith)
            requires m == a * (2 * p) + r;
        vstd::arithmetic::div_mod::lemma_fundamental_div_mod_converse(m + p, 2 * p, a + 1, r - p);
    }
}

/// 2^d is at most 2048 for d up to 11.
pub proof fn lemma_pow2_at_most_2048(d: nat)
    requires
        d <= 11,
    ensures
        0 < pow2(d) <= 2048,
{
    lemma2_to64();
    lemma_pow2_pos(d);
    if d < 11 {
        vstd::arithmetic::power2::lemma_pow2_strictly_increases(d, 11);
    }
}

/// The modulus q as a mathematical integer.
pub open spec fn q() -> int {
    3329
}

/// Reduce a value in [0, 2q) to [0, q) by one conditional subtraction; values
/// that cannot come from such a range pass as the 16-bit sign trick leaves them.
pub open spec fn reduce_once_spec(v: int) -> int {
    if v < q() {
        v
    } else if v < q() + 0x8000 {
        v - q()
    } else {
        v
    }
}

/// Compress_d(x) = round(2^d * x / q) mod 2^d, rounding halves up.
pub open spec fn compress_spec(x: int, d: nat) -> int {
    ((2 * pow2(d) * x + q()) / (2 * q())) % (pow2(d) as int)
}

/// Decompress_d(y) = round(q * y / 2^d), rounding halves up.
pub open spec fn decompress_spec(y: int, d: nat) -> int
    recommends
        d >= 1,
{
    (q() * y + pow2((d - 1) as nat)) / (pow2(d) as int)
}

/// The operations of the field fail only on unreduced values.
pub enum OperationError {
    UnreducedFieldElementError,
}

/// An integer modulo q, held as its representative in [0, q) once reduced.
#[derive(Copy, Clone, Debug, PartialEq, Eq, Structural)]
pub struct FieldElement(pub u16);

impl FieldElement {
    /// A field element is reduced when its representative lies in [0, q).
    pub open spec fn reduced(self) -> bool {
        self.0 < q()
    }

    /// Its value as a mathematical integer.
    pub open spec fn int_val(self) -> int {
        self.0 as int
    }

    /// Build a field element from `val`, reducing once: `val` in [0, 2q) gives
    /// `val mod q`.
    pub fn new(val: u16) -> (r: Self)
        ensures
            r.0 == reduce_once_spec(val as int),
            val < 2 * q() ==> r.0 == val % 3329,
            val <= 2 * q() ==> r.0 <= q(),
    {
        let mut f = FieldElement(val);
        f.reduce_once();
        f
    }

    /// Build a field element from a value already known to be below q.
    pub fn from(val: u16) -> (r: Self)
        ensures
            r.0 == val,
    {
        FieldElement(val)
    }

    /// The zero of the field.
    pub fn zero() -> (r: Self)
        ensures
            r.0 == 0,
    {
        FieldElement(0)
    }

    /// Overwrite the representative.
    pub fn set(&mut self, val: u16)
        ensures
            final(self).0 == val,
    {
        self.0 = val;
    }

    /// Subtract q once if the value is at least q, without branching.
    pub fn reduce_once(&mut self)
        ensures
            final(self).0 == reduce_once_spec(old(self).0 as int),
    {
        let v = self.0;
        let x = v.wrapping_sub(Q);
        proof {
            lemma_u16_shr_is_div(x, 15);
            lemma2_to64();
        }
        let top = x >> 15u16;
        let y = x.wrapping_add(top.wrapping_mul(Q));
        self.0 = y;
    }

    /// Reduce a product of two reduced values modulo q, without division.
    pub fn barrett_reduce(product: u32) -> (r: Self)
        requires
            product < 0x100_0000,
        ensures
            r.0 == product % 3329,
    {
        let wide: u64 = (product as u64) * BARRETT_MULTIPLIER;
        proof {
            lemma_u64_shr_is_div(wide, BARRETT_SHIFT);
            lemma2_to64();
            lemma_barrett_quotient(product as int);
        }
        let quotient: u32 = (wide >> BARRETT_SHIFT) as u32;
        let rem = product - quotient * (Q as u32);
        proof {
            assert(product as int % 3329 == reduce_once_spec(rem as int)) by {
                vstd::arithmetic::div_mod::lemma_fundamental_div_mod(product as int, 3329);
            }
        }
        Self::new(rem as u16)
    }

    /// (self + other) mod q.
    pub fn add(self, other: Self) -> (r: Self)
        requires
            self.reduced(),
            other.reduced(),
        ensures
            r.reduced(),
            r.0 == (self.0 + other.0) % 3329,
    {
        Self::new(self.0 + other.0)
    }

    /// (self - other) mod q.
    pub fn sub(self, other: Self) -> (r: Self)
        requires
            self.reduced(),
            other.reduced(),
        ensures
            r.reduced(),
            r.0 == (self.0 - other.0) % 3329,
    {
        let result = if self.0 < other.0 {
            self.0 + Q - other.0
        } else {
            self.0 - other.0
        };
        Self::new(result)
    }

    /// (-self) mod q.
    pub fn neg(self) -> (r: Self)
        requires
            self.reduced(),
        ensures
            r.reduced(),
            r.0 == (-self.0) % 3329,
    {
        Self::new(Q - self.0)
    }

    /// (self * other) mod q, where `other` is a plain integer below q.
    pub fn mul_u16(self, other: u16) -> (r: Self)
        requires
            self.reduced(),
            other < q(),
        ensures
            r.reduced(),
            r.0 == (self.0 * other) % 3329,
    {
        proof {
            lemma_product_bound(self.0 as int, other as int);
        }
        let product = (self.0 as u32) * (other as u32);
        Self::barrett_reduce(product)
    }

    /// (self * other) mod q.
    pub fn mul(self, other: Self) -> (r: Self)
        requires
            self.reduced(),
            other.reduced(),
        ensures
            r.reduced(),
            r.0 == (self.0 * other.0) % 3329,
    {
        self.mul_u16(other.0)
    }

    /// Compress_d: round(2^d * x / q) mod 2^d for a reduced x; for any
    /// representative the result stays below 2^d.
    pub fn compress<const D: u16>(&self) -> (r: u16)
        requires
            1 <= D <= 11,
        ensures
            r < pow2(D as nat),
            self.reduced() ==> r == compress_spec(self.0 as int, D as nat),
    {
        compress_value(self.0, D)
    }

    /// Decompress_d: round(q * y / 2^d), truncated to 16 bits; below q for y < 2^d.
    pub fn decompress<const D: u16>(y: u16) -> (r: Self)
        requires
            1 <= D <= 11,
        ensures
            r.0 == decompress_spec(y as int, D as nat) % 0x10000,
            y < pow2(D as nat) ==> r.0 < q(),
    {
        FieldElement(decompress_value(y, D))
    }

    /// `Ok` exactly when the value is reduced.
    pub fn check_reduced(self) -> (r: core::result::Result<Self, OperationError>)
        ensures
            self.0 < q() ==> r == Ok::<Self, OperationError>(self),
            self.0 >= q() ==> r is Err,
    {
        if self.0 >= Q {
            Err(OperationError::UnreducedFieldElementError)
        } else {
            Ok(self)
        }
    }

    /// The representative.
    pub fn val(self) -> (r: u16)
        ensures
            r == self.0,
    {
        self.0
    }
}

/// Compress_d of a 16-bit value: round(2^d * x / q) mod 2^d for x below q; for any
/// value the result stays below 2^d.
pub fn compress_value(x: u16, d: u16) -> (r: u16)
    requires
        1 <= d <= 11,
    ensures
        r < pow2(d as nat),
        x < q() ==> r == compress_spec(x as int, d as nat),
{
    proof {
        lemma2_to64();
        lemma_pow2_at_most_2048(d as nat);
        assert((x as u64) * pow2(d as nat) <= 0xffff * 2048) by (nonlinear_arith)
            requires pow2(d as nat) <= 2048;
        lemma_u64_shl_is_mul(x as u64, d as u64);
    }
    let dividend: u64 = (x as u64) << (d as u64);
    let wide: u64 = dividend * BARRETT_MULTIPLIER;
    proof {
        lemma_u64_shr_is_div(wide, BARRETT_SHIFT);
        lemma_barrett_lower(dividend as int);
    }
    let quotient: u64 = wide >> BARRETT_SHIFT;
    let remainder: u64 = dividend - quotient * (Q as u64);
    let mut adjusted_quotient = quotient;
    if remainder > (Q / 2) as u64 {
        adjusted_quotient = adjusted_quotient + 1;
    }
    if remainder > (Q + Q / 2) as u64 {
        adjusted_quotient = adjusted_quotient + 1;
    }
    proof {
        lemma_u64_shl_is_mul(1, d as u64);
        vstd::bits::lemma_u64_low_bits_mask_is_mod(adjusted_quotient, d as nat);
        vstd::bits::lemma_low_bits_mask_unfold(d as nat);
        lemma_pow2_pos(d as nat);
        vstd::arithmetic::div_mod::lemma_mod_bound(adjusted_quotient as int, pow2(d as nat) as int);
        if x < Q {
            assert(dividend < 0x100_0000) by (nonlinear_arith)
                requires dividend == x * pow2(d as nat), x < 3329, pow2(d as nat) <= 2048;
            lemma_barrett_quotient(dividend as int);
            lemma_round_from_remainder(dividend as int, quotient as int, remainder as int);
            assert(2 * pow2(d as nat) * x == 2 * dividend) by (nonlinear_arith)
                requires dividend == x * pow2(d as nat);
        }
    }
    let mask: u64 = (1u64 << (d as u64)) - 1;
    (adjusted_quotient & mask) as u16
}

/// Decompress_d of a 16-bit value: round(q * y / 2^d), truncated to 16 bits; below q for y < 2^d.
pub fn decompress_value(y: u16, d: u16) -> (r: u16)
    requires
        1 <= d <= 11,
    ensures
        r == decompress_spec(y as int, d as nat) % 0x10000,
        y < pow2(d as nat) ==> r < q() && r == decompress_spec(y as int, d as nat),
{
    let dividend: u32 = (y as u32) * 3329u32;
    let hi: u32 = dividend >> (d as u32);
    let half: u32 = dividend >> ((d - 1) as u32);
    let bit: u32 = half & 1;
    proof {
        lemma2_to64();
        lemma_u32_shr_is_div(dividend, d as u32);
        lemma_u32_shr_is_div(dividend, (d - 1) as u32);
        assert(half & 1 == half % 2 && half & 1 <= 1) by (bit_vector);
        vstd::arithmetic::div_mod::lemma_div_is_ordered_by_denominator(dividend as int, 2, pow2(d as nat) as int);
        vstd::arithmetic::power2::lemma_pow2_unfold(d as nat);
        lemma_pow2_pos((d - 1) as nat);
        lemma_round_half_up_by_bit(dividend as int, pow2((d - 1) as nat) as int);
        lemma_div_pos_is_pos(dividend as int, pow2(d as nat) as int);
        vstd::arithmetic::div_mod::lemma_div_is_ordered_by_denominator(dividend as int, 1, pow2(d as nat) as int);
        if y < pow2(d as nat) {
            lemma_pow2_at_most_2048((d - 1) as nat);
            let p = pow2((d - 1) as nat) as int;
            assert(3329 * y + p < 3329 * (2 * p)) by (nonlinear_arith)
                requires y < 2 * p, p < 3329, 0 < p;
            lemma_fundamental_div_mod(3329 * y + p, 2 * p);
        }
    }
    let quotient: u32 = hi + bit;
    proof {
        let p = pow2((d - 1) as nat) as int;
        assert(pow2(d as nat) == 2 * p);
        assert(hi == dividend as int / (2 * p));
        assert(half == dividend as int / p);
        assert(bit == (dividend as int / p) % 2);
        assert(quotient == (dividend as int + p) / (2 * p));
        assert(dividend == 3329 * y);
        assert(quotient == decompress_spec(y as int, d as nat));
        if y < pow2(d as nat) {
            let x = 3329 * y + p;
            let t = x / (2 * p);
            assert(x == (2 * p) * t + x % (2 * p));
            assert(t < 3329) by (nonlinear_arith)
                requires x == (2 * p) * t + x % (2 * p), 0 <= x % (2 * p), x < 3329 * (2 * p), p > 0;
        }
        assert(quotient as u16 == quotient % 0x10000) by (bit_vector);
    }
    quotient.truncate()
}

/// Decompressing y < 2^d and compressing the result again gives back y, for
/// every width d up to 11.
pub proof fn lemma_compress_decompress(y: int, d: nat)
    requires
        1 <= d <= 11,
        0 <= y < pow2(d),
    ensures
        compress_spec(decompress_spec(y, d), d) == y,
{
    lemma_pow2_at_most_2048(d);
    vstd::arithmetic::power2::lemma_pow2_unfold(d);
    let big = pow2(d) as int;
    let h = pow2((d - 1) as nat) as int;
    let x = decompress_spec(y, d);
    assert(big == 2 * h);
    lemma_fundamental_div_mod(3329 * y + h, big);
    let s = (3329 * y + h) % big;
    assert(3329 * y + h == big * x + s);
    assert(0 <= s < big);
    let t = (2 * big * x + 3329) / 6658int;
    lemma_fundamental_div_mod(2 * big * x + 3329, 6658);
    let u = (2 * big * x + 3329) % 6658int;
    assert(2 * big * x + 3329 == 6658 * t + u);
    assert(t == y) by (nonlinear_arith)
        requires
            3329 * y + h == big * x + s,
            0 <= s < big,
            big == 2 * h,
            big <= 2048,
            2 * big * x + 3329 == 6658 * t + u,
            0 <= u < 6658,
    ;
    vstd::arithmetic::div_mod::lemma_small_mod(y as nat, big as nat);
}

} // verus!
