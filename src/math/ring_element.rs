use vstd::prelude::*;

use vstd::arithmetic::power2::pow2;

use crate::math::field_element::{
    compress_spec, compress_value, decompress_spec, decompress_value, q, FieldElement as F,
};
use crate::symmetric::{prf, shake256_of};

verus! {

/// The coefficients of a polynomial as integers.
pub open spec fn coef_ints(a: [F; 256]) -> Seq<int> {
    Seq::new(256, |i: int| a@[i].0 as int)
}

/// Coefficient-wise sum modulo q.
pub open spec fn poly_add(a: Seq<int>, b: Seq<int>) -> Seq<int> {
    Seq::new(256, |i: int| (a[i] + b[i]) % q())
}

/// Coefficient-wise difference modulo q.
pub open spec fn poly_sub(a: Seq<int>, b: Seq<int>) -> Seq<int> {
    Seq::new(256, |i: int| (a[i] - b[i]) % q())
}

/// Compress_d applied to each coefficient.
pub open spec fn compress_poly(a: Seq<int>, d: nat) -> Seq<int> {
    Seq::new(256, |i: int| compress_spec(a[i], d))
}

/// Decompress_d applied to each coefficient.
pub open spec fn decompress_poly(a: Seq<int>, d: nat) -> Seq<int> {
    Seq::new(256, |i: int| decompress_spec(a[i], d))
}

/// Every coefficient lies in [0, q).
pub open spec fn all_reduced(a: [F; 256]) -> bool {
    forall|i: int| 0 <= i < 256 ==> #[trigger] a@[i].0 < q()
}

/// Bit k of a byte string, least significant bit of each byte first.
pub open spec fn byte_bit(b: Seq<u8>, k: int) -> int {
    ((b[k / 8] >> ((k % 8) as u8)) & 1u8) as int
}

/// The number of set bits among bits [start, start + len) of a byte string.
pub open spec fn bit_count(b: Seq<u8>, start: int, len: nat) -> int
    decreases len,
{
    if len == 0 {
        0
    } else {
        bit_count(b, start, (len - 1) as nat) + byte_bit(b, start + len - 1)
    }
}

/// Coefficient i of SamplePolyCBD_eta on the byte string b: the number of set
/// bits among the first eta of its 2 * eta bits, less the number among the
/// last eta, modulo q.
pub open spec fn cbd_coef(b: Seq<u8>, eta: nat, i: int) -> int {
    (bit_count(b, 2 * i * eta, eta) - bit_count(b, 2 * i * eta + eta, eta)) % q()
}

/// Bit k of a byte string, read with a shift and a mask.
pub fn get_bit(b: &[u8], k: usize) -> (r: u8)
    requires
        k < 8 * b@.len(),
    ensures
        r as int == byte_bit(b@, k as int),
        r <= 1,
{
    let byte = b[k / 8];
    let sh = (k % 8) as u8;
    let shifted = byte >> sh;
    assert(shifted & 1 <= 1) by (bit_vector);
    shifted & 1
}

/// The number of set bits among bits [start, start + len) of `b`.
fn count_bits(b: &[u8], start: usize, len: usize) -> (r: u16)
    requires
        start + len <= 8 * b@.len(),
        start + len <= usize::MAX,
        len <= 3,
    ensures
        r as int == bit_count(b@, start as int, len as nat),
        r <= len,
{
    let mut acc: u16 = 0;
    let mut j: usize = 0;
    while j < len
        invariant
            start + len <= 8 * b@.len(),
            start + len <= usize::MAX,
            len <= 3,
            j <= len,
            acc as int == bit_count(b@, start as int, j as nat),
            acc <= j,
        decreases len - j,
    {
        let bit = get_bit(b, start + j);
        acc = acc + bit as u16;
        j = j + 1;
    }
    acc
}

/// A polynomial of R_q in coefficient form: 256 coefficients modulo q.
#[derive(Clone, Copy)]
pub struct RingElement {
    pub coefs: [F; 256],
}

impl RingElement {
    /// The polynomial with the given coefficients.
    pub fn new(val: [F; 256]) -> (r: Self)
        ensures
            r.coefs == val,
    {
        RingElement { coefs: val }
    }

    /// The zero polynomial.
    pub fn zero() -> (r: Self)
        ensures
            forall|i: int| 0 <= i < 256 ==> #[trigger] r.coefs@[i].0 == 0,
            all_reduced(r.coefs),
    {
        RingElement { coefs: [F(0); 256] }
    }

    /// Coefficient-wise sum modulo q.
    pub fn add(&self, other: &Self) -> (r: Self)
        requires
            all_reduced(self.coefs),
            all_reduced(other.coefs),
        ensures
            all_reduced(r.coefs),
            forall|i: int|
                0 <= i < 256 ==> #[trigger] r.coefs@[i].0 == (self.coefs@[i].0
                    + other.coefs@[i].0) % 3329,
            coef_ints(r.coefs) == poly_add(coef_ints(self.coefs), coef_ints(other.coefs)),
    {
        let mut result = [F(0); 256];
        let mut i: usize = 0;
        while i < 256
            invariant
                all_reduced(self.coefs),
                all_reduced(other.coefs),
                i <= 256,
                forall|k: int|
                    0 <= k < i ==> #[trigger] result@[k].0 == (self.coefs@[k].0
                        + other.coefs@[k].0) % 3329,
            decreases 256 - i,
        {
            result[i] = self.coefs[i].add(other.coefs[i]);
            i = i + 1;
        }
        proof {
            assert(coef_ints(result) =~= poly_add(coef_ints(self.coefs), coef_ints(other.coefs)));
        }
        RingElement { coefs: result }
    }

    /// Coefficient-wise difference modulo q.
    pub fn sub(&self, other: &Self) -> (r: Self)
        requires
            all_reduced(self.coefs),
            all_reduced(other.coefs),
        ensures
            all_reduced(r.coefs),
            forall|i: int|
                0 <= i < 256 ==> #[trigger] r.coefs@[i].0 == (self.coefs@[i].0
                    - other.coefs@[i].0) % 3329,
            coef_ints(r.coefs) == poly_sub(coef_ints(self.coefs), coef_ints(other.coefs)),
    {
        let mut result = [F(0); 256];
        let mut i: usize = 0;
        while i < 256
            invariant
                all_reduced(self.coefs),
                all_reduced(other.coefs),
                i <= 256,
                forall|k: int|
                    0 <= k < i ==> #[trigger] result@[k].0 == (self.coefs@[k].0
                        - other.coefs@[k].0) % 3329,
            decreases 256 - i,
        {
            result[i] = self.coefs[i].sub(other.coefs[i]);
            i = i + 1;
        }
        proof {
            assert(coef_ints(result) =~= poly_sub(coef_ints(self.coefs), coef_ints(other.coefs)));
        }
        RingElement { coefs: result }
    }

    /// Coefficient-wise negation modulo q.
    pub fn neg(&self) -> (r: Self)
        requires
            all_reduced(self.coefs),
        ensures
            all_reduced(r.coefs),
            forall|i: int|
                0 <= i < 256 ==> #[trigger] r.coefs@[i].0 == (-self.coefs@[i].0) % 3329,
    {
        let mut result = [F(0); 256];
        let mut i: usize = 0;
        while i < 256
            invariant
                all_reduced(self.coefs),
                i <= 256,
                forall|k: int|
                    0 <= k < i ==> #[trigger] result@[k].0 == (-self.coefs@[k].0) % 3329,
            decreases 256 - i,
        {
            result[i] = self.coefs[i].neg();
            i = i + 1;
        }
        RingElement { coefs: result }
    }

    /// Compress_d of every coefficient, in place.
    pub fn compress(&mut self, d: u16)
        requires
            1 <= d <= 11,
            all_reduced(old(self).coefs),
        ensures
            coef_ints(final(self).coefs) == compress_poly(coef_ints(old(self).coefs), d as nat),
            forall|i: int| 0 <= i < 256 ==> #[trigger] final(self).coefs@[i].0 < pow2(d as nat),
    {
        let ghost a = coef_ints(self.coefs);
        let mut i: usize = 0;
        while i < 256
            invariant
                1 <= d <= 11,
                i <= 256,
                a == coef_ints(old(self).coefs),
                forall|k: int| i <= k < 256 ==> #[trigger] self.coefs@[k].0 == a[k],
                forall|k: int| i <= k < 256 ==> #[trigger] self.coefs@[k].0 < q(),
                forall|k: int|
                    0 <= k < i ==> #[trigger] self.coefs@[k].0 == compress_spec(a[k], d as nat),
                forall|k: int| 0 <= k < i ==> #[trigger] self.coefs@[k].0 < pow2(d as nat),
            decreases 256 - i,
        {
            let c = compress_value(self.coefs[i].0, d);
            self.coefs[i] = F(c);
            i = i + 1;
        }
        proof {
            assert(coef_ints(self.coefs) =~= compress_poly(a, d as nat));
        }
    }

    /// Decompress_d of every coefficient, in place.
    pub fn decompress(&mut self, d: u16)
        requires
            1 <= d <= 11,
            forall|i: int| 0 <= i < 256 ==> #[trigger] old(self).coefs@[i].0 < pow2(d as nat),
        ensures
            all_reduced(final(self).coefs),
            coef_ints(final(self).coefs) == decompress_poly(coef_ints(old(self).coefs), d as nat),
    {
        let ghost a = coef_ints(self.coefs);
        let mut i: usize = 0;
        while i < 256
            invariant
                1 <= d <= 11,
                i <= 256,
                a == coef_ints(old(self).coefs),
                forall|k: int| i <= k < 256 ==> #[trigger] self.coefs@[k].0 == a[k],
                forall|k: int| i <= k < 256 ==> #[trigger] self.coefs@[k].0 < pow2(d as nat),
                forall|k: int|
                    0 <= k < i ==> #[trigger] self.coefs@[k].0 == decompress_spec(a[k], d as nat),
                forall|k: int| 0 <= k < i ==> #[trigger] self.coefs@[k].0 < q(),
            decreases 256 - i,
        {
            let c = decompress_value(self.coefs[i].0, d);
            self.coefs[i] = F(c);
            i = i + 1;
        }
        proof {
            assert(coef_ints(self.coefs) =~= decompress_poly(a, d as nat));
        }
    }

    /// SamplePolyCBD_eta(PRF_eta(s, b)): coefficients from the centered binomial
    /// distribution of width ETA, drawn from SHAKE-256(s || b).
    pub fn sample_poly_cbd<const ETA: usize>(s: &[u8], b: u8) -> (r: RingElement)
        requires
            ETA == 2 || ETA == 3,
        ensures
            all_reduced(r.coefs),
            forall|i: int|
                0 <= i < 256 ==> #[trigger] r.coefs@[i].0 == cbd_coef(
                    shake256_of(s@.push(b), (64 * ETA) as nat),
                    ETA as nat,
                    i,
                ),
    {
        let buf = prf(ETA, s, b);
        let ghost bytes = shake256_of(s@.push(b), (64 * ETA) as nat);
        let mut f = [F(0); 256];
        let mut i: usize = 0;
        let mut pos: usize = 0;
        while i < 256
            invariant
                ETA == 2 || ETA == 3,
                buf@ == bytes,
                bytes.len() == 64 * ETA,
                i <= 256,
                pos == 2 * i * ETA,
                forall|k: int|
                    0 <= k < i ==> #[trigger] f@[k].0 == cbd_coef(bytes, ETA as nat, k),
                forall|k: int| 0 <= k < i ==> #[trigger] f@[k].0 < q(),
            decreases 256 - i,
        {
            proof {
                assert(2 * i * ETA + 2 * ETA <= 512 * ETA) by (nonlinear_arith)
                    requires i < 256;
                assert(2 * (i + 1) * ETA == 2 * i * ETA + 2 * ETA) by (nonlinear_arith);
            }
            let x = count_bits(&buf, pos, ETA);
            let y = count_bits(&buf, pos + ETA, ETA);
            let c = F::new(x).sub(F::new(y));
            f[i] = c;
            pos = pos + 2 * ETA;
            i = i + 1;
        }
        RingElement { coefs: f }
    }
}

/// Ring addition is commutative: a + b and b + a have the same coefficients.
pub proof fn lemma_add_commutative(a: RingElement, b: RingElement)
    ensures
        poly_add(coef_ints(a.coefs), coef_ints(b.coefs)) == poly_add(
            coef_ints(b.coefs),
            coef_ints(a.coefs),
        ),
{
    assert(poly_add(coef_ints(a.coefs), coef_ints(b.coefs)) =~= poly_add(
        coef_ints(b.coefs),
        coef_ints(a.coefs),
    ));
}

/// Addition modulo q is associative.
proof fn lemma_add_mod_associative(x: int, y: int, z: int)
    ensures
        ((x + y) % 3329 + z) % 3329 == (x + (y + z) % 3329) % 3329,
{
    vstd::arithmetic::div_mod::lemma_add_mod_noop(x + y, z, 3329);
    vstd::arithmetic::div_mod::lemma_add_mod_noop(x, y + z, 3329);
    vstd::arithmetic::div_mod::lemma_mod_twice(z, 3329);
    vstd::arithmetic::div_mod::lemma_mod_twice(x, 3329);
    assert((x + y) + z == x + (y + z));
}

/// Ring addition is associative: (a + b) + c and a + (b + c) have the same
/// coefficients.
pub proof fn lemma_add_associative(a: RingElement, b: RingElement, c: RingElement)
    ensures
        poly_add(poly_add(coef_ints(a.coefs), coef_ints(b.coefs)), coef_ints(c.coefs))
            == poly_add(coef_ints(a.coefs), poly_add(coef_ints(b.coefs), coef_ints(c.coefs))),
{
    let (x, y, z) = (coef_ints(a.coefs), coef_ints(b.coefs), coef_ints(c.coefs));
    assert forall|i: int| 0 <= i < 256 implies #[trigger] poly_add(poly_add(x, y), z)[i]
        == poly_add(x, poly_add(y, z))[i] by {
        lemma_add_mod_associative(x[i], y[i], z[i]);
    }
    assert(poly_add(poly_add(x, y), z) =~= poly_add(x, poly_add(y, z)));
}

/// Zero is the identity of ring addition: a + 0 = 0 + a = a for a reduced a.
pub proof fn lemma_add_zero(a: RingElement, zero: RingElement)
    requires
        all_reduced(a.coefs),
        forall|i: int| 0 <= i < 256 ==> #[trigger] zero.coefs@[i].0 == 0,
    ensures
        poly_add(coef_ints(a.coefs), coef_ints(zero.coefs)) == coef_ints(a.coefs),
        poly_add(coef_ints(zero.coefs), coef_ints(a.coefs)) == coef_ints(a.coefs),
{
    assert forall|i: int| 0 <= i < 256 implies #[trigger] poly_add(
        coef_ints(a.coefs),
        coef_ints(zero.coefs),
    )[i] == coef_ints(a.coefs)[i] by {
        vstd::arithmetic::div_mod::lemma_small_mod(a.coefs@[i].0 as nat, 3329);
    }
    assert forall|i: int| 0 <= i < 256 implies #[trigger] poly_add(
        coef_ints(zero.coefs),
        coef_ints(a.coefs),
    )[i] == coef_ints(a.coefs)[i] by {
        vstd::arithmetic::div_mod::lemma_small_mod(a.coefs@[i].0 as nat, 3329);
    }
    assert(poly_add(coef_ints(a.coefs), coef_ints(zero.coefs)) =~= coef_ints(a.coefs));
    assert(poly_add(coef_ints(zero.coefs), coef_ints(a.coefs)) =~= coef_ints(a.coefs));
}

} // verus!
