use vstd::arithmetic::div_mod::{lemma_add_mod_noop, lemma_mul_mod_noop_left};
use vstd::prelude::*;

use crate::constants::K_MOD_ROOTS;
use crate::error::KemError;
use crate::math::encoding::{byte_decode, byte_encode, decoded_value, encode_spec};
use crate::math::field_element::{q, FieldElement as F};
use crate::math::ntt::{inv_ntt_in_place, inv_ntt_spec, ntt_in_place, ntt_spec};
use crate::math::ring_element::{all_reduced, coef_ints, poly_add, RingElement};
use crate::symmetric::{shake128_of, xof};

verus! {

/// gamma_i = 17^(2 bitrev7(i) + 1) mod q, the modulus X^2 - gamma_i of pair i.
pub open spec fn gamma(i: int) -> int {
    (K_MOD_ROOTS@[i] as int) % q()
}

/// Coefficient j of the product of two NTT-domain polynomials: pair i = j / 2 is
/// (a0 b0 + a1 b1 gamma_i, a0 b1 + a1 b0) modulo q.
pub open spec fn ntt_product_coef(a: Seq<int>, b: Seq<int>, j: int) -> int {
    let i = j / 2;
    if j % 2 == 0 {
        (a[2 * i] * b[2 * i] + a[2 * i + 1] * b[2 * i + 1] * gamma(i)) % q()
    } else {
        (a[2 * i] * b[2 * i + 1] + a[2 * i + 1] * b[2 * i]) % q()
    }
}

/// The product of two NTT-domain polynomials.
pub open spec fn ntt_mul(a: Seq<int>, b: Seq<int>) -> Seq<int> {
    Seq::new(256, |j: int| ntt_product_coef(a, b, j))
}

/// The number of 3-byte blocks that SampleNTT reads: 840 bytes, five SHAKE-128
/// blocks. FIPS 203 allows a bound on this loop; 256 values are then missing
/// with probability below 2^-200.
pub const SAMPLE_NTT_BLOCKS: usize = 280;

/// The first candidate of a 3-byte block at offset o: its low 12 bits.
pub open spec fn candidate_lo(b: Seq<u8>, o: int) -> int {
    b[o] as int + 256 * ((b[o + 1] as int) % 16)
}

/// The second candidate of a 3-byte block at offset o: its high 12 bits.
pub open spec fn candidate_hi(b: Seq<u8>, o: int) -> int {
    (b[o + 1] as int) / 16 + 16 * (b[o + 2] as int)
}

/// The candidates below q that the first t blocks of b yield, in order.
pub open spec fn accepted(b: Seq<u8>, t: nat) -> Seq<int>
    decreases t,
{
    if t == 0 {
        Seq::empty()
    } else {
        let prev = accepted(b, (t - 1) as nat);
        let o = 3 * (t - 1);
        let lo = candidate_lo(b, o);
        let hi = candidate_hi(b, o);
        let with_lo = if lo < q() {
            prev.push(lo)
        } else {
            prev
        };
        if hi < q() {
            with_lo.push(hi)
        } else {
            with_lo
        }
    }
}

/// The XOF stream SampleNTT parses for (rho, i, j).
pub open spec fn sample_ntt_stream(rho: Seq<u8>, i: u8, j: u8) -> Seq<u8> {
    shake128_of(rho.push(i).push(j), 3 * SAMPLE_NTT_BLOCKS as nat)
}

/// A polynomial of T_q, in NTT form: 128 degree-one polynomials, modulo
/// X^2 - gamma_i, with coefficients at 2i and 2i + 1.
#[derive(Clone, Copy)]
pub struct NttElement {
    pub coefficients: [F; 256],
}

impl NttElement {
    /// NTT(r), the NTT form of a polynomial.
    pub fn new(r: &RingElement) -> (e: Self)
        requires
            all_reduced(r.coefs),
        ensures
            all_reduced(e.coefficients),
            coef_ints(e.coefficients) == ntt_spec(coef_ints(r.coefs)),
    {
        let mut coefficients = r.coefs;
        ntt_in_place(&mut coefficients);
        NttElement { coefficients }
    }

    /// The zero polynomial.
    pub fn zero() -> (e: Self)
        ensures
            all_reduced(e.coefficients),
            forall|i: int| 0 <= i < 256 ==> #[trigger] e.coefficients@[i].0 == 0,
    {
        NttElement { coefficients: [F(0); 256] }
    }

    /// The 256 coefficients.
    pub fn get_ring(&self) -> (r: [F; 256])
        ensures
            r == self.coefficients,
    {
        self.coefficients
    }

    /// NTT^-1(self), back to coefficient form.
    pub fn ntt_inv(&self) -> (r: RingElement)
        requires
            all_reduced(self.coefficients),
        ensures
            all_reduced(r.coefs),
            coef_ints(r.coefs) == inv_ntt_spec(coef_ints(self.coefficients)),
    {
        let mut coefs = self.coefficients;
        inv_ntt_in_place(&mut coefs);
        RingElement { coefs }
    }

    /// Coefficient-wise sum modulo q.
    pub fn add(&self, other: &Self) -> (r: Self)
        requires
            all_reduced(self.coefficients),
            all_reduced(other.coefficients),
        ensures
            all_reduced(r.coefficients),
            forall|i: int|
                0 <= i < 256 ==> #[trigger] r.coefficients@[i].0 == (self.coefficients@[i].0
                    + other.coefficients@[i].0) % 3329,
            coef_ints(r.coefficients) == poly_add(
                coef_ints(self.coefficients),
                coef_ints(other.coefficients),
            ),
    {
        let a = RingElement { coefs: self.coefficients };
        let b = RingElement { coefs: other.coefficients };
        NttElement { coefficients: a.add(&b).coefs }
    }

    /// BaseCaseMultiply: (a0 + a1 X)(b0 + b1 X) modulo X^2 - gamma.
    pub fn base_case_multiply(a_0: F, a_1: F, b_0: F, b_1: F, gamma: u16) -> (r: (F, F))
        requires
            a_0.reduced(),
            a_1.reduced(),
            b_0.reduced(),
            b_1.reduced(),
            gamma < q(),
        ensures
            r.0.reduced(),
            r.1.reduced(),
            r.0.0 == (a_0.0 * b_0.0 + a_1.0 * b_1.0 * gamma) % q(),
            r.1.0 == (a_0.0 * b_1.0 + a_1.0 * b_0.0) % q(),
    {
        let p00 = a_0.mul(b_0);
        let p11 = a_1.mul(b_1);
        let p11g = p11.mul_u16(gamma);
        let c_0 = p00.add(p11g);
        let c_1 = a_0.mul(b_1).add(a_1.mul(b_0));
        proof {
            let (x0, x1, y0, y1, g) = (a_0.0 as int, a_1.0 as int, b_0.0 as int, b_1.0 as int, gamma as int);
            lemma_mul_mod_noop_left(x1 * y1, g, 3329);
            lemma_add_mod_noop(x0 * y0, x1 * y1 * g, 3329);
            lemma_add_mod_noop(x0 * y1, x1 * y0, 3329);
        }
        (c_0, c_1)
    }

    /// SampleNTT(XOF(rho, ii, jj)): the first 256 candidates below q that the XOF
    /// stream yields, taken as NTT-domain coefficients. `None` when the bounded
    /// stream holds fewer than 256 of them.
    pub fn sample_ntt(rho: &[u8], ii: u8, jj: u8) -> (r: Option<NttElement>)
        ensures
            accepted(sample_ntt_stream(rho@, ii, jj), SAMPLE_NTT_BLOCKS as nat).len() >= 256
                <==> r is Some,
            r matches Some(e) ==> all_reduced(e.coefficients) && forall|k: int|
                0 <= k < 256 ==> #[trigger] e.coefficients@[k].0 == accepted(
                    sample_ntt_stream(rho@, ii, jj),
                    SAMPLE_NTT_BLOCKS as nat,
                )[k],
    {
        let buf = xof(rho, ii, jj, 3 * SAMPLE_NTT_BLOCKS);
        let ghost stream = sample_ntt_stream(rho@, ii, jj);
        let mut a = [F(0); 256];
        let mut j: usize = 0;
        let mut t: usize = 0;
        while t < SAMPLE_NTT_BLOCKS
            invariant
                t <= SAMPLE_NTT_BLOCKS,
                buf@ == stream,
                stream.len() == 3 * SAMPLE_NTT_BLOCKS,
                j <= 256,
                j == if accepted(stream, t as nat).len() < 256 {
                    accepted(stream, t as nat).len()
                } else {
                    256
                },
                forall|k: int| 0 <= k < j ==> #[trigger] a@[k].0 == accepted(stream, t as nat)[k],
                forall|k: int| 0 <= k < j ==> #[trigger] a@[k].0 < q(),
            decreases SAMPLE_NTT_BLOCKS - t,
        {
            let o = 3 * t;
            let b0 = buf[o] as u16;
            let b1 = buf[o + 1] as u16;
            let b2 = buf[o + 2] as u16;
            let lo: u16 = b0 + 256 * (b1 % 16);
            let hi: u16 = b1 / 16 + 16 * b2;
            let ghost prev = accepted(stream, t as nat);
            if lo < 3329 && j < 256 {
                a[j] = F(lo);
                j = j + 1;
            }
            let ghost with_lo = if (lo as int) < q() { prev.push(lo as int) } else { prev };
            if hi < 3329 && j < 256 {
                a[j] = F(hi);
                j = j + 1;
            }
            proof {
                assert(accepted(stream, (t + 1) as nat) == if (hi as int) < q() {
                    with_lo.push(hi as int)
                } else {
                    with_lo
                });
            }
            t = t + 1;
        }
        if j < 256 {
            None
        } else {
            Some(NttElement { coefficients: a })
        }
    }

    /// ByteEncode_12 of the coefficients, appended to `b`.
    pub fn byte_encode_12(&self, b: Vec<u8>) -> (r: Vec<u8>)
        ensures
            r@.len() == b@.len() + 384,
            r@ == b@ + encode_spec(coef_ints(self.coefficients), 12),
    {
        let enc = byte_encode(12, &self.coefficients);
        let mut out = b;
        let ghost prefix = out@;
        out.extend_from_slice(&enc);

        out
    }

    /// ByteDecode_12 with the range check: `Err(InvalidInput)` when `b` is not
    /// 384 bytes long or a 12-bit value is q or more.
    pub fn byte_decode_12(b: &[u8]) -> (r: Result<Self, KemError>)
        ensures
            r is Ok <==> (b@.len() == 384 && forall|i: int|
                0 <= i < 256 ==> #[trigger] decoded_value(b@, 12, i) < q()),
            r matches Ok(e) ==> all_reduced(e.coefficients) && forall|i: int|
                0 <= i < 256 ==> #[trigger] e.coefficients@[i].0 == decoded_value(b@, 12, i),
            r matches Err(err) ==> err == KemError::InvalidInput,
    {
        if b.len() != 384 {
            return Err(KemError::InvalidInput);
        }
        let mut i: usize = 0;
        let mut ok: bool = true;
        while i < 256
            invariant
                b@.len() == 384,
                i <= 256,
                ok <==> forall|k: int| 0 <= k < i ==> #[trigger] decoded_value(b@, 12, k) < q(),
            decreases 256 - i,
        {
            proof {
                assert(12 * i + 12 <= 3072) by (nonlinear_arith)
                    requires i < 256;
            }
            let v = crate::math::encoding::read_bits(b, 12 * i, 12);
            proof {
                assert(v as int == decoded_value(b@, 12, i as int));
            }
            let ghost was_ok = ok;
            ok = ok && v < 3329;
            proof {
                if ok {
                    assert forall|k: int| 0 <= k < i + 1 implies #[trigger] decoded_value(b@, 12, k) < q() by {
                        if k < i {
                            assert(was_ok);
                        }
                    }
                } else if was_ok {
                    assert(!(decoded_value(b@, 12, i as int) < q()));
                }
            }
            i = i + 1;
        }
        if !ok {
            return Err(KemError::InvalidInput);
        }
        let coefficients = byte_decode(12, b);
        proof {
            assert forall|i: int| 0 <= i < 256 implies #[trigger] coefficients@[i].0
                == decoded_value(b@, 12, i) by {
                assert(decoded_value(b@, 12, i) < q());
                crate::math::encoding::lemma_byte_bit_range(b@);
                crate::math::encoding::lemma_bits_value_bound(b@, i * 12, 12);
                vstd::arithmetic::div_mod::lemma_small_mod(decoded_value(b@, 12, i) as nat, 3329);
            }
        }
        Ok(NttElement { coefficients })
    }

    /// MultiplyNTTs: the product in T_q, pair by pair.
    pub fn multiply_ntts(&self, other: &Self) -> (r: Self)
        requires
            all_reduced(self.coefficients),
            all_reduced(other.coefficients),
        ensures
            all_reduced(r.coefficients),
            forall|j: int|
                0 <= j < 256 ==> #[trigger] r.coefficients@[j].0 == ntt_product_coef(
                    coef_ints(self.coefficients),
                    coef_ints(other.coefficients),
                    j,
                ),
            coef_ints(r.coefficients) == ntt_mul(
                coef_ints(self.coefficients),
                coef_ints(other.coefficients),
            ),
    {
        let ghost a = coef_ints(self.coefficients);
        let ghost b = coef_ints(other.coefficients);
        let mut h = [F(0); 256];
        let mut i: usize = 0;
        while i < 128
            invariant
                i <= 128,
                a == coef_ints(self.coefficients),
                b == coef_ints(other.coefficients),
                all_reduced(self.coefficients),
                all_reduced(other.coefficients),
                forall|j: int| 0 <= j < 2 * i ==> #[trigger] h@[j].0 < q(),
                forall|j: int| 2 * i <= j < 256 ==> #[trigger] h@[j].0 == 0,
                forall|j: int|
                    0 <= j < 2 * i ==> #[trigger] h@[j].0 == ntt_product_coef(a, b, j),
            decreases 128 - i,
        {
            let g = F(K_MOD_ROOTS[i] % 3329);
            let (c_0, c_1) = NttElement::base_case_multiply(
                self.coefficients[2 * i],
                self.coefficients[2 * i + 1],
                other.coefficients[2 * i],
                other.coefficients[2 * i + 1],
                g.0,
            );
            h[2 * i] = c_0;
            h[2 * i + 1] = c_1;
            proof {
                assert((2 * i) / 2 == i && (2 * i) % 2 == 0);
                assert((2 * i + 1) / 2 == i && (2 * i + 1) % 2 == 1);
            }
            i = i + 1;
        }
        proof {
            assert(coef_ints(h) =~= ntt_mul(a, b));
        }
        NttElement { coefficients: h }
    }
}

} // verus!
