//! Bit-packing of 256 coefficients at d bits each (ByteEncode_d / ByteDecode_d).
use vstd::arithmetic::div_mod::{lemma_fundamental_div_mod, lemma_mod_multiples_vanish};
use vstd::arithmetic::power2::{lemma2_to64, lemma_pow2_pos, lemma_pow2_unfold, pow2};
use vstd::bits::{lemma_u16_shl_is_mul, lemma_u16_shr_is_div};
use vstd::prelude::*;

use crate::math::field_element::{lemma_pow2_at_most_2048, q, FieldElement as F};
use crate::math::ntt_element::NttElement;
use crate::math::ring_element::{byte_bit, coef_ints, compress_poly, decompress_poly, get_bit, RingElement};

verus! {

/// Bit j of a non-negative integer.
pub open spec fn int_bit(x: int, j: nat) -> int {
    (x / (pow2(j) as int)) % 2
}

/// The d low bits of x, least significant first.
pub open spec fn int_bits(x: int, d: nat) -> Seq<int> {
    Seq::new(d, |j: int| int_bit(x, j as nat))
}

/// The bits of the first n coefficients, d bits each, in order.
pub open spec fn coef_bits(a: Seq<int>, d: nat, n: nat) -> Seq<int>
    decreases n,
{
    if n == 0 {
        Seq::empty()
    } else {
        coef_bits(a, d, (n - 1) as nat) + int_bits(a[n - 1], d)
    }
}

/// The byte that bits [8i, 8i + 8) spell, least significant first.
pub open spec fn byte_of_bits(bits: Seq<int>, i: int) -> u8 {
    (bits[8 * i] + 2 * bits[8 * i + 1] + 4 * bits[8 * i + 2] + 8 * bits[8 * i + 3] + 16 * bits[8
        * i + 4] + 32 * bits[8 * i + 5] + 64 * bits[8 * i + 6] + 128 * bits[8 * i + 7]) as u8
}

/// The byte string that a bit string spells, eight bits per byte.
pub open spec fn bits_to_bytes(bits: Seq<int>) -> Seq<u8> {
    Seq::new(bits.len() / 8, |i: int| byte_of_bits(bits, i))
}

/// ByteEncode_d(a): the d low bits of each of the 256 coefficients, in order,
/// packed least significant bit first.
pub open spec fn encode_spec(a: Seq<int>, d: nat) -> Seq<u8> {
    bits_to_bytes(coef_bits(a, d, 256))
}

/// ByteDecode_d(b) as integers.
pub open spec fn decode_spec(b: Seq<u8>, d: nat) -> Seq<int> {
    Seq::new(256, |i: int| decode_coef(b, d, i))
}

/// A byte string is spelled by its own bits.
pub proof fn lemma_bytes_of_bits(b: Seq<u8>)
    ensures
        bits_to_bytes(bytes_bits(b)) == b,
{
    assert forall|i: int| 0 <= i < b.len() implies #[trigger] byte_of_bits(bytes_bits(b), i)
        == b[i] by {
        let x = b[i];
        let bits = bytes_bits(b);
        assert forall|t: int| 0 <= t < 8 implies #[trigger] bits[8 * i + t] == ((x >> (t as u8))
            & 1u8) as int by {
            assert((8 * i + t) / 8 == i);
            assert((8 * i + t) % 8 == t);
        }
        assert(bits[8 * i] == ((x >> 0u8) & 1u8) as int);
        assert(bits[8 * i + 1] == ((x >> 1u8) & 1u8) as int);
        assert(bits[8 * i + 2] == ((x >> 2u8) & 1u8) as int);
        assert(bits[8 * i + 3] == ((x >> 3u8) & 1u8) as int);
        assert(bits[8 * i + 4] == ((x >> 4u8) & 1u8) as int);
        assert(bits[8 * i + 5] == ((x >> 5u8) & 1u8) as int);
        assert(bits[8 * i + 6] == ((x >> 6u8) & 1u8) as int);
        assert(bits[8 * i + 7] == ((x >> 7u8) & 1u8) as int);
        assert(x == (((x >> 0u8) & 1u8) + 2 * ((x >> 1u8) & 1u8) + 4 * ((x >> 2u8) & 1u8) + 8 * ((x
            >> 3u8) & 1u8) + 16 * ((x >> 4u8) & 1u8) + 32 * ((x >> 5u8) & 1u8) + 64 * ((x >> 6u8)
            & 1u8) + 128 * ((x >> 7u8) & 1u8)) as u8) by (bit_vector);
    }
    assert(bits_to_bytes(bytes_bits(b)) =~= b);
}

/// The bits of a byte string, least significant bit of each byte first.
pub open spec fn bytes_bits(b: Seq<u8>) -> Seq<int> {
    Seq::new(8 * b.len(), |k: int| byte_bit(b, k))
}

/// The integer that bits [start, start + len) of a byte string spell, least
/// significant first.
pub open spec fn bits_value(b: Seq<u8>, start: int, len: nat) -> int
    decreases len,
{
    if len == 0 {
        0
    } else {
        bits_value(b, start, (len - 1) as nat) + byte_bit(b, start + len - 1) * pow2(
            (len - 1) as nat,
        )
    }
}

/// Coefficient i of ByteDecode_d(b), before any reduction.
pub open spec fn decoded_value(b: Seq<u8>, d: nat, i: int) -> int {
    bits_value(b, i * d, d)
}

/// Setting bit `sh` of a byte leaves its other bits as they were.
proof fn lemma_set_bit(x: u8, bit: u8, sh: u8)
    requires
        bit <= 1,
        sh < 8,
    ensures
        forall|t: u8|
            t < 8 ==> #[trigger] (((x | (bit << sh)) >> t) & 1u8) == if t == sh {
                ((x >> t) & 1u8) | bit
            } else {
                (x >> t) & 1u8
            },
{
    assert(forall|t: u8|
        t < 8 ==> #[trigger] (((x | (bit << sh)) >> t) & 1u8) == if t == sh {
            ((x >> t) & 1u8) | bit
        } else {
            (x >> t) & 1u8
        }) by (bit_vector)
        requires
            bit <= 1,
            sh < 8,
    ;
}

/// A value spelled by len bits is below 2^len.
pub proof fn lemma_bits_value_bound(b: Seq<u8>, start: int, len: nat)
    requires
        forall|k: int| start <= k < start + len ==> 0 <= #[trigger] byte_bit(b, k) <= 1,
    ensures
        0 <= bits_value(b, start, len) < pow2(len),
    decreases len,
{
    lemma_pow2_pos(len);
    if len > 0 {
        let prev = bits_value(b, start, (len - 1) as nat);
        let bit = byte_bit(b, start + len - 1);
        let p = pow2((len - 1) as nat) as int;
        lemma_bits_value_bound(b, start, (len - 1) as nat);
        lemma_pow2_unfold(len);
        assert(0 <= prev + bit * p < 2 * p) by (nonlinear_arith)
            requires 0 <= prev < p, 0 <= bit <= 1;
    }
}

/// Each bit of a byte is 0 or 1.
pub proof fn lemma_byte_bit_range(b: Seq<u8>)
    ensures
        forall|k: int| 0 <= k < 8 * b.len() ==> 0 <= #[trigger] byte_bit(b, k) <= 1,
{
    assert forall|k: int| 0 <= k < 8 * b.len() implies 0 <= #[trigger] byte_bit(b, k) <= 1 by {
        let x = b[k / 8];
        let t = (k % 8) as u8;
        assert((x >> t) & 1u8 <= 1) by (bit_vector);
    }
}

/// Coefficient i of ByteDecode_d(b): the value of its d bits, reduced modulo q
/// when d is 12.
pub open spec fn decode_coef(b: Seq<u8>, d: nat, i: int) -> int {
    if d == 12 {
        decoded_value(b, d, i) % q()
    } else {
        decoded_value(b, d, i)
    }
}

/// The bit string of n coefficients at d bits each has n d bits.
pub proof fn lemma_coef_bits_len(a: Seq<int>, d: nat, n: nat)
    ensures
        coef_bits(a, d, n).len() == n * d,
    decreases n,
{
    if n > 0 {
        let m = (n - 1) as nat;
        lemma_coef_bits_len(a, d, m);
        assert(int_bits(a[m as int], d).len() == d);
        assert(coef_bits(a, d, n) == coef_bits(a, d, m) + int_bits(a[m as int], d));
        assert(m * d + d == n * d) by (nonlinear_arith)
            requires m + 1 == n;
    } else {
        assert(n * d == 0) by (nonlinear_arith)
            requires n == 0;
    }
}

/// Bit i d + j of the bit string is bit j of coefficient i.
proof fn lemma_coef_bits_index(a: Seq<int>, d: nat, n: nat, i: int, j: int)
    requires
        0 <= i < n,
        0 <= j < d,
    ensures
        coef_bits(a, d, n)[i * d + j] == int_bit(a[i], j as nat),
    decreases n,
{
    lemma_coef_bits_len(a, d, (n - 1) as nat);
    if i < n - 1 {
        lemma_coef_bits_index(a, d, (n - 1) as nat, i, j);
        assert(i * d + j < (n - 1) * d) by (nonlinear_arith)
            requires i < n - 1, j < d;
    } else {
        assert(i * d + j == (n - 1) * d + j);
    }
}

/// A byte spelled by eight 0/1 bits gives each of them back.
proof fn lemma_byte_of_bits_bits(bits: Seq<int>, i: int)
    requires
        0 <= i,
        8 * i + 8 <= bits.len(),
        forall|k: int| 8 * i <= k < 8 * i + 8 ==> 0 <= #[trigger] bits[k] <= 1,
    ensures
        forall|t: int|
            0 <= t < 8 ==> ((byte_of_bits(bits, i) >> (t as u8)) & 1u8) as int == #[trigger] bits[8
                * i + t],
{
    let b0 = bits[8 * i] as u8;
    let b1 = bits[8 * i + 1] as u8;
    let b2 = bits[8 * i + 2] as u8;
    let b3 = bits[8 * i + 3] as u8;
    let b4 = bits[8 * i + 4] as u8;
    let b5 = bits[8 * i + 5] as u8;
    let b6 = bits[8 * i + 6] as u8;
    let b7 = bits[8 * i + 7] as u8;
    let x = byte_of_bits(bits, i);
    assert(x == (b0 + 2 * b1 + 4 * b2 + 8 * b3 + 16 * b4 + 32 * b5 + 64 * b6 + 128 * b7) as u8);
    assert({
        let y = (b0 + 2 * b1 + 4 * b2 + 8 * b3 + 16 * b4 + 32 * b5 + 64 * b6 + 128 * b7) as u8;
        &&& (y >> 0u8) & 1u8 == b0
        &&& (y >> 1u8) & 1u8 == b1
        &&& (y >> 2u8) & 1u8 == b2
        &&& (y >> 3u8) & 1u8 == b3
        &&& (y >> 4u8) & 1u8 == b4
        &&& (y >> 5u8) & 1u8 == b5
        &&& (y >> 6u8) & 1u8 == b6
        &&& (y >> 7u8) & 1u8 == b7
    }) by (bit_vector)
        requires
            b0 <= 1,
            b1 <= 1,
            b2 <= 1,
            b3 <= 1,
            b4 <= 1,
            b5 <= 1,
            b6 <= 1,
            b7 <= 1,
    ;
    assert forall|t: int| 0 <= t < 8 implies ((x >> (t as u8)) & 1u8) as int == #[trigger] bits[8
        * i + t] by {
        if t == 0 {
        } else if t == 1 {
        } else if t == 2 {
        } else if t == 3 {
        } else if t == 4 {
        } else if t == 5 {
        } else if t == 6 {
        } else {
        }
    }
}

/// The bits of the bytes that a 0/1 bit string spells are that bit string.
proof fn lemma_bits_of_bytes(bits: Seq<int>)
    requires
        bits.len() % 8 == 0,
        forall|k: int| 0 <= k < bits.len() ==> 0 <= #[trigger] bits[k] <= 1,
    ensures
        bytes_bits(bits_to_bytes(bits)) == bits,
{
    let b = bits_to_bytes(bits);
    assert forall|k: int| 0 <= k < bits.len() implies #[trigger] bytes_bits(b)[k] == bits[k] by {
        let i = k / 8;
        let t = k % 8;
        lemma_byte_of_bits_bits(bits, i);
        assert(bits[8 * i + t] == bits[k]);
    }
    assert(bytes_bits(b) =~= bits);
}

/// Bits of a non-negative integer are 0 or 1.
proof fn lemma_int_bit_range(x: int, j: nat)
    requires
        0 <= x,
    ensures
        0 <= int_bit(x, j) <= 1,
{
    lemma_pow2_pos(j);
    vstd::arithmetic::div_mod::lemma_div_pos_is_pos(x, pow2(j) as int);
}

/// The value that the low len bits of x spell is x mod 2^len.
proof fn lemma_bits_value_of_int(b: Seq<u8>, start: int, len: nat, x: int)
    requires
        0 <= x,
        forall|j: int| 0 <= j < len ==> #[trigger] byte_bit(b, start + j) == int_bit(x, j as nat),
    ensures
        bits_value(b, start, len) == x % (pow2(len) as int),
    decreases len,
{
    lemma_pow2_pos(len);
    if len == 0 {
        assert(pow2(0) == 1) by {
            lemma2_to64();
        }
        assert(x % 1 == 0);
    } else {
        let l = (len - 1) as nat;
        let p = pow2(l) as int;
        lemma_bits_value_of_int(b, start, l, x);
        assert(byte_bit(b, start + l) == int_bit(x, l));
        lemma_pow2_pos(l);
        lemma_pow2_unfold(len);
        vstd::arithmetic::div_mod::lemma_mod_breakdown(x, p, 2);
        assert(p * 2 == pow2(len) as int);
        assert(x % (p * 2) == p * ((x / p) % 2) + x % p);
        assert(bits_value(b, start, len) == x % p + int_bit(x, l) * p);
        assert(int_bit(x, l) * p == p * ((x / p) % 2));
    }
}

/// The bits of ByteEncode_d(a) are the d low bits of each coefficient, in order.
pub proof fn lemma_encoded_bits(a: Seq<int>, d: nat)
    requires
        1 <= d <= 12,
        a.len() == 256,
        forall|i: int| 0 <= i < 256 ==> 0 <= #[trigger] a[i],
    ensures
        bytes_bits(encode_spec(a, d)) == coef_bits(a, d, 256),
        encode_spec(a, d).len() == 32 * d,
{
    let bits = coef_bits(a, d, 256);
    lemma_coef_bits_len(a, d, 256);
    assert(bits.len() == 256 * d);
    assert forall|k: int| 0 <= k < bits.len() implies 0 <= #[trigger] bits[k] <= 1 by {
        let i = k / (d as int);
        let j = k % (d as int);
        vstd::arithmetic::div_mod::lemma_fundamental_div_mod(k, d as int);
        assert(0 <= i < 256) by (nonlinear_arith)
            requires k == d * i + j, 0 <= j < d, 0 <= k < 256 * d, d >= 1;
        assert(k == i * d + j) by (nonlinear_arith)
            requires k == d * i + j;
        lemma_coef_bits_index(a, d, 256, i, j);
        lemma_int_bit_range(a[i], j as nat);
    }
    lemma_bits_of_bytes(bits);
}

/// Coefficient i of ByteEncode_d(a) reads back, from its d bits, as a[i] mod 2^d.
pub proof fn lemma_encoded_value(a: Seq<int>, d: nat, i: int)
    requires
        1 <= d <= 12,
        a.len() == 256,
        forall|t: int| 0 <= t < 256 ==> 0 <= #[trigger] a[t],
        0 <= i < 256,
    ensures
        decoded_value(encode_spec(a, d), d, i) == a[i] % (pow2(d) as int),
{
    lemma_encoded_bits(a, d);
    let enc = encode_spec(a, d);
    assert forall|j: int| 0 <= j < d implies #[trigger] byte_bit(enc, i * d + j) == int_bit(
        a[i],
        j as nat,
    ) by {
        lemma_coef_bits_index(a, d, 256, i, j);
        assert(i * d + j < 256 * d) by (nonlinear_arith)
            requires i < 256, j < d;
        assert(bytes_bits(enc)[i * d + j] == byte_bit(enc, i * d + j));
    }
    lemma_bits_value_of_int(enc, i * d, d, a[i]);
}

/// Encoding at width d, then decoding, gives back every polynomial whose
/// coefficients fit in d bits (and, at d = 12, lie below q).
pub proof fn lemma_encode_decode(a: Seq<int>, d: nat)
    requires
        1 <= d <= 12,
        a.len() == 256,
        forall|i: int| 0 <= i < 256 ==> 0 <= #[trigger] a[i] < pow2(d),
        d == 12 ==> forall|i: int| 0 <= i < 256 ==> #[trigger] a[i] < q(),
    ensures
        decode_spec(encode_spec(a, d), d) == a,
{
    let enc = encode_spec(a, d);
    assert forall|i: int| 0 <= i < 256 implies #[trigger] decode_spec(enc, d)[i] == a[i] by {
        lemma_encoded_value(a, d, i);
        vstd::arithmetic::div_mod::lemma_small_mod(a[i] as nat, pow2(d));
        if d == 12 {
            vstd::arithmetic::div_mod::lemma_small_mod(a[i] as nat, 3329);
        }
    }
    assert(decode_spec(enc, d) =~= a);
}

/// Bit t of the value that bits [start, start + len) spell is bit start + t.
proof fn lemma_bit_of_bits_value(b: Seq<u8>, start: int, len: nat, t: nat)
    requires
        t < len,
        forall|k: int| start <= k < start + len ==> 0 <= #[trigger] byte_bit(b, k) <= 1,
    ensures
        int_bit(bits_value(b, start, len), t) == byte_bit(b, start + t),
    decreases len,
{
    let l = (len - 1) as nat;
    let v = bits_value(b, start, l);
    let bit = byte_bit(b, start + l);
    let pt = pow2(t) as int;
    lemma_bits_value_bound(b, start, l);
    lemma_pow2_pos(t);
    if t < l {
        lemma_bit_of_bits_value(b, start, l, t);
        let e = (l - t - 1) as nat;
        vstd::arithmetic::power2::lemma_pow2_adds(t, (l - t) as nat);
        lemma_pow2_unfold((l - t) as nat);
        let w = bit * pow2(e) as int;
        assert(bit * pow2(l) as int == pt * (2 * w)) by (nonlinear_arith)
            requires
                pow2(l) == pow2(t) * pow2((l - t) as nat),
                pow2((l - t) as nat) == 2 * pow2(e),
                w == bit * pow2(e),
                pt == pow2(t),
        ;
        lemma_fundamental_div_mod(v, pt);
        assert(v + bit * pow2(l) as int == pt * (v / pt + 2 * w) + v % pt) by (nonlinear_arith)
            requires
                v == pt * (v / pt) + v % pt,
                bit * pow2(l) as int == pt * (2 * w),
        ;
        vstd::arithmetic::div_mod::lemma_fundamental_div_mod_converse(
            v + bit * pow2(l) as int,
            pt,
            v / pt + 2 * w,
            v % pt,
        );
        lemma_mod_multiples_vanish(w, v / pt, 2);
        assert(v / pt + 2 * w == 2 * w + v / pt);
    } else {
        assert(t == l);
        assert(v + bit * pt == pt * bit + v);
        vstd::arithmetic::div_mod::lemma_fundamental_div_mod_converse(v + bit * pt, pt, bit, v);
    }
}

/// Bit k of a re-encoded 12-bit chunk is bit k of the chunk.
proof fn lemma_decode_encode_12_bit(b: Seq<u8>, a: Seq<int>, k: int)
    requires
        b.len() == 384,
        a.len() == 256,
        forall|j: int| 0 <= j < 256 ==> #[trigger] a[j] == decoded_value(b, 12, j),
        forall|j: int| 0 <= j < 256 ==> 0 <= #[trigger] a[j],
        bytes_bits(encode_spec(a, 12)) == coef_bits(a, 12, 256),
        0 <= k < 3072,
    ensures
        bytes_bits(encode_spec(a, 12))[k] == bytes_bits(b)[k],
{
    let j = k / 12;
    let t = k % 12;
    assert(k == j * 12 + t);
    lemma_coef_bits_index(a, 12, 256, j, t);
    lemma_byte_bit_range(b);
    lemma_bit_of_bits_value(b, j * 12, 12, t as nat);
    assert(coef_bits(a, 12, 256)[k] == int_bit(a[j], t as nat));
    assert(a[j] == bits_value(b, j * 12, 12));
    assert(bytes_bits(b)[k] == byte_bit(b, j * 12 + t));
}

/// Decoding 384 bytes at 12 bits, when every value is below q, and encoding
/// again gives back the same bytes.
pub proof fn lemma_decode_encode_12(b: Seq<u8>)
    requires
        b.len() == 384,
        forall|j: int| 0 <= j < 256 ==> #[trigger] decoded_value(b, 12, j) < q(),
    ensures
        encode_spec(decode_spec(b, 12), 12) == b,
{
    let a = decode_spec(b, 12);
    lemma_byte_bit_range(b);
    assert forall|j: int| 0 <= j < 256 implies 0 <= #[trigger] a[j] && a[j] == decoded_value(
        b,
        12,
        j,
    ) by {
        lemma_bits_value_bound(b, j * 12, 12);
        vstd::arithmetic::div_mod::lemma_small_mod(decoded_value(b, 12, j) as nat, 3329);
    }
    lemma_encoded_bits(a, 12);
    let enc = encode_spec(a, 12);
    assert forall|k: int| 0 <= k < 3072 implies #[trigger] bytes_bits(enc)[k] == bytes_bits(b)[k] by {
        lemma_decode_encode_12_bit(b, a, k);
    }
    assert(bytes_bits(enc) =~= bytes_bits(b));
    lemma_bytes_of_bits(enc);
    lemma_bytes_of_bits(b);
}

/// The first 12-bit value of a byte string is its first byte plus 256 times
/// the low four bits of its second byte.
pub proof fn lemma_first_12_bit_value(b: Seq<u8>)
    requires
        b.len() >= 2,
    ensures
        decoded_value(b, 12, 0) == b[0] + 256 * (b[1] % 16),
{
    let b0 = b[0];
    let b1 = b[1];
    let x: u16 = ((b0 as u16) | ((b1 as u16) << 8u16)) as u16;
    assert(x == b0 + 256 * b1) by (bit_vector)
        requires
            x == ((b0 as u16) | ((b1 as u16) << 8u16)),
    ;
    assert forall|j: int| 0 <= j < 12 implies #[trigger] byte_bit(b, 0 + j) == int_bit(
        x as int,
        j as nat,
    ) by {
        let ju = j as u16;
        lemma_u16_shr_is_div(x, ju);
        let sh = x >> ju;
        assert(sh & 1 == sh % 2) by (bit_vector);
        if j < 8 {
            let t = j as u8;
            assert(j / 8 == 0 && j % 8 == j);
            assert(((x >> ju) & 1u16) as u8 == (b0 >> t) & 1u8) by (bit_vector)
                requires
                    x == (b0 as u16) | ((b1 as u16) << 8u16),
                    ju < 8,
                    t == ju,
            ;
        } else {
            let t = (j - 8) as u8;
            assert(j / 8 == 1 && j % 8 == j - 8);
            assert(((x >> ju) & 1u16) as u8 == (b1 >> t) & 1u8) by (bit_vector)
                requires
                    x == (b0 as u16) | ((b1 as u16) << 8u16),
                    8 <= ju < 12,
                    t == ju - 8,
            ;
        }
    }
    lemma_bits_value_of_int(b, 0, 12, x as int);
    lemma2_to64();
    lemma_fundamental_div_mod(b1 as int, 16);
    let hi = (b1 as int) / 16;
    let lo = (b1 as int) % 16;
    assert(x as int == 4096 * hi + (b0 + 256 * lo));
    vstd::arithmetic::div_mod::lemma_fundamental_div_mod_converse(
        x as int,
        4096,
        hi,
        b0 + 256 * lo,
    );
    assert(decoded_value(b, 12, 0) == bits_value(b, 0, 12));
}

/// The integer spelled by bits [start, start + len) of `b`.
pub fn read_bits(b: &[u8], start: usize, len: usize) -> (r: u16)
    requires
        len <= 12,
        start + len <= 8 * b@.len(),
        start + len <= usize::MAX,
    ensures
        r as int == bits_value(b@, start as int, len as nat),
        r < pow2(len as nat),
{
    let mut v: u16 = 0;
    let mut j: usize = 0;
    proof {
        lemma2_to64();
        lemma_byte_bit_range(b@);
    }
    while j < len
        invariant
            len <= 12,
            start + len <= 8 * b@.len(),
            start + len <= usize::MAX,
            j <= len,
            v as int == bits_value(b@, start as int, j as nat),
            v < pow2(j as nat),
            forall|k: int| 0 <= k < 8 * b@.len() ==> 0 <= #[trigger] byte_bit(b@, k) <= 1,
        decreases len - j,
    {
        let bit = get_bit(b, start + j) as u16;
        proof {
            lemma_pow2_at_most_2048(j as nat);
            assert(bit * pow2(j as nat) <= 2048) by (nonlinear_arith)
                requires bit <= 1, pow2(j as nat) <= 2048;
            lemma_u16_shl_is_mul(bit, j as u16);
        }
        let term = bit << (j as u16);
        proof {
            assert(v + bit * pow2(j as nat) < 2 * pow2(j as nat)) by (nonlinear_arith)
                requires bit <= 1, v < pow2(j as nat);
        }
        v = v + term;
        proof {
            lemma_pow2_unfold((j + 1) as nat);
        }
        j = j + 1;
    }
    v
}

/// ByteEncode_d: pack the d low bits of each of the 256 coefficients, in order,
/// least significant bit first.
pub fn byte_encode(d: usize, a: &[F; 256]) -> (r: Vec<u8>)
    requires
        1 <= d <= 12,
    ensures
        r@.len() == 32 * d,
        bytes_bits(r@) == coef_bits(coef_ints(*a), d as nat, 256),
        r@ == encode_spec(coef_ints(*a), d as nat),
{
    let mut out: Vec<u8> = vec![0u8; 32 * d];
    let ghost mut bits: Seq<int> = Seq::empty();
    let mut pos: usize = 0;
    let mut i: usize = 0;
    proof {
        assert forall|k: int| 0 <= k < 256 * d implies #[trigger] byte_bit(out@, k) == 0 by {
            let t = (k % 8) as u8;
            assert((0u8 >> t) & 1u8 == 0) by (bit_vector);
        }
    }
    while i < 256
        invariant
            1 <= d <= 12,
            i <= 256,
            out@.len() == 32 * d,
            pos == i * d,
            bits.len() == pos,
            bits == coef_bits(coef_ints(*a), d as nat, i as nat),
            forall|k: int| 0 <= k < pos ==> #[trigger] byte_bit(out@, k) == bits[k],
            forall|k: int| pos <= k < 256 * d ==> #[trigger] byte_bit(out@, k) == 0,
        decreases 256 - i,
    {
        let c = a[i].0;
        let ghost prefix = bits;
        let mut j: usize = 0;
        proof {
            assert(i * d + d <= 256 * d) by (nonlinear_arith)
                requires i < 256;
        }
        while j < d
            invariant
                1 <= d <= 12,
                i < 256,
                j <= d,
                c == a@[i as int].0,
                out@.len() == 32 * d,
                i * d + d <= 256 * d,
                pos == i * d + j,
                prefix == coef_bits(coef_ints(*a), d as nat, i as nat),
                prefix.len() == i * d,
                bits == prefix + int_bits(c as int, d as nat).take(j as int),
                bits.len() == pos,
                forall|k: int| 0 <= k < pos ==> #[trigger] byte_bit(out@, k) == bits[k],
                forall|k: int| pos <= k < 256 * d ==> #[trigger] byte_bit(out@, k) == 0,
            decreases d - j,
        {
            proof {
                lemma_u16_shr_is_div(c, j as u16);
                lemma2_to64();
            }
            let shifted = c >> (j as u16);
            proof {
                assert(shifted & 1 == shifted % 2 && shifted & 1 <= 1) by (bit_vector);
            }
            let bit: u8 = (shifted & 1) as u8;
            let idx = pos / 8;
            let sh = (pos % 8) as u8;
            let old_byte = out[idx];
            let new_byte = old_byte | (bit << sh);
            proof {
                lemma_set_bit(old_byte, bit, sh);
            }
            let ghost old_out = out@;
            out.set(idx, new_byte);
            proof {
                assert forall|k: int| 0 <= k < pos + 1 implies #[trigger] byte_bit(out@, k)
                    == bits.push(int_bit(c as int, j as nat))[k] by {
                    if k / 8 != idx as int {
                        assert(out@[k / 8] == old_out[k / 8]);
                        assert(byte_bit(old_out, k) == bits[k]);
                    } else {
                        let t = (k % 8) as u8;
                        assert(out@[k / 8] == new_byte);
                        assert(((new_byte >> t) & 1u8) == if t == sh {
                            ((old_byte >> t) & 1u8) | bit
                        } else {
                            (old_byte >> t) & 1u8
                        });
                        if k < pos {
                            assert(t != sh);
                            assert(byte_bit(old_out, k) == bits[k]);
                        } else {
                            assert(k == pos);
                            assert(t == sh);
                            assert(byte_bit(old_out, k) == 0);
                            assert((0u8 | bit) == bit) by (bit_vector);
                        }
                    }
                }
                assert forall|k: int| pos + 1 <= k < 256 * d implies #[trigger] byte_bit(out@, k)
                    == 0 by {
                    if k / 8 != idx as int {
                        assert(out@[k / 8] == old_out[k / 8]);
                        assert(byte_bit(old_out, k) == 0);
                    } else {
                        let t = (k % 8) as u8;
                        assert(out@[k / 8] == new_byte);
                        assert(t != sh);
                        assert(((new_byte >> t) & 1u8) == (old_byte >> t) & 1u8);
                        assert(byte_bit(old_out, k) == 0);
                    }
                }
                assert(prefix + int_bits(c as int, d as nat).take(j + 1) =~= bits.push(
                    int_bit(c as int, j as nat),
                ));
                bits = bits.push(int_bit(c as int, j as nat));
            }
            pos = pos + 1;
            j = j + 1;
        }
        proof {
            assert(int_bits(c as int, d as nat).take(d as int) =~= int_bits(c as int, d as nat));
            assert(pos == (i + 1) * d) by (nonlinear_arith)
                requires pos == i * d + d;
        }
        i = i + 1;
    }
    proof {
        assert(bytes_bits(out@) =~= coef_bits(coef_ints(*a), d as nat, 256));
        lemma_bytes_of_bits(out@);
    }
    out
}

/// ByteDecode_d: unpack 256 coefficients of d bits each; at d = 12 each is
/// reduced modulo q.
pub fn byte_decode(d: usize, b: &[u8]) -> (r: [F; 256])
    requires
        1 <= d <= 12,
        b@.len() == 32 * d,
    ensures
        coef_ints(r) == decode_spec(b@, d as nat),
        forall|i: int|
            0 <= i < 256 ==> #[trigger] r@[i].0 as int == decode_coef(b@, d as nat, i),
        forall|i: int| 0 <= i < 256 ==> #[trigger] r@[i].0 < pow2(d as nat),
        d == 12 ==> forall|i: int| 0 <= i < 256 ==> #[trigger] r@[i].0 < q(),
{
    let mut f = [F(0); 256];
    let mut i: usize = 0;
    let mut pos: usize = 0;
    while i < 256
        invariant
            1 <= d <= 12,
            b@.len() == 32 * d,
            i <= 256,
            pos == i * d,
            forall|k: int|
                0 <= k < i ==> #[trigger] f@[k].0 as int == decode_coef(b@, d as nat, k),
            forall|k: int| 0 <= k < i ==> #[trigger] f@[k].0 < pow2(d as nat),
            d == 12 ==> forall|k: int| 0 <= k < i ==> #[trigger] f@[k].0 < q(),
        decreases 256 - i,
    {
        proof {
            assert(i * d + d <= 256 * d) by (nonlinear_arith)
                requires i < 256;
            assert((i + 1) * d == i * d + d) by (nonlinear_arith);
        }
        let v = read_bits(b, pos, d);
        let c = if d == 12 {
            v % 3329
        } else {
            v
        };
        proof {
            if d == 12 {
                lemma2_to64();
            }
        }
        f[i] = F(c);
        pos = pos + d;
        i = i + 1;
    }
    proof {
        assert(coef_ints(f) =~= decode_spec(b@, d as nat));
    }
    f
}

/// Packing of the 256 coefficients of a polynomial at d bits each.
pub trait Encode: Sized {
    /// The coefficients as integers.
    spec fn coefficient_values(&self) -> Seq<int>;

    /// ByteEncode_d of the coefficients.
    fn encode(&self, d: usize) -> (r: Vec<u8>)
        requires
            1 <= d <= 12,
        ensures
            r@ == encode_spec(self.coefficient_values(), d as nat),
    ;

    /// The polynomial that ByteDecode_d gives for `enc`.
    fn decode(d: usize, enc: &[u8]) -> (r: Self)
        requires
            1 <= d <= 12,
            enc@.len() == 32 * d,
        ensures
            r.coefficient_values() == decode_spec(enc@, d as nat),
    ;
}

impl Encode for RingElement {
    open spec fn coefficient_values(&self) -> Seq<int> {
        coef_ints(self.coefs)
    }

    fn encode(&self, d: usize) -> (r: Vec<u8>) {
        byte_encode(d, &self.coefs)
    }

    fn decode(d: usize, enc: &[u8]) -> (r: Self) {
        RingElement { coefs: byte_decode(d, enc) }
    }
}

impl Encode for NttElement {
    open spec fn coefficient_values(&self) -> Seq<int> {
        coef_ints(self.coefficients)
    }

    fn encode(&self, d: usize) -> (r: Vec<u8>) {
        byte_encode(d, &self.coefficients)
    }

    fn decode(d: usize, enc: &[u8]) -> (r: Self) {
        NttElement { coefficients: byte_decode(d, enc) }
    }
}

/// Compress_d and Decompress_d applied to every coefficient of a polynomial.
pub trait Compress {
    /// The coefficients as integers.
    spec fn compress_values(&self) -> Seq<int>;

    /// Compress_d of every coefficient, in place.
    fn compress(&mut self, d: u16)
        requires
            1 <= d <= 11,
            forall|i: int| 0 <= i < 256 ==> 0 <= #[trigger] old(self).compress_values()[i] < q(),
        ensures
            final(self).compress_values() == compress_poly(old(self).compress_values(), d as nat),
    ;

    /// Decompress_d of every coefficient, in place.
    fn decompress(&mut self, d: u16)
        requires
            1 <= d <= 11,
            forall|i: int|
                0 <= i < 256 ==> 0 <= #[trigger] old(self).compress_values()[i] < pow2(d as nat),
        ensures
            final(self).compress_values() == decompress_poly(
                old(self).compress_values(),
                d as nat,
            ),
    ;
}

impl Compress for RingElement {
    open spec fn compress_values(&self) -> Seq<int> {
        coef_ints(self.coefs)
    }

    fn compress(&mut self, d: u16) {
        proof {
            assert forall|i: int| 0 <= i < 256 implies #[trigger] self.coefs@[i].0 < q() by {
                assert(old(self).compress_values()[i] < q());
            }
        }
        RingElement::compress(self, d);
    }

    fn decompress(&mut self, d: u16) {
        proof {
            assert forall|i: int| 0 <= i < 256 implies #[trigger] self.coefs@[i].0 < pow2(
                d as nat,
            ) by {
                assert(old(self).compress_values()[i] < pow2(d as nat));
            }
        }
        RingElement::decompress(self, d);
    }
}

impl Compress for NttElement {
    open spec fn compress_values(&self) -> Seq<int> {
        coef_ints(self.coefficients)
    }

    fn compress(&mut self, d: u16) {
        let mut r = RingElement { coefs: self.coefficients };
        proof {
            assert forall|i: int| 0 <= i < 256 implies #[trigger] r.coefs@[i].0 < q() by {
                assert(old(self).compress_values()[i] < q());
            }
        }
        RingElement::compress(&mut r, d);
        self.coefficients = r.coefs;
    }

    fn decompress(&mut self, d: u16) {
        let mut r = RingElement { coefs: self.coefficients };
        proof {
            assert forall|i: int| 0 <= i < 256 implies #[trigger] r.coefs@[i].0 < pow2(d as nat) by {
                assert(old(self).compress_values()[i] < pow2(d as nat));
            }
        }
        RingElement::decompress(&mut r, d);
        self.coefficients = r.coefs;
    }
}

} // verus!
