//! K-PKE, the public-key encryption scheme under ML-KEM (FIPS 203, Section 5).
use vstd::prelude::*;

use crate::error::KemError;
use crate::math::encoding::{
    byte_decode, byte_encode, decode_spec, decoded_value, encode_spec, lemma_coef_bits_len,
    lemma_encoded_value,
};
use crate::math::field_element::q;
use crate::math::ntt::{inv_ntt_spec, ntt_spec};
use crate::math::ntt_element::{accepted, ntt_mul, sample_ntt_stream, NttElement, SAMPLE_NTT_BLOCKS};
use crate::math::ring_element::{
    all_reduced, cbd_coef, coef_ints, compress_poly, decompress_poly, poly_add, poly_sub,
    RingElement,
};
use crate::params::{valid_params, Params};
use crate::symmetric::{g, sha3_512_of, shake256_of};

verus! {

/// The coefficients of each polynomial of a vector in NTT form.
pub open spec fn ntt_vec(v: Seq<NttElement>) -> Seq<Seq<int>> {
    Seq::new(v.len(), |i: int| coef_ints(v[i].coefficients))
}

/// The coefficients of each polynomial of a vector in coefficient form.
pub open spec fn ring_vec(v: Seq<RingElement>) -> Seq<Seq<int>> {
    Seq::new(v.len(), |i: int| coef_ints(v[i].coefs))
}

/// Every polynomial of an NTT-form vector is reduced.
pub open spec fn ntt_vec_reduced(v: Seq<NttElement>) -> bool {
    forall|i: int| 0 <= i < v.len() ==> all_reduced(#[trigger] v[i].coefficients)
}

/// SamplePolyCBD_eta(PRF_eta(seed, n)) as integers.
pub open spec fn cbd_poly(seed: Seq<u8>, eta: nat, n: int) -> Seq<int> {
    Seq::new(256, |i: int| cbd_coef(shake256_of(seed.push(n as u8), 64 * eta), eta, i))
}

/// SampleNTT(XOF(rho, i, j)) has 256 values within the bounded stream.
pub open spec fn sample_ok(rho: Seq<u8>, i: int, j: int) -> bool {
    accepted(sample_ntt_stream(rho, i as u8, j as u8), SAMPLE_NTT_BLOCKS as nat).len() >= 256
}

/// SampleNTT(XOF(rho, i, j)) as integers.
pub open spec fn sampled(rho: Seq<u8>, i: int, j: int) -> Seq<int> {
    accepted(sample_ntt_stream(rho, i as u8, j as u8), SAMPLE_NTT_BLOCKS as nat).take(256)
}

/// Entry (i, j) of the matrix A-hat = SampleNTT(rho || j || i), or of its
/// transpose when `transposed`.
pub open spec fn a_entry(rho: Seq<u8>, i: int, j: int, transposed: bool) -> Seq<int> {
    if transposed {
        sampled(rho, i, j)
    } else {
        sampled(rho, j, i)
    }
}

/// Entry (i, j) of the matrix, or of its transpose, can be sampled.
pub open spec fn entry_ok(rho: Seq<u8>, i: int, j: int, transposed: bool) -> bool {
    if transposed {
        sample_ok(rho, i, j)
    } else {
        sample_ok(rho, j, i)
    }
}

/// Every entry of the k x k matrix can be sampled.
pub open spec fn matrix_ok(rho: Seq<u8>, k: int) -> bool {
    forall|i: int, j: int| 0 <= i < k && 0 <= j < k ==> #[trigger] sample_ok(rho, i, j)
}

/// start + sum over j < n of row[j] * x[j] in T_q, added left to right modulo q.
pub open spec fn dot_from(row: Seq<Seq<int>>, x: Seq<Seq<int>>, n: nat, start: Seq<int>) -> Seq<
    int,
>
    decreases n,
{
    if n == 0 {
        start
    } else {
        poly_add(dot_from(row, x, (n - 1) as nat, start), ntt_mul(row[n - 1], x[n - 1]))
    }
}

/// Row i of the matrix (or of its transpose).
pub open spec fn a_row(rho: Seq<u8>, k: int, i: int, transposed: bool) -> Seq<Seq<int>> {
    Seq::new(k as nat, |j: int| a_entry(rho, i, j, transposed))
}

/// The zero polynomial.
pub open spec fn zero_poly() -> Seq<int> {
    Seq::new(256, |i: int| 0)
}

/// ByteEncode_12 of each polynomial of a vector, concatenated.
pub open spec fn encode_vec_12(v: Seq<Seq<int>>, n: nat) -> Seq<u8>
    decreases n,
{
    if n == 0 {
        Seq::empty()
    } else {
        encode_vec_12(v, (n - 1) as nat) + encode_spec(v[n - 1], 12)
    }
}

/// ByteEncode_12 of a polynomial is 384 bytes long.
pub proof fn lemma_encode_12_len(a: Seq<int>)
    ensures
        encode_spec(a, 12).len() == 384,
{
    lemma_coef_bits_len(a, 12, 256);
}

/// The concatenated encoding of n polynomials is 384 n bytes, and bytes
/// [384 i, 384 i + 384) of it encode polynomial i.
pub proof fn lemma_encode_vec_12_chunks(v: Seq<Seq<int>>, n: nat)
    ensures
        encode_vec_12(v, n).len() == 384 * n,
        forall|i: int|
            0 <= i < n ==> #[trigger] encode_vec_12(v, n).subrange(384 * i, 384 * i + 384)
                == encode_spec(v[i], 12),
    decreases n,
{
    if n > 0 {
        let m = (n - 1) as nat;
        lemma_encode_vec_12_chunks(v, m);
        lemma_encode_12_len(v[m as int]);
        let e = encode_vec_12(v, n);
        assert forall|i: int| 0 <= i < n implies #[trigger] e.subrange(384 * i, 384 * i + 384)
            == encode_spec(v[i], 12) by {
            if i < m {
                assert(e.subrange(384 * i, 384 * i + 384) =~= encode_vec_12(v, m).subrange(
                    384 * i,
                    384 * i + 384,
                ));
            } else {
                assert(e.subrange(384 * i, 384 * i + 384) =~= encode_spec(v[i], 12));
            }
        }
    }
}

/// The encoding of n reduced polynomials, followed by any bytes, packs values
/// below q only.
pub proof fn lemma_encoded_vec_in_range(v: Seq<Seq<int>>, n: nat, extra: Seq<u8>)
    requires
        v.len() == n,
        forall|i: int| 0 <= i < n ==> (#[trigger] v[i]).len() == 256,
        forall|i: int, j: int| 0 <= i < n && 0 <= j < 256 ==> 0 <= #[trigger] v[i][j] < q(),
    ensures
        vec_12_in_range(encode_vec_12(v, n) + extra, n as int),
{
    let b = encode_vec_12(v, n) + extra;
    lemma_encode_vec_12_chunks(v, n);
    assert forall|i: int, j: int| 0 <= i < n && 0 <= j < 256 implies #[trigger] decode_12_at(b, i)[j]
        < q() by {
        assert(b.subrange(384 * i, 384 * i + 384) =~= encode_vec_12(v, n).subrange(
            384 * i,
            384 * i + 384,
        ));
        assert forall|t: int| 0 <= t < 256 implies 0 <= #[trigger] v[i][t] by {
            assert(0 <= v[i][t] < q());
        }
        lemma_encoded_value(v[i], 12, j);
        assert(0 <= v[i][j] < q());
        vstd::arithmetic::power2::lemma2_to64();
        vstd::arithmetic::div_mod::lemma_small_mod(v[i][j] as nat, 4096);
    }
}

/// The seed rho of K-PKE.KeyGen(d): the first half of G(d).
pub open spec fn keygen_rho(d: Seq<u8>) -> Seq<u8> {
    sha3_512_of(d).subrange(0, 32)
}

/// The seed sigma of K-PKE.KeyGen(d): the second half of G(d).
pub open spec fn keygen_sigma(d: Seq<u8>) -> Seq<u8> {
    sha3_512_of(d).subrange(32, 64)
}

/// s-hat = NTT(s), s sampled with nonces 0 .. k - 1.
pub open spec fn keygen_s_hat(p: Params, d: Seq<u8>) -> Seq<Seq<int>> {
    Seq::new(p.k as nat, |i: int| ntt_spec(cbd_poly(keygen_sigma(d), p.eta1 as nat, i)))
}

/// e-hat = NTT(e), e sampled with nonces k .. 2k - 1.
pub open spec fn keygen_e_hat(p: Params, d: Seq<u8>) -> Seq<Seq<int>> {
    Seq::new(p.k as nat, |i: int| ntt_spec(cbd_poly(keygen_sigma(d), p.eta1 as nat, p.k + i)))
}

/// t-hat = A-hat s-hat + e-hat.
pub open spec fn keygen_t_hat(p: Params, d: Seq<u8>) -> Seq<Seq<int>> {
    Seq::new(
        p.k as nat,
        |i: int|
            dot_from(
                a_row(keygen_rho(d), p.k as int, i, false),
                keygen_s_hat(p, d),
                p.k as nat,
                keygen_e_hat(p, d)[i],
            ),
    )
}

/// The encryption key of K-PKE.KeyGen(d): ByteEncode_12(t-hat) || rho.
pub open spec fn kpke_ek(p: Params, d: Seq<u8>) -> Seq<u8> {
    encode_vec_12(keygen_t_hat(p, d), p.k as nat) + keygen_rho(d)
}

/// The decryption key of K-PKE.KeyGen(d): ByteEncode_12(s-hat).
pub open spec fn kpke_dk(p: Params, d: Seq<u8>) -> Seq<u8> {
    encode_vec_12(keygen_s_hat(p, d), p.k as nat)
}

/// ByteEncode_d of each polynomial of a vector, concatenated.
pub open spec fn encode_vec(v: Seq<Seq<int>>, d: nat, n: nat) -> Seq<u8>
    decreases n,
{
    if n == 0 {
        Seq::empty()
    } else {
        encode_vec(v, d, (n - 1) as nat) + encode_spec(v[n - 1], d)
    }
}

/// Polynomial i of a vector packed at 12 bits, read without reduction.
pub open spec fn decode_12_at(b: Seq<u8>, i: int) -> Seq<int> {
    Seq::new(256, |j: int| decoded_value(b.subrange(384 * i, 384 * i + 384), 12, j))
}

/// The first k polynomials packed at 12 bits in b all have coefficients below q.
pub open spec fn vec_12_in_range(b: Seq<u8>, k: int) -> bool {
    forall|i: int, j: int|
        0 <= i < k && 0 <= j < 256 ==> #[trigger] decode_12_at(b, i)[j] < q()
}

/// The vector of the first k polynomials packed at 12 bits in b.
pub open spec fn decode_vec_12(b: Seq<u8>, k: int) -> Seq<Seq<int>> {
    Seq::new(k as nat, |i: int| decode_12_at(b, i))
}

/// rho, the last 32 bytes of an encryption key.
pub open spec fn ek_rho(p: Params, ek: Seq<u8>) -> Seq<u8> {
    ek.subrange(384 * p.k, 384 * p.k + 32)
}

/// r-hat = NTT(y), y sampled from r with nonces 0 .. k - 1.
pub open spec fn encrypt_r_hat(p: Params, r: Seq<u8>) -> Seq<Seq<int>> {
    Seq::new(p.k as nat, |i: int| ntt_spec(cbd_poly(r, p.eta1 as nat, i)))
}

/// u = NTT^-1(A-hat^T r-hat) + e1, e1 sampled with nonces k .. 2k - 1.
pub open spec fn encrypt_u(p: Params, ek: Seq<u8>, r: Seq<u8>) -> Seq<Seq<int>> {
    Seq::new(
        p.k as nat,
        |i: int|
            poly_add(
                inv_ntt_spec(
                    dot_from(
                        a_row(ek_rho(p, ek), p.k as int, i, true),
                        encrypt_r_hat(p, r),
                        p.k as nat,
                        zero_poly(),
                    ),
                ),
                cbd_poly(r, p.eta2 as nat, p.k + i),
            ),
    )
}

/// v = NTT^-1(t-hat^T r-hat) + e2 + mu, e2 sampled with nonce 2k and
/// mu = Decompress_1(ByteDecode_1(m)).
pub open spec fn encrypt_v(p: Params, ek: Seq<u8>, m: Seq<u8>, r: Seq<u8>) -> Seq<int> {
    poly_add(
        poly_add(
            inv_ntt_spec(
                dot_from(decode_vec_12(ek, p.k as int), encrypt_r_hat(p, r), p.k as nat, zero_poly()),
            ),
            cbd_poly(r, p.eta2 as nat, 2 * p.k),
        ),
        decompress_poly(decode_spec(m, 1), 1),
    )
}

/// K-PKE.Encrypt(ek, m, r): ByteEncode_du(Compress_du(u)) || ByteEncode_dv(Compress_dv(v)).
pub open spec fn kpke_encrypt_spec(p: Params, ek: Seq<u8>, m: Seq<u8>, r: Seq<u8>) -> Seq<u8> {
    encode_vec(
        Seq::new(p.k as nat, |i: int| compress_poly(encrypt_u(p, ek, r)[i], p.du as nat)),
        p.du as nat,
        p.k as nat,
    ) + encode_spec(compress_poly(encrypt_v(p, ek, m, r), p.dv as nat), p.dv as nat)
}

/// u' = Decompress_du(ByteDecode_du(c1_i)).
pub open spec fn decrypt_u(p: Params, c: Seq<u8>, i: int) -> Seq<int> {
    decompress_poly(
        decode_spec(c.subrange(32 * p.du * i, 32 * p.du * i + 32 * p.du), p.du as nat),
        p.du as nat,
    )
}

/// v' = Decompress_dv(ByteDecode_dv(c2)).
pub open spec fn decrypt_v(p: Params, c: Seq<u8>) -> Seq<int> {
    decompress_poly(
        decode_spec(
            c.subrange(32 * p.du * p.k, 32 * p.du * p.k + 32 * p.dv),
            p.dv as nat,
        ),
        p.dv as nat,
    )
}

/// K-PKE.Decrypt(dk, c): ByteEncode_1(Compress_1(v' - NTT^-1(s-hat^T NTT(u')))).
pub open spec fn kpke_decrypt_spec(p: Params, dk: Seq<u8>, c: Seq<u8>) -> Seq<u8> {
    let u_hat = Seq::new(p.k as nat, |i: int| ntt_spec(decrypt_u(p, c, i)));
    let w = poly_sub(
        decrypt_v(p, c),
        inv_ntt_spec(dot_from(decode_vec_12(dk, p.k as int), u_hat, p.k as nat, zero_poly())),
    );
    encode_spec(compress_poly(w, 1), 1)
}

/// SamplePolyCBD_eta(PRF_eta(seed, n)).
pub fn sample_cbd(eta: usize, seed: &[u8], n: u8) -> (r: RingElement)
    requires
        eta == 2 || eta == 3,
    ensures
        all_reduced(r.coefs),
        coef_ints(r.coefs) == cbd_poly(seed@, eta as nat, n as int),
{
    let r = if eta == 2 {
        RingElement::sample_poly_cbd::<2>(seed, n)
    } else {
        RingElement::sample_poly_cbd::<3>(seed, n)
    };
    proof {
        assert(coef_ints(r.coefs) =~= cbd_poly(seed@, eta as nat, n as int));
    }
    r
}

/// The k x k matrix A-hat, or its transpose; `None` when an entry cannot be
/// sampled.
pub fn sample_matrix(rho: &[u8], k: usize, transposed: bool) -> (r: Option<Vec<Vec<NttElement>>>)
    requires
        2 <= k <= 4,
    ensures
        r is Some <==> matrix_ok(rho@, k as int),
        r matches Some(a) ==> a@.len() == k && forall|i: int|
            0 <= i < k ==> (#[trigger] a@[i])@.len() == k && forall|j: int|
                0 <= j < k ==> all_reduced(#[trigger] a@[i]@[j].coefficients) && coef_ints(
                    a@[i]@[j].coefficients,
                ) == a_entry(rho@, i, j, transposed),
{
    let mut a: Vec<Vec<NttElement>> = Vec::new();
    let mut i: usize = 0;
    while i < k
        invariant
            2 <= k <= 4,
            i <= k,
            a@.len() == i,
            forall|i2: int, j2: int|
                0 <= i2 < i && 0 <= j2 < k ==> #[trigger] entry_ok(rho@, i2, j2, transposed),
            forall|i2: int|
                0 <= i2 < i ==> (#[trigger] a@[i2])@.len() == k && forall|j: int|
                    0 <= j < k ==> all_reduced(#[trigger] a@[i2]@[j].coefficients) && coef_ints(
                        a@[i2]@[j].coefficients,
                    ) == a_entry(rho@, i2, j, transposed),
        decreases k - i,
    {
        let mut row: Vec<NttElement> = Vec::new();
        let mut j: usize = 0;
        while j < k
            invariant
                2 <= k <= 4,
                i < k,
                j <= k,
                row@.len() == j,
                forall|i2: int, j2: int|
                    0 <= i2 < i && 0 <= j2 < k ==> #[trigger] entry_ok(rho@, i2, j2, transposed),
                forall|j2: int| 0 <= j2 < j ==> #[trigger] entry_ok(rho@, i as int, j2, transposed),
                forall|j2: int|
                    0 <= j2 < j ==> all_reduced(#[trigger] row@[j2].coefficients) && coef_ints(
                        row@[j2].coefficients,
                    ) == a_entry(rho@, i as int, j2, transposed),
                forall|i2: int|
                    0 <= i2 < i ==> (#[trigger] a@[i2])@.len() == k && forall|j: int|
                        0 <= j < k ==> all_reduced(#[trigger] a@[i2]@[j].coefficients) && coef_ints(
                            a@[i2]@[j].coefficients,
                        ) == a_entry(rho@, i2, j, transposed),
            decreases k - j,
        {
            let (x, y) = if transposed {
                (i as u8, j as u8)
            } else {
                (j as u8, i as u8)
            };
            let sampled_entry = NttElement::sample_ntt(rho, x, y);
            match sampled_entry {
                None => {
                    proof {
                        assert(!sample_ok(rho@, x as int, y as int));
                    }
                    return None;
                },
                Some(e) => {
                    row.push(e);
                },
            }
            j = j + 1;
        }
        a.push(row);
        i = i + 1;
    }
    proof {
        assert forall|i2: int, j2: int| 0 <= i2 < k && 0 <= j2 < k implies #[trigger] sample_ok(
            rho@,
            i2,
            j2,
        ) by {
            if transposed {
                assert(entry_ok(rho@, i2, j2, transposed));
            } else {
                assert(entry_ok(rho@, j2, i2, transposed));
            }
        }
    }
    Some(a)
}


/// The vector of SamplePolyCBD_eta(PRF_eta(seed, n0 + i)) for i < k.
pub fn sample_vector(eta: usize, seed: &[u8], k: usize, n0: u8) -> (r: Vec<RingElement>)
    requires
        eta == 2 || eta == 3,
        k <= 4,
        n0 <= 8,
    ensures
        r@.len() == k,
        forall|i: int| 0 <= i < k ==> all_reduced(#[trigger] r@[i].coefs),
        forall|i: int|
            0 <= i < k ==> #[trigger] coef_ints(r@[i].coefs) == cbd_poly(seed@, eta as nat, n0 + i),
{
    let mut v: Vec<RingElement> = Vec::new();
    let mut i: usize = 0;
    while i < k
        invariant
            eta == 2 || eta == 3,
            k <= 4,
            n0 <= 8,
            i <= k,
            v@.len() == i,
            forall|i2: int| 0 <= i2 < i ==> all_reduced(#[trigger] v@[i2].coefs),
            forall|i2: int|
                0 <= i2 < i ==> #[trigger] coef_ints(v@[i2].coefs) == cbd_poly(
                    seed@,
                    eta as nat,
                    n0 + i2,
                ),
        decreases k - i,
    {
        let e = sample_cbd(eta, seed, n0 + i as u8);
        v.push(e);
        i = i + 1;
    }
    v
}

/// The vector of NTT(SamplePolyCBD_eta(PRF_eta(seed, n0 + i))) for i < k.
pub fn sample_ntt_vector(eta: usize, seed: &[u8], k: usize, n0: u8) -> (r: Vec<NttElement>)
    requires
        eta == 2 || eta == 3,
        k <= 4,
        n0 <= 8,
    ensures
        r@.len() == k,
        ntt_vec_reduced(r@),
        forall|i: int|
            0 <= i < k ==> #[trigger] coef_ints(r@[i].coefficients) == ntt_spec(
                cbd_poly(seed@, eta as nat, n0 + i),
            ),
{
    let polys = sample_vector(eta, seed, k, n0);
    let mut v: Vec<NttElement> = Vec::new();
    let mut i: usize = 0;
    while i < k
        invariant
            k <= 4,
            i <= k,
            polys@.len() == k,
            forall|i2: int| 0 <= i2 < k ==> all_reduced(#[trigger] polys@[i2].coefs),
            forall|i2: int|
                0 <= i2 < k ==> #[trigger] coef_ints(polys@[i2].coefs) == cbd_poly(
                    seed@,
                    eta as nat,
                    n0 + i2,
                ),
            v@.len() == i,
            ntt_vec_reduced(v@),
            forall|i2: int|
                0 <= i2 < i ==> #[trigger] coef_ints(v@[i2].coefficients) == ntt_spec(
                    cbd_poly(seed@, eta as nat, n0 + i2),
                ),
        decreases k - i,
    {
        let e = NttElement::new(&polys[i]);
        v.push(e);
        i = i + 1;
    }
    v
}

/// start + sum over j of row[j] * x[j] in T_q.
pub fn dot(row: &Vec<NttElement>, x: &Vec<NttElement>, start: NttElement) -> (r: NttElement)
    requires
        row@.len() == x@.len(),
        ntt_vec_reduced(row@),
        ntt_vec_reduced(x@),
        all_reduced(start.coefficients),
    ensures
        all_reduced(r.coefficients),
        coef_ints(r.coefficients) == dot_from(
            ntt_vec(row@),
            ntt_vec(x@),
            row@.len() as nat,
            coef_ints(start.coefficients),
        ),
{
    let mut acc = start;
    let mut j: usize = 0;
    while j < row.len()
        invariant
            row@.len() == x@.len(),
            ntt_vec_reduced(row@),
            ntt_vec_reduced(x@),
            j <= row@.len(),
            all_reduced(acc.coefficients),
            coef_ints(acc.coefficients) == dot_from(
                ntt_vec(row@),
                ntt_vec(x@),
                j as nat,
                coef_ints(start.coefficients),
            ),
        decreases row@.len() - j,
    {
        let prod = row[j].multiply_ntts(&x[j]);
        acc = acc.add(&prod);
        j = j + 1;
    }
    acc
}

/// ByteEncode_12 of each polynomial of `v`, appended to `out`.
pub fn encode_vector_12(v: &Vec<NttElement>, out: Vec<u8>) -> (r: Vec<u8>)
    ensures
        r@ == out@ + encode_vec_12(ntt_vec(v@), v@.len() as nat),
{
    let mut b = out;
    let mut i: usize = 0;
    while i < v.len()
        invariant
            i <= v@.len(),
            b@ == out@ + encode_vec_12(ntt_vec(v@), i as nat),
        decreases v@.len() - i,
    {
        let ghost before = b@;
        b = v[i].byte_encode_12(b);
        proof {
            assert(b@ =~= out@ + encode_vec_12(ntt_vec(v@), (i + 1) as nat));
        }
        i = i + 1;
    }
    b
}

/// K-PKE.KeyGen(d): the encryption key ByteEncode_12(t-hat) || rho and the
/// decryption key ByteEncode_12(s-hat); `None` when the matrix cannot be
/// sampled from rho.
pub fn k_pke_keygen(p: Params, d: &[u8]) -> (r: Option<(Vec<u8>, Vec<u8>)>)
    requires
        valid_params(p),
    ensures
        r is Some <==> matrix_ok(keygen_rho(d@), p.k as int),
        r matches Some(keys) ==> keys.0@ == kpke_ek(p, d@) && keys.1@ == kpke_dk(p, d@),
        r matches Some(keys) ==> keys.0@.len() == 384 * p.k + 32 && keys.1@.len() == 384 * p.k,
        r matches Some(keys) ==> keys.0@.subrange(384 * p.k, 384 * p.k + 32) == keygen_rho(d@),
        r matches Some(keys) ==> vec_12_in_range(keys.0@, p.k as int) && vec_12_in_range(
            keys.1@,
            p.k as int,
        ),
{
    let k = p.k;
    let (rho, sigma) = g(d);
    let a_hat = match sample_matrix(&rho, k, false) {
        None => {
            return None;
        },
        Some(a) => a,
    };
    let s_hat = sample_ntt_vector(p.eta1, &sigma, k, 0);
    let e_hat = sample_ntt_vector(p.eta1, &sigma, k, k as u8);
    proof {
        assert(ntt_vec(s_hat@) =~= keygen_s_hat(p, d@));
    }
    let mut t_hat: Vec<NttElement> = Vec::new();
    let mut i: usize = 0;
    while i < k
        invariant
            valid_params(p),
            k == p.k,
            i <= k,
            rho@ == keygen_rho(d@),
            sigma@ == keygen_sigma(d@),
            a_hat@.len() == k,
            forall|i2: int|
                0 <= i2 < k ==> (#[trigger] a_hat@[i2])@.len() == k && forall|j: int|
                    0 <= j < k ==> all_reduced(#[trigger] a_hat@[i2]@[j].coefficients) && coef_ints(
                        a_hat@[i2]@[j].coefficients,
                    ) == a_entry(rho@, i2, j, false),
            s_hat@.len() == k,
            ntt_vec_reduced(s_hat@),
            ntt_vec(s_hat@) == keygen_s_hat(p, d@),
            e_hat@.len() == k,
            ntt_vec_reduced(e_hat@),
            forall|i2: int|
                0 <= i2 < k ==> #[trigger] coef_ints(e_hat@[i2].coefficients) == ntt_spec(
                    cbd_poly(sigma@, p.eta1 as nat, k + i2),
                ),
            t_hat@.len() == i,
            ntt_vec_reduced(t_hat@),
            forall|i2: int|
                0 <= i2 < i ==> #[trigger] coef_ints(t_hat@[i2].coefficients) == keygen_t_hat(
                    p,
                    d@,
                )[i2],
        decreases k - i,
    {
        let row = &a_hat[i];
        proof {
            assert(ntt_vec(row@) =~= a_row(rho@, k as int, i as int, false));
            assert(coef_ints(e_hat@[i as int].coefficients) == keygen_e_hat(p, d@)[i as int]);
        }
        let t = dot(row, &s_hat, e_hat[i]);
        t_hat.push(t);
        i = i + 1;
    }
    proof {
        assert(ntt_vec(t_hat@) =~= keygen_t_hat(p, d@));
    }
    let mut ek = encode_vector_12(&t_hat, Vec::new());
    ek.extend_from_slice(&rho);
    let dk = encode_vector_12(&s_hat, Vec::new());
    proof {
        assert(ek@ =~= kpke_ek(p, d@));
        assert(dk@ =~= kpke_dk(p, d@));
        lemma_encode_vec_12_chunks(ntt_vec(t_hat@), k as nat);
        lemma_encode_vec_12_chunks(ntt_vec(s_hat@), k as nat);
        assert(ek@.subrange(384 * k, 384 * k + 32) =~= keygen_rho(d@));
        lemma_encoded_vec_in_range(ntt_vec(t_hat@), k as nat, rho@);
        lemma_encoded_vec_in_range(ntt_vec(s_hat@), k as nat, Seq::empty());
        assert(dk@ =~= encode_vec_12(ntt_vec(s_hat@), k as nat) + Seq::<u8>::empty());
    }
    Some((ek, dk))
}


/// The first k polynomials packed at 12 bits in `b`, with the range check:
/// `Err(InvalidInput)` when a value is q or more.
pub fn decode_vector_12(b: &[u8], k: usize) -> (r: Result<Vec<NttElement>, KemError>)
    requires
        k <= 4,
        b@.len() >= 384 * k,
    ensures
        r is Ok <==> vec_12_in_range(b@, k as int),
        r matches Ok(v) ==> v@.len() == k && ntt_vec_reduced(v@) && ntt_vec(v@) == decode_vec_12(
            b@,
            k as int,
        ),
        r matches Err(e) ==> e == KemError::InvalidInput,
{
    let mut v: Vec<NttElement> = Vec::new();
    let mut i: usize = 0;
    while i < k
        invariant
            k <= 4,
            b@.len() >= 384 * k,
            i <= k,
            v@.len() == i,
            ntt_vec_reduced(v@),
            forall|i2: int, j: int|
                0 <= i2 < i && 0 <= j < 256 ==> #[trigger] decode_12_at(b@, i2)[j] < q(),
            forall|i2: int| 0 <= i2 < i ==> #[trigger] coef_ints(v@[i2].coefficients) == decode_12_at(b@, i2),
        decreases k - i,
    {
        let chunk = &b[384 * i..384 * i + 384];
        match NttElement::byte_decode_12(chunk) {
            Err(e) => {
                proof {
                    let j = choose|j: int| 0 <= j < 256 && !(decoded_value(chunk@, 12, j) < q());
                    assert(!(decode_12_at(b@, i as int)[j] < q()));
                }
                return Err(e);
            },
            Ok(e) => {
                proof {
                    assert(coef_ints(e.coefficients) =~= decode_12_at(b@, i as int));
                }
                v.push(e);
            },
        }
        i = i + 1;
    }
    proof {
        assert(ntt_vec(v@) =~= decode_vec_12(b@, k as int));
    }
    Ok(v)
}

/// K-PKE.Encrypt(ek, m, r). `Err(InvalidInput)` when a coefficient of t-hat in
/// `ek` is q or more, or when the matrix cannot be sampled from rho.
pub fn k_pke_encrypt(p: Params, ek: &[u8], m: &[u8], r: &[u8]) -> (res: Result<Vec<u8>, KemError>)
    requires
        valid_params(p),
        ek@.len() == 384 * p.k + 32,
        m@.len() == 32,
    ensures
        res is Ok <==> (vec_12_in_range(ek@, p.k as int) && matrix_ok(ek_rho(p, ek@), p.k as int)),
        res matches Ok(c) ==> c@ == kpke_encrypt_spec(p, ek@, m@, r@) && c@.len() == 32 * (p.du
            * p.k + p.dv),
        res matches Err(e) ==> e == KemError::InvalidInput,
{
    let k = p.k;
    let t_hat = match decode_vector_12(ek, k) {
        Err(e) => {
            return Err(e);
        },
        Ok(v) => v,
    };
    let rho = &ek[384 * k..384 * k + 32];
    let a_t = match sample_matrix(rho, k, true) {
        None => {
            return Err(KemError::InvalidInput);
        },
        Some(a) => a,
    };
    let r_hat = sample_ntt_vector(p.eta1, r, k, 0);
    let e1 = sample_vector(p.eta2, r, k, k as u8);
    let e2 = sample_cbd(p.eta2, r, (2 * k) as u8);
    let zero = NttElement::zero();
    proof {
        assert(coef_ints(zero.coefficients) =~= zero_poly());
        assert(ntt_vec(r_hat@) =~= encrypt_r_hat(p, r@));
    }
    let ghost u_spec = Seq::new(
        p.k as nat,
        |i: int| compress_poly(encrypt_u(p, ek@, r@)[i], p.du as nat),
    );
    let mut c: Vec<u8> = Vec::new();
    let mut i: usize = 0;
    while i < k
        invariant
            valid_params(p),
            k == p.k,
            i <= k,
            rho@ == ek_rho(p, ek@),
            a_t@.len() == k,
            forall|i2: int|
                0 <= i2 < k ==> (#[trigger] a_t@[i2])@.len() == k && forall|j: int|
                    0 <= j < k ==> all_reduced(#[trigger] a_t@[i2]@[j].coefficients) && coef_ints(
                        a_t@[i2]@[j].coefficients,
                    ) == a_entry(rho@, i2, j, true),
            r_hat@.len() == k,
            ntt_vec_reduced(r_hat@),
            ntt_vec(r_hat@) == encrypt_r_hat(p, r@),
            e1@.len() == k,
            forall|i2: int| 0 <= i2 < k ==> all_reduced(#[trigger] e1@[i2].coefs),
            forall|i2: int|
                0 <= i2 < k ==> #[trigger] coef_ints(e1@[i2].coefs) == cbd_poly(
                    r@,
                    p.eta2 as nat,
                    k + i2,
                ),
            all_reduced(zero.coefficients),
            coef_ints(zero.coefficients) == zero_poly(),
            u_spec == Seq::new(
                p.k as nat,
                |i: int| compress_poly(encrypt_u(p, ek@, r@)[i], p.du as nat),
            ),
            c@ == encode_vec(u_spec, p.du as nat, i as nat),
            c@.len() == 32 * p.du * i,
        decreases k - i,
    {
        proof {
            assert(ntt_vec(a_t@[i as int]@) =~= a_row(rho@, k as int, i as int, true));
        }
        let prod = dot(&a_t[i], &r_hat, zero);
        let mut u = prod.ntt_inv().add(&e1[i]);
        u.compress(p.du as u16);
        let enc = byte_encode(p.du, &u.coefs);
        proof {
            assert(coef_ints(u.coefs) == u_spec[i as int]);
        }
        c.extend_from_slice(&enc);
        proof {
            assert(c@ =~= encode_vec(u_spec, p.du as nat, (i + 1) as nat));
            assert(32 * p.du * (i + 1) == 32 * p.du * i + 32 * p.du) by (nonlinear_arith);
        }
        i = i + 1;
    }
    let tr = dot(&t_hat, &r_hat, zero);
    let mut mu = RingElement::new(byte_decode(1, m));
    mu.decompress(1);
    let mut v = tr.ntt_inv().add(&e2).add(&mu);
    v.compress(p.dv as u16);
    let enc_v = byte_encode(p.dv, &v.coefs);
    c.extend_from_slice(&enc_v);
    proof {
        assert(c@ =~= kpke_encrypt_spec(p, ek@, m@, r@));
        assert(32 * p.du * p.k + 32 * p.dv == 32 * (p.du * p.k + p.dv)) by (nonlinear_arith);
    }
    Ok(c)
}

/// K-PKE.Decrypt(dk, c). `Err(InvalidInput)` when a coefficient of s-hat in
/// `dk` is q or more.
pub fn k_pke_decrypt(p: Params, dk: &[u8], c: &[u8]) -> (res: Result<Vec<u8>, KemError>)
    requires
        valid_params(p),
        dk@.len() == 384 * p.k,
        c@.len() == 32 * (p.du * p.k + p.dv),
    ensures
        res is Ok <==> vec_12_in_range(dk@, p.k as int),
        res matches Ok(m) ==> m@ == kpke_decrypt_spec(p, dk@, c@) && m@.len() == 32,
        res matches Err(e) ==> e == KemError::InvalidInput,
{
    let k = p.k;
    let du = p.du;
    let s_hat = match decode_vector_12(dk, k) {
        Err(e) => {
            return Err(e);
        },
        Ok(v) => v,
    };
    proof {
        assert(32 * du * k + 32 * p.dv == 32 * (p.du * p.k + p.dv)) by (nonlinear_arith)
            requires du == p.du, k == p.k;
    }
    let mut u_hat: Vec<NttElement> = Vec::new();
    let mut off: usize = 0;
    let mut i: usize = 0;
    while i < k
        invariant
            valid_params(p),
            k == p.k,
            du == p.du,
            i <= k,
            c@.len() == 32 * du * k + 32 * p.dv,
            off == 32 * du * i,
            u_hat@.len() == i,
            ntt_vec_reduced(u_hat@),
            forall|i2: int|
                0 <= i2 < i ==> #[trigger] coef_ints(u_hat@[i2].coefficients) == ntt_spec(
                    decrypt_u(p, c@, i2),
                ),
        decreases k - i,
    {
        proof {
            assert(32 * du * i + 32 * du <= 32 * du * k) by (nonlinear_arith)
                requires i < k;
            assert(32 * du * (i + 1) == 32 * du * i + 32 * du) by (nonlinear_arith);
        }
        let mut u = RingElement::new(byte_decode(du, &c[off..off + 32 * du]));
        u.decompress(du as u16);
        let e = NttElement::new(&u);
        u_hat.push(e);
        off = off + 32 * du;
        i = i + 1;
    }
    let mut v = RingElement::new(byte_decode(p.dv, &c[32 * du * k..32 * du * k + 32 * p.dv]));
    v.decompress(p.dv as u16);
    let zero = NttElement::zero();
    proof {
        assert(coef_ints(zero.coefficients) =~= zero_poly());
        assert(ntt_vec(u_hat@) =~= Seq::new(p.k as nat, |i: int| ntt_spec(decrypt_u(p, c@, i))));
    }
    let y = dot(&s_hat, &u_hat, zero).ntt_inv();
    let mut w = v.sub(&y);
    w.compress(1);
    let m = byte_encode(1, &w.coefs);
    proof {
        assert(m@ =~= kpke_decrypt_spec(p, dk@, c@));
    }
    Ok(m)
}

} // verus!
