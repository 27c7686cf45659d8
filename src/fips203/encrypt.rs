//! ML-KEM.Encaps (FIPS 203, Algorithm 17, from its random message).
use vstd::prelude::*;

use crate::ct::{ct_equal, wipe};
use crate::error::KemError;
use crate::fips203::kpke::{
    decode_12_at, ek_rho, encode_vec_12, k_pke_encrypt, kpke_encrypt_spec,
    lemma_encode_vec_12_chunks, matrix_ok, vec_12_in_range,
};
use crate::math::encoding::{
    byte_decode, byte_encode, decode_spec, decoded_value, encode_spec, lemma_decode_encode_12,
    lemma_encoded_value, lemma_first_12_bit_value,
};
use crate::math::field_element::q;
use crate::params::{valid_params, ParameterSet, Params};
use vstd::arithmetic::power2::lemma2_to64;
use crate::symmetric::{g, h, sha3_256_of, sha3_512_of};

verus! {

/// The modulus check: decoding the first 384 k bytes of ek at 12 bits,
/// reducing modulo q, and encoding again gives back the same bytes.
pub open spec fn modulus_check(p: Params, ek: Seq<u8>) -> bool {
    encode_vec_12(
        Seq::new(
            p.k as nat,
            |i: int| decode_spec(ek.subrange(384 * i, 384 * i + 384), 12),
        ),
        p.k as nat,
    ) == ek.subrange(0, 384 * p.k)
}

/// The inputs on which encapsulation succeeds.
pub open spec fn encaps_ok(p: Params, ek: Seq<u8>) -> bool {
    &&& ek.len() == 384 * p.k + 32
    &&& modulus_check(p, ek)
    &&& matrix_ok(ek_rho(p, ek), p.k as int)
}

/// The modulus check passes exactly when every 12-bit value packed in the
/// first 384 k bytes of ek lies below q.
pub proof fn lemma_modulus_check_iff_in_range(p: Params, ek: Seq<u8>)
    requires
        valid_params(p),
        ek.len() == 384 * p.k + 32,
    ensures
        modulus_check(p, ek) <==> vec_12_in_range(ek, p.k as int),
{
    let k = p.k as int;
    let v = Seq::new(
        p.k as nat,
        |i: int| decode_spec(ek.subrange(384 * i, 384 * i + 384), 12),
    );
    lemma_encode_vec_12_chunks(v, p.k as nat);
    if vec_12_in_range(ek, k) {
        assert forall|i: int| 0 <= i < k implies #[trigger] encode_spec(v[i], 12) == ek.subrange(
            384 * i,
            384 * i + 384,
        ) by {
            let chunk = ek.subrange(384 * i, 384 * i + 384);
            assert forall|j: int| 0 <= j < 256 implies #[trigger] decoded_value(chunk, 12, j) < q() by {
                assert(decode_12_at(ek, i)[j] < q());
            }
            lemma_decode_encode_12(chunk);
        }
        lemma_concat_chunks(ek, v, p.k as nat);
    }
    if modulus_check(p, ek) {
        assert forall|i: int, j: int| 0 <= i < k && 0 <= j < 256 implies #[trigger] decode_12_at(
            ek,
            i,
        )[j] < q() by {
            let chunk = ek.subrange(384 * i, 384 * i + 384);
            let e = encode_vec_12(v, p.k as nat);
            assert(chunk =~= e.subrange(384 * i, 384 * i + 384));
            assert(chunk == encode_spec(v[i], 12));
            assert forall|t: int| 0 <= t < 256 implies 0 <= #[trigger] v[i][t] by {
                vstd::arithmetic::div_mod::lemma_mod_bound(decoded_value(chunk, 12, t), 3329);
            }
            lemma_encoded_value(v[i], 12, j);
            let x = decoded_value(chunk, 12, j);
            vstd::arithmetic::div_mod::lemma_mod_bound(x, 3329);
            lemma2_to64();
            vstd::arithmetic::div_mod::lemma_small_mod((x % 3329) as nat, 4096);
            assert(x == x % 3329);
        }
    }
}

/// An encapsulation key whose first 12-bit value, ek[0] + 256 (ek[1] mod 16),
/// is q or more fails the modulus check and is rejected; in particular when
/// ek[0] is 0xFF and the low four bits of ek[1] are 13 or more.
pub proof fn lemma_first_value_out_of_range_rejected(p: Params, ek: Seq<u8>)
    requires
        valid_params(p),
        ek.len() == 384 * p.k + 32,
        ek[0] + 256 * (ek[1] % 16) >= q(),
    ensures
        !modulus_check(p, ek),
        !encaps_ok(p, ek),
        ek[0] == 0xFF && ek[1] % 16 >= 13 ==> !encaps_ok(p, ek),
{
    let chunk = ek.subrange(0, 384);
    lemma_first_12_bit_value(chunk);
    assert(decode_12_at(ek, 0)[0] == decoded_value(chunk, 12, 0));
    lemma_modulus_check_iff_in_range(p, ek);
}

/// When every chunk of 384 bytes of ek encodes its polynomial, the encodings
/// concatenate to the first 384 n bytes.
proof fn lemma_concat_chunks(ek: Seq<u8>, v: Seq<Seq<int>>, n: nat)
    requires
        ek.len() >= 384 * n,
        forall|i: int|
            0 <= i < n ==> #[trigger] encode_spec(v[i], 12) == ek.subrange(384 * i, 384 * i + 384),
    ensures
        encode_vec_12(v, n) == ek.subrange(0, 384 * (n as int)),
    decreases n,
{
    if n > 0 {
        let m = (n - 1) as nat;
        let mi = m as int;
        lemma_concat_chunks(ek, v, m);
        assert(encode_spec(v[mi], 12) == ek.subrange(384 * mi, 384 * mi + 384));
        assert(ek.subrange(0, 384 * mi) + ek.subrange(384 * mi, 384 * mi + 384) =~= ek.subrange(
            0,
            384 * (n as int),
        ));
    }
}

/// (K, r) = G(m || H(ek)).
pub open spec fn encaps_g(ek: Seq<u8>, m: Seq<u8>) -> Seq<u8> {
    sha3_512_of(m + sha3_256_of(ek))
}

/// Decode each 12-bit-packed polynomial of ek modulo q and encode it again.
fn reencode_ek(p: Params, ek: &[u8]) -> (r: Vec<u8>)
    requires
        valid_params(p),
        ek@.len() == 384 * p.k + 32,
    ensures
        r@ == encode_vec_12(
            Seq::new(
                p.k as nat,
                |i: int| decode_spec(ek@.subrange(384 * i, 384 * i + 384), 12),
            ),
            p.k as nat,
        ),
{
    let ghost polys = Seq::new(
        p.k as nat,
        |i: int| decode_spec(ek@.subrange(384 * i, 384 * i + 384), 12),
    );
    let mut out: Vec<u8> = Vec::new();
    let mut i: usize = 0;
    while i < p.k
        invariant
            valid_params(p),
            ek@.len() == 384 * p.k + 32,
            i <= p.k,
            polys == Seq::new(
                p.k as nat,
                |i: int| decode_spec(ek@.subrange(384 * i, 384 * i + 384), 12),
            ),
            out@ == encode_vec_12(polys, i as nat),
        decreases p.k - i,
    {
        let chunk = &ek[384 * i..384 * i + 384];
        let coefs = byte_decode(12, chunk);
        let enc = byte_encode(12, &coefs);
        out.extend_from_slice(&enc);
        proof {
            assert(out@ =~= encode_vec_12(polys, (i + 1) as nat));
        }
        i = i + 1;
    }
    out
}

/// The input checks of ML-KEM.Encaps on ek: its length is 384 k + 32, and the
/// modulus check, with a constant-time comparison, passes.
pub fn check_ek<P: ParameterSet>(ek: &[u8]) -> (r: Result<(), KemError>)
    ensures
        r is Ok <==> (ek@.len() == 384 * P::spec_params().k + 32 && modulus_check(
            P::spec_params(),
            ek@,
        )),
        r matches Err(e) ==> e == KemError::InvalidInput,
{
    let p = P::params();
    let k = p.k;
    if ek.len() != 384 * k + 32 {
        return Err(KemError::InvalidInput);
    }
    let mut reencoded = reencode_ek(p, ek);
    let same = ct_equal(&reencoded, &ek[0..384 * k]);
    wipe(&mut reencoded);
    if same != 1 {
        return Err(KemError::InvalidInput);
    }
    Ok(())
}

/// ML-KEM.Encaps with the 32-byte message m: the shared secret K and the
/// ciphertext K-PKE.Encrypt(ek, m, r), where (K, r) = G(m || H(ek)).
/// `Err(InvalidInput)` when ek has the wrong length, fails the modulus check,
/// or its rho yields no matrix.
pub fn mlkem_encaps_internal<P: ParameterSet>(ek: &[u8], m: &[u8]) -> (r: Result<
    (Vec<u8>, Vec<u8>),
    KemError,
>)
    requires
        m@.len() == 32,
    ensures
        r is Ok <==> encaps_ok(P::spec_params(), ek@),
        r matches Ok(out) ==> out.0@ == encaps_g(ek@, m@).subrange(0, 32) && out.1@
            == kpke_encrypt_spec(
            P::spec_params(),
            ek@,
            m@,
            encaps_g(ek@, m@).subrange(32, 64),
        ),
        r matches Ok(out) ==> out.0@.len() == 32 && out.1@.len() == 32 * (P::spec_params().du
            * P::spec_params().k + P::spec_params().dv),
        r matches Err(e) ==> e == KemError::InvalidInput,
{
    let p = P::params();
    if let Err(e) = check_ek::<P>(ek) {
        return Err(e);
    }
    proof {
        lemma_modulus_check_iff_in_range(p, ek@);
    }
    let h_ek = h(ek);
    let mut input: Vec<u8> = Vec::new();
    input.extend_from_slice(m);
    input.extend_from_slice(&h_ek);
    let (shared, mut rand) = g(&input);
    proof {
        assert(input@ =~= m@ + sha3_256_of(ek@));
    }
    let c = k_pke_encrypt(p, ek, m, &rand);
    wipe(&mut rand);
    wipe(&mut input);
    match c {
        Err(e) => Err(e),
        Ok(c) => Ok((shared, c)),
    }
}

} // verus!
