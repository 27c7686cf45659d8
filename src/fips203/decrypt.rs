//! ML-KEM.Decaps (FIPS 203, Algorithm 18), with implicit rejection.
use vstd::prelude::*;

use crate::ct::{ct_equal, ct_select, wipe};
use crate::error::KemError;
use crate::fips203::kpke::{
    ek_rho, k_pke_decrypt, k_pke_encrypt, kpke_decrypt_spec, kpke_encrypt_spec, matrix_ok,
    vec_12_in_range,
};
use crate::params::{valid_params, ParameterSet, Params};
use crate::fips203::encrypt::encaps_g;
use crate::symmetric::{concat, g, j, sha3_256_of, sha3_512_of, shake256_of};

verus! {

/// dk_PKE, the first 384 k bytes of a decapsulation key.
pub open spec fn dk_pke_part(p: Params, dk: Seq<u8>) -> Seq<u8> {
    dk.subrange(0, 384 * p.k)
}

/// ek_PKE, the 384 k + 32 bytes after dk_PKE.
pub open spec fn ek_part(p: Params, dk: Seq<u8>) -> Seq<u8> {
    dk.subrange(384 * p.k, 768 * p.k + 32)
}

/// h = H(ek), the 32 bytes after ek_PKE.
pub open spec fn h_part(p: Params, dk: Seq<u8>) -> Seq<u8> {
    dk.subrange(768 * p.k + 32, 768 * p.k + 64)
}

/// z, the implicit-rejection seed, the last 32 bytes.
pub open spec fn z_part(p: Params, dk: Seq<u8>) -> Seq<u8> {
    dk.subrange(768 * p.k + 64, 768 * p.k + 96)
}

/// The inputs on which decapsulation returns a key.
pub open spec fn decaps_ok(p: Params, dk: Seq<u8>, c: Seq<u8>) -> bool {
    &&& c.len() == 32 * (p.du * p.k + p.dv)
    &&& dk.len() == 768 * p.k + 96
    &&& vec_12_in_range(dk_pke_part(p, dk), p.k as int)
    &&& vec_12_in_range(ek_part(p, dk), p.k as int)
    &&& matrix_ok(ek_rho(p, ek_part(p, dk)), p.k as int)
}

/// m' = K-PKE.Decrypt(dk_PKE, c).
pub open spec fn decaps_m(p: Params, dk: Seq<u8>, c: Seq<u8>) -> Seq<u8> {
    kpke_decrypt_spec(p, dk_pke_part(p, dk), c)
}

/// (K', r') = G(m' || h).
pub open spec fn decaps_g(p: Params, dk: Seq<u8>, c: Seq<u8>) -> Seq<u8> {
    sha3_512_of(decaps_m(p, dk, c) + h_part(p, dk))
}

/// The key that ML-KEM.Decaps(dk, c) returns: K' when re-encrypting m' with r'
/// gives back c, else the rejection key J(z || c).
pub open spec fn decaps_spec(p: Params, dk: Seq<u8>, c: Seq<u8>) -> Seq<u8> {
    let kr = decaps_g(p, dk, c);
    let c_prime = kpke_encrypt_spec(p, ek_part(p, dk), decaps_m(p, dk, c), kr.subrange(32, 64));
    if c == c_prime {
        kr.subrange(0, 32)
    } else {
        shake256_of(z_part(p, dk) + c, 32)
    }
}

/// Split a decapsulation key into dk_PKE, ek_PKE, h and z.
pub fn unpack_dk(p: Params, dk: &[u8]) -> (r: (&[u8], &[u8], &[u8], &[u8]))
    requires
        valid_params(p),
        dk@.len() == 768 * p.k + 96,
    ensures
        r.0@ == dk_pke_part(p, dk@),
        r.1@ == ek_part(p, dk@),
        r.2@ == h_part(p, dk@),
        r.3@ == z_part(p, dk@),
{
    let k = p.k;
    (
        &dk[0..384 * k],
        &dk[384 * k..768 * k + 32],
        &dk[768 * k + 32..768 * k + 64],
        &dk[768 * k + 64..768 * k + 96],
    )
}

/// ML-KEM.Decaps: the shared secret K' that c encapsulates under dk, or the
/// implicit-rejection key J(z || c) when c fails the re-encryption check; the
/// choice is made without branching. `Err(InvalidInput)` when c or dk has the
/// wrong length, or dk holds an unreduced coefficient or a rho that yields no
/// matrix.
pub fn mlkem_decaps<P: ParameterSet>(c: &[u8], dk: &[u8]) -> (r: Result<Vec<u8>, KemError>)
    ensures
        r is Ok <==> decaps_ok(P::spec_params(), dk@, c@),
        r matches Ok(key) ==> key@ == decaps_spec(P::spec_params(), dk@, c@),
        r matches Ok(key) ==> key@.len() == 32,
        r matches Err(e) ==> e == KemError::InvalidInput,
{
    let p = P::params();
    let k = p.k;
    if c.len() != 32 * (p.du * k + p.dv) || dk.len() != 768 * k + 96 {
        return Err(KemError::InvalidInput);
    }
    let (dk_pke, ek_pke, h_ek, z) = unpack_dk(p, dk);
    let mut m_prime = match k_pke_decrypt(p, dk_pke, c) {
        Err(e) => {
            return Err(e);
        },
        Ok(m) => m,
    };
    let mut g_input = concat(&m_prime, h_ek);
    let (k_prime, mut r_prime) = g(&g_input);
    let k_bar = j(&concat(z, c));
    let c_prime = k_pke_encrypt(p, ek_pke, &m_prime, &r_prime);
    wipe(&mut m_prime);
    wipe(&mut r_prime);
    wipe(&mut g_input);
    match c_prime {
        Err(e) => Err(e),
        Ok(c_prime) => {
            let same = ct_equal(c, &c_prime);
            Ok(ct_select(&k_bar, &k_prime, same))
        },
    }
}

/// ML-KEM is correct wherever K-PKE is: when K-PKE.Decrypt recovers m from the
/// ciphertext that encapsulation built from m under ek, decapsulation with
/// dk = dk_PKE || ek || H(ek) || z returns the shared secret that encapsulation
/// returned.
pub proof fn lemma_kem_correct_when_pke_correct(
    p: Params,
    dk_pke: Seq<u8>,
    ek: Seq<u8>,
    z: Seq<u8>,
    m: Seq<u8>,
)
    requires
        valid_params(p),
        dk_pke.len() == 384 * p.k,
        ek.len() == 384 * p.k + 32,
        sha3_256_of(ek).len() == 32,
        z.len() == 32,
        kpke_decrypt_spec(
            p,
            dk_pke,
            kpke_encrypt_spec(p, ek, m, encaps_g(ek, m).subrange(32, 64)),
        ) == m,
    ensures
        decaps_spec(
            p,
            dk_pke + ek + sha3_256_of(ek) + z,
            kpke_encrypt_spec(p, ek, m, encaps_g(ek, m).subrange(32, 64)),
        ) == encaps_g(ek, m).subrange(0, 32),
{
    let dk = dk_pke + ek + sha3_256_of(ek) + z;
    let c = kpke_encrypt_spec(p, ek, m, encaps_g(ek, m).subrange(32, 64));
    assert(dk_pke_part(p, dk) =~= dk_pke);
    assert(ek_part(p, dk) =~= ek);
    assert(h_part(p, dk) =~= sha3_256_of(ek));
    assert(decaps_m(p, dk, c) == m);
    assert(decaps_g(p, dk, c) == encaps_g(ek, m));
}

} // verus!
