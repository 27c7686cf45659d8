//! ML-KEM.KeyGen (FIPS 203, Algorithm 16, from its seeds).
use vstd::prelude::*;

use crate::ct::wipe;
use crate::error::KemError;
use crate::fips203::decrypt::{decaps_ok, dk_pke_part, ek_part};
use crate::fips203::encrypt::{encaps_ok, lemma_modulus_check_iff_in_range};
use crate::fips203::kpke::{ek_rho, k_pke_keygen, keygen_rho, kpke_dk, kpke_ek, matrix_ok};
use crate::params::{ParameterSet, Params};
use crate::symmetric::{h, sha3_256_of};

verus! {

/// A decapsulation key: dk_PKE || ek || H(ek) || z.
///
/// The key is secret: it has no textual rendering of its bytes, and its bytes
/// are wiped when it is dropped.
#[derive(Clone)]
pub struct KEMPrivateKey {
    pub dk: Vec<u8>,
}

impl KEMPrivateKey {
    /// The debug rendering of every key: its bytes are redacted, so it is the same
    /// text for all keys.
    pub fn debug_string() -> (r: &'static str)
        ensures
            r@ == "KEMPrivateKey { dk: \"<redacted>\" }"@,
    {
        "KEMPrivateKey { dk: \"<redacted>\" }"
    }

    /// The display rendering of every key, with its bytes redacted.
    pub fn display_string() -> (r: &'static str)
        ensures
            r@ == "KEMPrivateKey { dk: <redacted> }"@,
    {
        "KEMPrivateKey { dk: <redacted> }"
    }
}

impl Drop for KEMPrivateKey {
    /// Wipe the key bytes before the memory is released.
    fn drop(&mut self)
        opens_invariants none
        no_unwind
    {
        wipe(&mut self.dk);
    }
}

/// An encapsulation key: ByteEncode_12(t-hat) || rho.
#[derive(Clone, Debug)]
pub struct KEMPublicKey {
    pub ek: Vec<u8>,
}

/// The decapsulation key of ML-KEM.KeyGen(d, z).
pub open spec fn kem_dk(p: Params, d: Seq<u8>, z: Seq<u8>) -> Seq<u8> {
    kpke_dk(p, d) + kpke_ek(p, d) + sha3_256_of(kpke_ek(p, d)) + z
}

/// dk_PKE || ek || H(ek) || z.
pub fn pack_dk(dk: &mut Vec<u8>, ek: &[u8], h_ek: &[u8], z: &[u8])
    ensures
        final(dk)@ == old(dk)@ + ek@ + h_ek@ + z@,
{
    dk.extend_from_slice(ek);
    dk.extend_from_slice(h_ek);
    dk.extend_from_slice(z);
}

/// ML-KEM.KeyGen from the seeds d and z: the encapsulation key of
/// K-PKE.KeyGen(d) and the decapsulation key dk_PKE || ek || H(ek) || z.
/// `Err(InvalidInput)` when the matrix cannot be sampled from the seed rho of d.
pub fn ml_kem_keygen_internal<P: ParameterSet>(d: &[u8], z: &[u8]) -> (r: Result<
    (KEMPublicKey, KEMPrivateKey),
    KemError,
>)
    requires
        d@.len() == 32,
        z@.len() == 32,
    ensures
        r is Ok <==> matrix_ok(keygen_rho(d@), P::spec_params().k as int),
        r matches Ok(keys) ==> keys.0.ek@.len() == 384 * P::spec_params().k + 32
            && keys.1.dk@.len() == 768 * P::spec_params().k + 96,
        r matches Ok(keys) ==> encaps_ok(P::spec_params(), keys.0.ek@),
        r matches Ok(keys) ==> forall|c: Seq<u8>|
            c.len() == 32 * (P::spec_params().du * P::spec_params().k + P::spec_params().dv)
                ==> #[trigger] decaps_ok(P::spec_params(), keys.1.dk@, c),
        r matches Ok(keys) ==> keys.0.ek@ == kpke_ek(P::spec_params(), d@) && keys.1.dk@ == kem_dk(
            P::spec_params(),
            d@,
            z@,
        ),
        r matches Err(e) ==> e == KemError::InvalidInput,
{
    let p = P::params();
    match k_pke_keygen(p, d) {
        None => Err(KemError::InvalidInput),
        Some(keys) => {
            let (ek, dk_pke) = keys;
            let h_ek = h(&ek);
            let mut dk = dk_pke;
            pack_dk(&mut dk, &ek, &h_ek, z);
            proof {
                let k = p.k as int;
                lemma_modulus_check_iff_in_range(p, ek@);
                assert(ek_rho(p, ek@) == keygen_rho(d@));
                assert(dk_pke_part(p, dk@) =~= dk_pke@);
                assert(ek_part(p, dk@) =~= ek@);
            }
            Ok((KEMPublicKey { ek }, KEMPrivateKey { dk }))
        },
    }
}

} // verus!
