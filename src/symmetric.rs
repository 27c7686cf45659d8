//! The hash functions and extendable-output functions of FIPS 203, bound to the
//! SHA-3 family.
use sha3::digest::{ExtendableOutput, Update, XofReader};
use sha3::Digest;
use vstd::prelude::*;

verus! {

/// SHA3-256 of a byte string.
pub uninterp spec fn sha3_256_of(data: Seq<u8>) -> Seq<u8>;

/// SHA3-512 of a byte string.
pub uninterp spec fn sha3_512_of(data: Seq<u8>) -> Seq<u8>;

/// The first `len` bytes that SHAKE-128 squeezes after absorbing a byte string.
pub uninterp spec fn shake128_of(data: Seq<u8>, len: nat) -> Seq<u8>;

/// The first `len` bytes that SHAKE-256 squeezes after absorbing a byte string.
pub uninterp spec fn shake256_of(data: Seq<u8>, len: nat) -> Seq<u8>;

/// Relies on sha3::Sha3_256: the 32-byte SHA3-256 digest of `data`.
#[verifier::external_body]
fn sha3_256(data: &[u8]) -> (r: Vec<u8>)
    ensures
        r@ == sha3_256_of(data@),
        r@.len() == 32,
{
    sha3::Sha3_256::digest(data).to_vec()
}

/// Relies on sha3::Sha3_512: the 64-byte SHA3-512 digest of `data`.
#[verifier::external_body]
fn sha3_512(data: &[u8]) -> (r: Vec<u8>)
    ensures
        r@ == sha3_512_of(data@),
        r@.len() == 64,
{
    sha3::Sha3_512::digest(data).to_vec()
}

/// Relies on sha3::Shake128 (update, finalize_xof, read): `len` bytes squeezed
/// after absorbing `data`.
#[verifier::external_body]
fn shake128(data: &[u8], len: usize) -> (r: Vec<u8>)
    ensures
        r@ == shake128_of(data@, len as nat),
        r@.len() == len,
{
    let mut hasher = sha3::Shake128::default();
    hasher.update(data);
    let mut out = vec![0u8; len];
    hasher.finalize_xof().read(&mut out);
    out
}

/// Relies on sha3::Shake256 (update, finalize_xof, read): `len` bytes squeezed
/// after absorbing `data`.
#[verifier::external_body]
fn shake256(data: &[u8], len: usize) -> (r: Vec<u8>)
    ensures
        r@ == shake256_of(data@, len as nat),
        r@.len() == len,
{
    let mut hasher = sha3::Shake256::default();
    hasher.update(data);
    let mut out = vec![0u8; len];
    hasher.finalize_xof().read(&mut out);
    out
}

/// `a` followed by `b`.
pub fn concat(a: &[u8], b: &[u8]) -> (r: Vec<u8>)
    ensures
        r@ == a@ + b@,
{
    let mut out: Vec<u8> = Vec::new();
    out.extend_from_slice(a);
    out.extend_from_slice(b);
    out
}

/// G(x) = SHA3-512(x), split into its two 32-byte halves.
pub fn g(x: &[u8]) -> (r: (Vec<u8>, Vec<u8>))
    ensures
        r.0@ == sha3_512_of(x@).subrange(0, 32),
        r.1@ == sha3_512_of(x@).subrange(32, 64),
        r.0@.len() == 32,
        r.1@.len() == 32,
{
    let digest = sha3_512(x);
    let mut lo: Vec<u8> = Vec::new();
    lo.extend_from_slice(&digest[0..32]);
    let mut hi: Vec<u8> = Vec::new();
    hi.extend_from_slice(&digest[32..64]);
    (lo, hi)
}

/// H(x) = SHA3-256(x).
pub fn h(x: &[u8]) -> (r: Vec<u8>)
    ensures
        r@ == sha3_256_of(x@),
        r@.len() == 32,
{
    sha3_256(x)
}

/// J(x) = the first 32 bytes of SHAKE-256(x).
pub fn j(x: &[u8]) -> (r: Vec<u8>)
    ensures
        r@ == shake256_of(x@, 32),
        r@.len() == 32,
{
    shake256(x, 32)
}

/// PRF_eta(s, b) = the first 64 * eta bytes of SHAKE-256(s || b).
pub fn prf(eta: usize, s: &[u8], b: u8) -> (r: Vec<u8>)
    requires
        eta <= 3,
    ensures
        r@ == shake256_of(s@.push(b), (64 * eta) as nat),
        r@.len() == 64 * eta,
{
    let mut input: Vec<u8> = Vec::new();
    input.extend_from_slice(s);
    input.push(b);
    assert(input@ =~= s@.push(b));
    shake256(&input, 64 * eta)
}

/// XOF(rho, i, j): the first `len` bytes of SHAKE-128(rho || i || j).
pub fn xof(rho: &[u8], i: u8, j: u8, len: usize) -> (r: Vec<u8>)
    ensures
        r@ == shake128_of(rho@.push(i).push(j), len as nat),
        r@.len() == len,
{
    let mut input: Vec<u8> = Vec::new();
    input.extend_from_slice(rho);
    input.push(i);
    input.push(j);
    assert(input@ =~= rho@.push(i).push(j));
    shake128(&input, len)
}

} // verus!
