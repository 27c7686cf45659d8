//! The three ML-KEM parameter sets.
use vstd::prelude::*;

verus! {

/// The parameters (k, eta1, eta2, du, dv) of an ML-KEM level.
#[derive(Clone, Copy, Debug, PartialEq, Eq, Structural)]
pub struct Params {
    /// Module rank.
    pub k: usize,
    /// Width of the noise distribution of the secret and of the key-generation error.
    pub eta1: usize,
    /// Width of the noise distribution of the encryption errors.
    pub eta2: usize,
    /// Compression width of the first ciphertext part.
    pub du: usize,
    /// Compression width of the second ciphertext part.
    pub dv: usize,
}

/// The parameters are those of one of the three standardized levels.
pub open spec fn valid_params(p: Params) -> bool {
    ||| (p.k == 2 && p.eta1 == 3 && p.eta2 == 2 && p.du == 10 && p.dv == 4)
    ||| (p.k == 3 && p.eta1 == 2 && p.eta2 == 2 && p.du == 10 && p.dv == 4)
    ||| (p.k == 4 && p.eta1 == 2 && p.eta2 == 2 && p.du == 11 && p.dv == 5)
}

/// Length of an encapsulation key: 384 k + 32.
pub open spec fn ek_len(p: Params) -> int {
    384 * p.k + 32
}

/// Length of a K-PKE decryption key: 384 k.
pub open spec fn dk_pke_len(p: Params) -> int {
    384 * p.k
}

/// Length of a decapsulation key: 768 k + 96.
pub open spec fn dk_len(p: Params) -> int {
    768 * p.k + 96
}

/// Length of the first ciphertext part: 32 du k.
pub open spec fn c1_len(p: Params) -> int {
    32 * p.du * p.k
}

/// Length of a ciphertext: 32 (du k + dv).
pub open spec fn ct_len(p: Params) -> int {
    32 * (p.du * p.k + p.dv)
}

/// A parameter set chosen at compile time.
pub trait ParameterSet {
    /// The parameters of the level.
    spec fn spec_params() -> Params;

    /// The parameters of the level, at run time.
    fn params() -> (p: Params)
        ensures
            p == Self::spec_params(),
            valid_params(p),
    ;
}

/// ML-KEM-512: k = 2, eta1 = 3, eta2 = 2, du = 10, dv = 4.
pub struct MlKem512;

/// ML-KEM-768: k = 3, eta1 = 2, eta2 = 2, du = 10, dv = 4.
pub struct MlKem768;

/// ML-KEM-1024: k = 4, eta1 = 2, eta2 = 2, du = 11, dv = 5.
pub struct MlKem1024;

impl ParameterSet for MlKem512 {
    open spec fn spec_params() -> Params {
        Params { k: 2, eta1: 3, eta2: 2, du: 10, dv: 4 }
    }

    fn params() -> (p: Params) {
        Params { k: 2, eta1: 3, eta2: 2, du: 10, dv: 4 }
    }
}

impl ParameterSet for MlKem768 {
    open spec fn spec_params() -> Params {
        Params { k: 3, eta1: 2, eta2: 2, du: 10, dv: 4 }
    }

    fn params() -> (p: Params) {
        Params { k: 3, eta1: 2, eta2: 2, du: 10, dv: 4 }
    }
}

impl ParameterSet for MlKem1024 {
    open spec fn spec_params() -> Params {
        Params { k: 4, eta1: 2, eta2: 2, du: 11, dv: 5 }
    }

    fn params() -> (p: Params) {
        Params { k: 4, eta1: 2, eta2: 2, du: 11, dv: 5 }
    }
}

} // verus!
