//! The FIPS 203 algorithms: K-PKE and the ML-KEM key encapsulation built on it.
pub mod decrypt;
pub mod encrypt;
pub mod keygen;
pub mod kpke;
