//! Arithmetic over the field of integers modulo q and over polynomials.
pub mod field_element;
pub mod ntt;
pub mod ntt_element;
pub mod encoding;
pub mod ring_element;
pub mod util;
