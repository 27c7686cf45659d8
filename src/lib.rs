//! ML-KEM (FIPS 203): a module-lattice key encapsulation mechanism, with its
//! field, polynomial and NTT arithmetic stated and proved in Verus.
pub mod constants;
pub mod ct;
pub mod error;
pub mod fips203;
pub mod field_element;
pub mod math;
pub mod params;
pub mod ring_element;
pub mod symmetric;

pub use error::{KemError, Result};
