use vstd::prelude::*;

use crate::constants::Q;
use crate::math::field_element::{
    compress_spec, compress_value, decompress_spec, decompress_value, q, reduce_once_spec,
    FieldElement as Reduced,
};

verus! {

/// The operations of the field fail only on unreduced values.
pub enum OperationError {
    UnreducedFieldElementError,
}

/// A 16-bit representative of an integer modulo q; it need not be reduced.
/// The arithmetic operations reduce their results.
#[derive(Copy, Clone, Debug, PartialEq, Eq, Structural)]
pub struct FieldElement {
    pub val: u16,
}

impl FieldElement {
    /// Wrap `val` as it is, without reducing it.
    pub fn new(val: u16) -> (r: Self)
        ensures
            r.val == val,
    {
        Self { val }
    }

    /// `Ok` exactly when the representative lies in [0, q).
    pub fn check_reduced(self) -> (r: core::result::Result<Self, OperationError>)
        ensures
            self.val < q() ==> r == Ok::<Self, OperationError>(self),
            self.val >= q() ==> r is Err,
    {
        if self.val >= Q {
            Err(OperationError::UnreducedFieldElementError)
        } else {
            Ok(self)
        }
    }

    /// Compress_d: round(2^d * x / q) mod 2^d for a reduced x; below 2^d for any x.
    pub fn compress(&self, d: u8) -> (r: u16)
        requires
            1 <= d <= 11,
        ensures
            r < vstd::arithmetic::power2::pow2(d as nat),
            self.val < q() ==> r == compress_spec(self.val as int, d as nat),
    {
        compress_value(self.val, d as u16)
    }

    /// Decompress_d: round(q * y / 2^d) of the representative y, truncated to 16 bits.
    pub fn decompress(&self, d: u8) -> (r: u16)
        requires
            1 <= d <= 11,
        ensures
            r == decompress_spec(self.val as int, d as nat) % 0x10000,
            self.val < vstd::arithmetic::power2::pow2(d as nat) ==> r < q(),
    {
        decompress_value(self.val, d as u16)
    }

    /// Subtract q once from a representative in [q, 2q).
    pub fn reduce_once(self) -> (r: Self)
        ensures
            r.val == reduce_once_spec(self.val as int),
            self.val < 2 * q() ==> r.val == self.val % 3329,
    {
        Self { val: Reduced::new(self.val).0 }
    }

    /// Reduce the representative modulo q without division.
    pub fn barrett_reduce(self) -> (r: Self)
        ensures
            r.val == self.val % 3329,
    {
        Self { val: Reduced::barrett_reduce(self.val as u32).0 }
    }

    /// (self + other) mod q, for representatives whose sum is below 2q.
    pub fn add(self, other: Self) -> (r: Self)
        requires
            self.val + other.val < 2 * q(),
        ensures
            r.val == (self.val + other.val) % 3329,
    {
        Self::new(self.val + other.val).reduce_once()
    }

    /// (self - other) mod q, for reduced operands.
    pub fn sub(self, other: Self) -> (r: Self)
        requires
            self.val < q(),
            other.val < q(),
        ensures
            r.val == (self.val - other.val) % 3329,
    {
        let result = if self.val < other.val {
            self.val + Q - other.val
        } else {
            self.val - other.val
        };
        Self::new(result).reduce_once()
    }

    /// (self * other) mod q, for a reduced representative and a factor below q.
    pub fn mul(self, other: u16) -> (r: Self)
        requires
            self.val < q(),
            other < q(),
        ensures
            r.val == (self.val * other) % 3329,
    {
        Self { val: Reduced(self.val).mul_u16(other).0 }
    }
}

} // verus!
