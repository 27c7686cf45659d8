use vstd::prelude::*;

verus! {

/// Narrow an unsigned integer to a shorter type, keeping its low bits.
pub trait Truncate<T> {
    /// The low bits of `self`, as the narrower type.
    spec fn spec_truncate(self) -> T;

    /// The low bits of `self`, as the narrower type.
    fn truncate(self) -> (r: T)
        ensures
            r == self.spec_truncate(),
    ;
}

impl Truncate<u16> for u32 {
    open spec fn spec_truncate(self) -> u16 {
        self as u16
    }

    fn truncate(self) -> (r: u16) {
        let x = self;
        assert((x & 0xFFFF) as u16 == x as u16) by (bit_vector);
        (x & 0xFFFF) as u16
    }
}

impl Truncate<u32> for u64 {
    open spec fn spec_truncate(self) -> u32 {
        self as u32
    }

    fn truncate(self) -> (r: u32) {
        let x = self;
        assert((x & 0xFFFF_FFFF) as u32 == x as u32) by (bit_vector);
        (x & 0xFFFF_FFFF) as u32
    }
}

impl Truncate<u8> for usize {
    open spec fn spec_truncate(self) -> u8 {
        self as u8
    }

    fn truncate(self) -> (r: u8) {
        let x = self;
        assert((x & 0xFF) as u8 == x as u8) by (bit_vector);
        (x & 0xFF) as u8
    }
}

impl Truncate<u16> for u128 {
    open spec fn spec_truncate(self) -> u16 {
        self as u16
    }

    fn truncate(self) -> (r: u16) {
        let x = self;
        assert((x & 0xFFFF) as u16 == x as u16) by (bit_vector);
        (x & 0xFFFF) as u16
    }
}

impl Truncate<u8> for u128 {
    open spec fn spec_truncate(self) -> u8 {
        self as u8
    }

    fn truncate(self) -> (r: u8) {
        let x = self;
        assert((x & 0xFF) as u8 == x as u8) by (bit_vector);
        (x & 0xFF) as u8
    }
}

} // verus!
