//! Constant-time comparison and selection, and the wiping of secret buffers.
use subtle::{ConditionallySelectable, ConstantTimeEq};
use vstd::prelude::*;
use zeroize::Zeroize;

verus! {

/// Relies on subtle's `ConstantTimeEq` for `[u8]`: 1 when the slices are equal
/// (same length, same bytes), 0 otherwise, in time independent of the contents.
#[verifier::external_body]
fn ct_eq_bytes(a: &[u8], b: &[u8]) -> (r: u8)
    ensures
        a@ == b@ ==> r == 1,
        a@ != b@ ==> r == 0,
{
    a.ct_eq(b).unwrap_u8()
}

/// Relies on subtle's `ConditionallySelectable` for `u8`: `b` when `choice` is 1,
/// `a` when it is 0, without branching.
#[verifier::external_body]
fn ct_select_byte(a: u8, b: u8, choice: u8) -> (r: u8)
    requires
        choice <= 1,
    ensures
        choice == 1 ==> r == b,
        choice == 0 ==> r == a,
{
    u8::conditional_select(&a, &b, subtle::Choice::from(choice))
}

/// Relies on zeroize's `Zeroize` for `[u8]` (a volatile write of zero to every
/// byte): the bytes all become zero and the length stays.
#[verifier::external_body]
fn zeroize_bytes(v: &mut Vec<u8>)
    ensures
        final(v)@ == Seq::new(old(v)@.len(), |i: int| 0u8),
    opens_invariants none
    no_unwind
{
    v.as_mut_slice().zeroize();
}

/// 1 when the byte strings are equal, 0 otherwise, in constant time.
pub fn ct_equal(a: &[u8], b: &[u8]) -> (r: u8)
    ensures
        r == if a@ == b@ {
            1u8
        } else {
            0u8
        },
{
    ct_eq_bytes(a, b)
}

/// `if_one` when `choice` is 1, else `if_zero`, selected byte by byte without
/// branching on `choice`.
pub fn ct_select(if_zero: &[u8], if_one: &[u8], choice: u8) -> (r: Vec<u8>)
    requires
        choice <= 1,
        if_zero@.len() == if_one@.len(),
    ensures
        r@ == if choice == 1 {
            if_one@
        } else {
            if_zero@
        },
{
    let mut out: Vec<u8> = Vec::new();
    let mut i: usize = 0;
    while i < if_zero.len()
        invariant
            choice <= 1,
            if_zero@.len() == if_one@.len(),
            i <= if_zero@.len(),
            out@ == (if choice == 1 {
                if_one@
            } else {
                if_zero@
            }).subrange(0, i as int),
        decreases if_zero@.len() - i,
    {
        let byte = ct_select_byte(if_zero[i], if_one[i], choice);
        out.push(byte);
        i = i + 1;
        proof {
            assert(out@ =~= (if choice == 1 {
                if_one@
            } else {
                if_zero@
            }).subrange(0, i as int));
        }
    }
    proof {
        assert(out@ =~= if choice == 1 {
            if_one@
        } else {
            if_zero@
        });
    }
    out
}

/// Overwrite every byte of a secret buffer with zero.
pub fn wipe(v: &mut Vec<u8>)
    ensures
        final(v)@ == Seq::new(old(v)@.len(), |i: int| 0u8),
    opens_invariants none
    no_unwind
{
    zeroize_bytes(v);
}

} // verus!
