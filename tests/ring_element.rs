use capy_kem::constants::{K_MOD_ROOTS, K_NTT_ROOTS};
use capy_kem::field_element::FieldElement;
use capy_kem::math::field_element::FieldElement as F;
use capy_kem::math::ring_element::RingElement as Poly;
use capy_kem::ring_element::RingElement;
use rand::{Rng, SeedableRng};
use sha3::digest::{ExtendableOutput, Update, XofReader};
use rand_chacha::ChaCha20Rng;

const Q: u16 = 3329;

fn bitreverse(mut i: u16) -> u16 {
    let mut ret = 0;
    for _ in 0..7 {
        let bit = i & 1;
        ret <<= 1;
        ret |= bit;
        i >>= 1;
    }
    ret
}

fn mod_pow(base: u32, exp: u32, modulus: u32) -> u16 {
    let mut result = 1;
    let mut base = base % modulus;
    let mut exp = exp;
    while exp > 0 {
        if exp % 2 == 1 {
            result = (result * base) % modulus;
        }
        exp >>= 1;
        base = (base * base) % modulus;
    }
    result as u16
}

fn seed_bytes() -> Vec<u8> {
    (0..32)
        .map(|_| ChaCha20Rng::seed_from_u64(0x7FFFFFFFFFFFFFFF).gen())
        .collect()
}

#[test]
fn create_and_test_kntt_roots() {
    let kntt_roots: Vec<u16> = (0..128)
        .map(|i| mod_pow(17, bitreverse(i).into(), Q.into()))
        .collect();
    assert_eq!(kntt_roots, K_NTT_ROOTS);
}

#[test]
fn create_and_test_k_mod_roots() {
    let k_mod_roots: Vec<u16> = (0..128)
        .map(|i| mod_pow(17, (2 * bitreverse(i) + 1).into(), Q.into()))
        .collect();
    assert_eq!(k_mod_roots, K_MOD_ROOTS);
}

#[test]
fn test_addition() {
    let a = RingElement::new(vec![FieldElement::new(1), FieldElement::new(2)]);
    let b = RingElement::new(vec![FieldElement::new(3), FieldElement::new(4)]);
    let expected = RingElement::new(vec![FieldElement::new(4), FieldElement::new(6)]);
    assert_eq!(a.add(b), expected);
}

#[test]
fn test_subtraction() {
    let a = RingElement::new(vec![FieldElement::new(5), FieldElement::new(7)]);
    let b = RingElement::new(vec![FieldElement::new(2), FieldElement::new(3)]);
    let expected = RingElement::new(vec![FieldElement::new(3), FieldElement::new(4)]);
    assert_eq!(a.sub(b), expected);
}

#[test]
fn test_additive_inverse() {
    let a_vals: [F; 256] = [F::new(123); 256];
    let a = Poly::new(a_vals);
    let mut inverse_vals = [F::zero(); 256];
    for (i, val) in a.coefs.iter().enumerate() {
        inverse_vals[i] = val.neg();
    }
    let b = Poly::new(inverse_vals);
    let result = a.add(&b);
    let zero = Poly::zero();
    assert_eq!(result.coefs, zero.coefs, "a + additive inverse of a should be zero.");
}

#[test]
fn test_additive_commutativity() {
    let bytes = seed_bytes();
    let a = Poly::sample_poly_cbd::<2>(&bytes, 0xAA);
    let b = Poly::sample_poly_cbd::<2>(&bytes, 0xBB);
    let a_plus_b = a.add(&b);
    let b_plus_a = b.add(&a);
    assert_eq!(a_plus_b.coefs, b_plus_a.coefs, "Addition should be commutative.");
}

#[test]
fn test_additive_closure() {
    let bytes = seed_bytes();
    let a = Poly::sample_poly_cbd::<2>(&bytes, 0xAA);
    let b = Poly::sample_poly_cbd::<2>(&bytes, 0xBB);
    let result = a.add(&b);
    assert!(
        result.coefs.iter().all(|x| x.val() < 3329),
        "Summed elements are not reduced!"
    );
}

#[test]
fn test_additive_identity() {
    let bytes = seed_bytes();
    let a = Poly::sample_poly_cbd::<2>(&bytes, 0xAA);
    let zero = Poly::zero();
    let a_plus_zero = a.add(&zero);
    assert_eq!(
        a.coefs, a_plus_zero.coefs,
        "Adding the identity element should not change the element."
    );
    let zero_plus_a = zero.add(&a);
    assert_eq!(
        a.coefs, zero_plus_a.coefs,
        "Adding an element to the identity element should not change the element."
    );
}

#[test]
fn ring_addition_is_associative() {
    let bytes = seed_bytes();
    let a = Poly::sample_poly_cbd::<3>(&bytes, 1);
    let b = Poly::sample_poly_cbd::<3>(&bytes, 2);
    let c = Poly::sample_poly_cbd::<3>(&bytes, 3);
    assert_eq!(a.add(&b).add(&c).coefs, a.add(&b.add(&c)).coefs);
}

#[test]
fn cbd_coefficients_stay_within_eta() {
    let bytes = seed_bytes();
    for eta in [2u16, 3] {
        let p = if eta == 2 {
            Poly::sample_poly_cbd::<2>(&bytes, 7)
        } else {
            Poly::sample_poly_cbd::<3>(&bytes, 7)
        };
        for c in p.coefs.iter() {
            assert!(c.val() <= eta || c.val() >= Q - eta, "coefficient {}", c.val());
        }
    }
}

#[test]
fn cbd_depends_on_the_nonce() {
    let bytes = seed_bytes();
    let a = Poly::sample_poly_cbd::<2>(&bytes, 0);
    let b = Poly::sample_poly_cbd::<2>(&bytes, 1);
    assert_ne!(a.coefs, b.coefs);
}

#[test]
fn ring_subtraction_and_negation() {
    let a = Poly::new([F::new(5); 256]);
    let b = Poly::new([F::new(7); 256]);
    let d = a.sub(&b);
    assert!(d.coefs.iter().all(|x| x.val() == Q - 2));
    assert!(b.neg().coefs.iter().all(|x| x.val() == Q - 7));
    assert!(Poly::zero().neg().coefs.iter().all(|x| x.val() == 0));
}

/// SamplePolyCBD_2(SHAKE-256(s || b)) computed directly from the XOF output.
fn cbd2_expected(s: &[u8], b: u8) -> [u16; 256] {
    let mut hasher = sha3::Shake256::default();
    hasher.update(s);
    hasher.update(&[b]);
    let mut buf = [0u8; 128];
    hasher.finalize_xof().read(&mut buf);
    let bit = |k: usize| ((buf[k / 8] >> (k % 8)) & 1) as i32;
    let mut out = [0u16; 256];
    for i in 0..256 {
        let x = bit(4 * i) + bit(4 * i + 1);
        let y = bit(4 * i + 2) + bit(4 * i + 3);
        out[i] = (x - y).rem_euclid(3329) as u16;
    }
    out
}

#[test]
fn test_sample_poly_cbd() {
    let bytes = "example input bytes".as_bytes();
    let a = Poly::sample_poly_cbd::<2>(&bytes, 0x01);
    let b = Poly::new(cbd2_expected(bytes, 0x01).map(|val| F::new(val)));
    assert_eq!(a.coefs, b.coefs);
}
