use capy_kem::error::KemError;
use capy_kem::fips203::decrypt::mlkem_decaps;
use capy_kem::fips203::encrypt::{check_ek, mlkem_encaps_internal};
use capy_kem::fips203::keygen::{ml_kem_keygen_internal, KEMPrivateKey};
use capy_kem::fips203::kpke::{k_pke_decrypt, k_pke_encrypt, k_pke_keygen};
use capy_kem::params::{MlKem1024, MlKem512, MlKem768, ParameterSet};
use capy_kem::symmetric::h;
use rand::{thread_rng, RngCore};

fn random32() -> [u8; 32] {
    let mut b = [0u8; 32];
    thread_rng().fill_bytes(&mut b);
    b
}

#[allow(non_snake_case)]
fn roundtrip<P: ParameterSet>() {
    let (ek, dk) = ml_kem_keygen_internal::<P>(&random32(), &random32()).unwrap();
    let (K, c) = mlkem_encaps_internal::<P>(&ek.ek, &random32()).unwrap();
    let dec = mlkem_decaps::<P>(&c, &dk.dk).unwrap();
    assert_eq!(dec, K);
}

#[test]
fn roundtrip_768() {
    roundtrip::<MlKem768>();
}

#[test]
fn roundtrip_512() {
    roundtrip::<MlKem512>();
}

#[test]
fn roundtrip_1024() {
    roundtrip::<MlKem1024>();
}

#[test]
fn test_private_key_redaction() {
    let (_, dk) = ml_kem_keygen_internal::<MlKem768>(&random32(), &random32()).unwrap();
    let debug_output = KEMPrivateKey::debug_string();
    assert!(debug_output.contains("<redacted>"));
    assert!(!debug_output.contains(&format!("{:?}", dk.dk)));
    let display_output = KEMPrivateKey::display_string();
    assert!(display_output.contains("<redacted>"));
}

#[test]
fn keygen_768_is_deterministic_and_well_formed() {
    let d = [0x04u8; 32];
    let z = [0x04u8; 32];
    let (ek1, dk1) = ml_kem_keygen_internal::<MlKem768>(&d, &z).unwrap();
    let (ek2, dk2) = ml_kem_keygen_internal::<MlKem768>(&d, &z).unwrap();
    assert_eq!(ek1.ek, ek2.ek);
    assert_eq!(dk1.dk, dk2.dk);
    assert_eq!(ek1.ek.len(), 1184);
    assert_eq!(dk1.dk.len(), 2400);
    assert_eq!(&dk1.dk[1152..1152 + 1184], &ek1.ek[..]);
    assert_eq!(&dk1.dk[1152 + 1184..1152 + 1216], &h(&ek1.ek)[..]);
    assert_eq!(&dk1.dk[2368..], &z[..]);
}

#[test]
fn kpke_768_round_trip() {
    let p = MlKem768::params();
    let (ek, dk) = k_pke_keygen(p, &[0x04u8; 32]).unwrap();
    let m = [0x04u8; 32];
    let c = k_pke_encrypt(p, &ek, &m, &[0x04u8; 32]).unwrap();
    assert_eq!(c.len(), 1088);
    assert_eq!(k_pke_decrypt(p, &dk, &c).unwrap(), m.to_vec());
}

#[test]
fn kpke_round_trip_all_levels_random() {
    for p in [MlKem512::params(), MlKem768::params(), MlKem1024::params()] {
        for _ in 0..5 {
            let (ek, dk) = k_pke_keygen(p, &random32()).unwrap();
            let m = random32();
            let c = k_pke_encrypt(p, &ek, &m, &random32()).unwrap();
            assert_eq!(k_pke_decrypt(p, &dk, &c).unwrap(), m.to_vec());
        }
    }
}

#[test]
fn sizes_of_each_level() {
    for (p, ek_len, dk_len, c_len) in [
        (MlKem512::params(), 800, 1632, 768),
        (MlKem768::params(), 1184, 2400, 1088),
        (MlKem1024::params(), 1568, 3168, 1568),
    ] {
        let (ek, dk) = k_pke_keygen(p, &random32()).unwrap();
        assert_eq!(ek.len(), ek_len);
        assert_eq!(dk.len() + ek.len() + 64, dk_len);
        let c = k_pke_encrypt(p, &ek, &random32(), &random32()).unwrap();
        assert_eq!(c.len(), c_len);
    }
}

#[test]
#[allow(non_snake_case)]
fn implicit_rejection_on_flipped_bit() {
    let (ek, dk) = ml_kem_keygen_internal::<MlKem768>(&random32(), &random32()).unwrap();
    let (K, c) = mlkem_encaps_internal::<MlKem768>(&ek.ek, &random32()).unwrap();
    for bit in [0usize, 7, 4000, 8703] {
        let mut bad = c.clone();
        bad[bit / 8] ^= 1 << (bit % 8);
        let k_bad = mlkem_decaps::<MlKem768>(&bad, &dk.dk).unwrap();
        assert_eq!(k_bad.len(), 32);
        assert_ne!(k_bad, K);
        let again = mlkem_decaps::<MlKem768>(&bad, &dk.dk).unwrap();
        assert_eq!(again, k_bad);
    }
}

#[test]
fn invalid_ek_first_byte() {
    let (ek, _) = ml_kem_keygen_internal::<MlKem768>(&random32(), &random32()).unwrap();
    let mut bad = ek.ek.clone();
    bad[0] = 0xFF;
    bad[1] |= 0x0F;
    assert_eq!(
        mlkem_encaps_internal::<MlKem768>(&bad, &random32()),
        Err(KemError::InvalidInput)
    );
}

#[test]
fn invalid_ek_first_byte_ff_only() {
    let (ek, _) = ml_kem_keygen_internal::<MlKem768>(&[0x04u8; 32], &[0x04u8; 32]).unwrap();
    let mut bad = ek.ek.clone();
    bad[0] = 0xFF;
    let reencoded_low = ((bad[1] as u16 & 0x0F) << 8) | 0xFF;
    let r = mlkem_encaps_internal::<MlKem768>(&bad, &random32());
    if reencoded_low >= 3329 {
        assert_eq!(r, Err(KemError::InvalidInput));
    } else {
        assert!(r.is_ok());
    }
}

#[test]
fn wrong_lengths_are_invalid_input() {
    let (ek, dk) = ml_kem_keygen_internal::<MlKem512>(&random32(), &random32()).unwrap();
    assert_eq!(
        mlkem_encaps_internal::<MlKem512>(&ek.ek[1..], &random32()),
        Err(KemError::InvalidInput)
    );
    let (_, c) = mlkem_encaps_internal::<MlKem512>(&ek.ek, &random32()).unwrap();
    assert_eq!(mlkem_decaps::<MlKem512>(&c[1..], &dk.dk), Err(KemError::InvalidInput));
    assert_eq!(mlkem_decaps::<MlKem512>(&c, &dk.dk[1..]), Err(KemError::InvalidInput));
    assert_eq!(mlkem_decaps::<MlKem768>(&c, &dk.dk), Err(KemError::InvalidInput));
}

#[test]
fn error_messages() {
    assert_eq!(KemError::InvalidInput.message(), "Invalid input");
    assert_eq!(KemError::DecapsulationFailure.message(), "Decapsulation failed");
    assert_eq!(KemError::EncodingError.message(), "Encoding error");
}

#[test]
fn check_ek_accepts_fresh_keys_and_rejects_bad_ones() {
    let (ek, _) = ml_kem_keygen_internal::<MlKem1024>(&random32(), &random32()).unwrap();
    assert_eq!(check_ek::<MlKem1024>(&ek.ek), Ok(()));
    assert_eq!(check_ek::<MlKem768>(&ek.ek), Err(KemError::InvalidInput));
    let mut bad = ek.ek.clone();
    bad[0] = 0xFF;
    bad[1] |= 0x0D;
    assert_eq!(check_ek::<MlKem1024>(&bad), Err(KemError::InvalidInput));
}
