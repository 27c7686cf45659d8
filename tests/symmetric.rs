use capy_kem::ct::{ct_equal, ct_select, wipe};
use capy_kem::symmetric::{g, h, j, prf, xof};

fn hex(b: &[u8]) -> String {
    b.iter().map(|x| format!("{:02x}", x)).collect()
}

#[test]
fn h_is_sha3_256() {
    assert_eq!(
        hex(&h(&[])),
        "a7ffc6f8bf1ed76651c14756a061d662f580ff4de43b49fa82d80a4b80f8434a"
    );
}

#[test]
fn g_is_sha3_512_split() {
    let (a, b) = g(&[]);
    assert_eq!(
        hex(&a),
        "a69f73cca23a9ac5c8b567dc185a756e97c982164fe25859e0d1dcc1475c80a6"
    );
    assert_eq!(
        hex(&b),
        "15b2123af1f5f94c11e3e9402c3ac558f500199d95b6d3e301758586281dcd26"
    );
}

#[test]
fn j_is_shake256_32() {
    assert_eq!(
        hex(&j(&[])),
        "46b9dd2b0ba88d13233b3feb743eeb243fcd52ea62b81b82b50c27646ed5762f"
    );
}

#[test]
fn xof_is_shake128_of_rho_i_j() {
    let out = xof(&[], 0, 1, 32);
    assert_eq!(out.len(), 32);
    assert_ne!(out, vec![0u8; 32]);
    assert_ne!(out, xof(&[], 1, 0, 32));
}

#[test]
fn prf_lengths_follow_eta() {
    assert_eq!(prf(2, &[1u8; 32], 0).len(), 128);
    assert_eq!(prf(3, &[1u8; 32], 0).len(), 192);
    assert_ne!(prf(2, &[1u8; 32], 0), prf(2, &[1u8; 32], 1));
}

#[test]
fn constant_time_helpers() {
    assert_eq!(ct_equal(&[1, 2, 3], &[1, 2, 3]), 1);
    assert_eq!(ct_equal(&[1, 2, 3], &[1, 2, 4]), 0);
    assert_eq!(ct_equal(&[1, 2, 3], &[1, 2]), 0);
    assert_eq!(ct_select(&[1, 2], &[3, 4], 0), vec![1, 2]);
    assert_eq!(ct_select(&[1, 2], &[3, 4], 1), vec![3, 4]);
    let mut secret = vec![7u8; 32];
    wipe(&mut secret);
    assert_eq!(secret, vec![0u8; 32]);
}
