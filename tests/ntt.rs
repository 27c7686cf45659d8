use capy_kem::math::encoding::{byte_decode, byte_encode, Compress, Encode};
use capy_kem::math::field_element::FieldElement as F;
use capy_kem::math::ntt_element::NttElement;
use capy_kem::math::ring_element::RingElement;
use rand::{Rng, SeedableRng};
use rand_chacha::ChaCha20Rng;

fn seed_bytes() -> Vec<u8> {
    (0..32)
        .map(|_| ChaCha20Rng::seed_from_u64(0x7FFFFFFFFFFFFFFF).gen())
        .collect()
}

#[test]
fn test_sample_ntt() {
    let byte_stream = [0_u8; 0];
    let a = NttElement::sample_ntt(&byte_stream, 0, 1).unwrap();
    let result: [F; 256] = [
        2278, 18, 2449, 1376, 2453, 1346, 66, 738, 2100, 1008, 950, 2669, 2121, 3030, 880,
        2569, 3146, 1432, 1285, 2106, 1943, 895, 2326, 3255, 1301, 1752, 1281, 2500, 3149,
        1061, 959, 687, 199, 1817, 1651, 2069, 3091, 2864, 120, 2222, 3005, 1823, 2721, 3012,
        665, 1426, 386, 1639, 1632, 591, 1405, 756, 464, 1405, 2701, 3275, 76, 2137, 664, 2457,
        2216, 2352, 1994, 1521, 1944, 1753, 999, 2051, 3219, 2771, 1596, 2123, 527, 339, 2532,
        2079, 2994, 576, 1876, 2698, 1708, 119, 537, 2122, 3132, 285, 3198, 3131, 2761, 3187,
        1, 3082, 2809, 3140, 895, 356, 1653, 2663, 2856, 2290, 3166, 1245, 1876, 2355, 2746,
        3213, 619, 551, 3216, 2092, 966, 479, 3079, 2557, 2706, 380, 2388, 915, 4, 2336, 144,
        3220, 1807, 95, 1109, 2105, 1441, 2379, 2890, 2985, 2129, 1040, 1472, 1350, 1976, 927,
        862, 1556, 2188, 447, 856, 1458, 2372, 1254, 2132, 2618, 200, 2880, 2834, 1811, 505,
        124, 621, 2574, 2546, 2974, 1875, 1646, 618, 1867, 1394, 1059, 486, 1232, 2574, 563,
        2509, 2805, 2674, 1594, 782, 1147, 12, 1853, 459, 2718, 1861, 913, 2538, 1986, 346,
        2139, 1256, 3148, 830, 615, 676, 2220, 2638, 893, 977, 474, 1096, 1307, 3285, 462,
        3082, 2805, 1286, 2645, 2733, 2695, 2082, 3216, 414, 1376, 2636, 971, 2671, 1721, 746,
        516, 1620, 688, 1903, 2497, 2869, 1587, 819, 256, 2326, 943, 1733, 117, 2941, 2933,
        1852, 2753, 2057, 2585, 1042, 2572, 220, 3049, 558, 2617, 1975, 45, 2593, 757, 3202,
        1164, 1123, 1458, 1720, 2365, 148, 605, 2229, 760, 90, 3212, 3015, 1643, 1962, 2954,
    ]
    .map(|val| F::new(val));
    assert_eq!(a.get_ring(), result);
}

#[test]
fn test_ntt() {
    let byte_stream = NttElement::sample_ntt(&vec![42_u8; 32], 1, 1).unwrap();
    let byte_stream_copy = byte_stream;
    let a = byte_stream.ntt_inv();
    let b = byte_stream_copy.ntt_inv();
    assert_eq!(b.coefs, a.coefs)
}

#[test]
fn test_ntt_from_poly_cbd_inverse_with_random_input() {
    let bytes = seed_bytes();
    let ring_element = RingElement::sample_poly_cbd::<2>(&bytes, 0xFF);
    let ring_element_copy = ring_element;
    let ntt_element = NttElement::new(&ring_element);
    assert_eq!(ring_element_copy.coefs, ntt_element.ntt_inv().coefs);
}

#[test]
fn test_multiply_ntts_associative() {
    let bytes = seed_bytes();
    let a = NttElement::new(&RingElement::sample_poly_cbd::<2>(&bytes, 0xAA));
    let b = NttElement::new(&RingElement::sample_poly_cbd::<2>(&bytes, 0xBB));
    let c = NttElement::new(&RingElement::sample_poly_cbd::<2>(&bytes, 0xCC));
    let ab_c = a.multiply_ntts(&b).multiply_ntts(&c);
    let a_bc = a.multiply_ntts(&b.multiply_ntts(&c));
    assert_eq!(ab_c.get_ring(), a_bc.get_ring());

    let a = NttElement::sample_ntt(&bytes.clone(), 0, 0).unwrap();
    let b = NttElement::sample_ntt(&bytes.clone(), 0, 0).unwrap();
    let c = NttElement::sample_ntt(&bytes.clone(), 0, 0).unwrap();
    let ab_c = a.multiply_ntts(&b).multiply_ntts(&c);
    let a_bc = a.multiply_ntts(&b.multiply_ntts(&c));
    assert_eq!(ab_c.get_ring(), a_bc.get_ring());
}

#[test]
fn test_multiply_ntts_zero() {
    let bytes = seed_bytes();
    let a = NttElement::new(&RingElement::sample_poly_cbd::<2>(&bytes, 0xAA));
    let zero = NttElement::zero();
    let res = zero.multiply_ntts(&a);
    assert_eq!(res.get_ring(), [F::zero(); 256]);
    let res = a.multiply_ntts(&zero);
    assert_eq!(res.get_ring(), [F::zero(); 256]);
}

#[test]
fn test_closure_under_multiplication() {
    for _ in 0..1000 {
        let bytes = seed_bytes();
        let a = NttElement::new(&RingElement::sample_poly_cbd::<2>(&bytes, 0xAA));
        let b = NttElement::new(&RingElement::sample_poly_cbd::<2>(&bytes, 0xBB));
        let result = a.multiply_ntts(&b);
        assert!(
            result.get_ring().iter().all(|x| x.val() < 3329),
            "Result of multiplication must be valid NttElement"
        );
    }
}

/// Schoolbook product in Z_q[X] / (X^256 + 1).
fn schoolbook(a: &[F; 256], b: &[F; 256]) -> [F; 256] {
    let mut acc = [0i64; 256];
    for i in 0..256 {
        for j in 0..256 {
            let p = a[i].val() as i64 * b[j].val() as i64;
            if i + j < 256 {
                acc[i + j] += p;
            } else {
                acc[i + j - 256] -= p;
            }
        }
    }
    acc.map(|x| F(x.rem_euclid(3329) as u16))
}

#[test]
fn ntt_turns_schoolbook_product_into_base_case_product() {
    let bytes = seed_bytes();
    let f = RingElement::sample_poly_cbd::<3>(&bytes, 1);
    let g = RingElement::sample_poly_cbd::<2>(&bytes, 2);
    let fg = RingElement::new(schoolbook(&f.coefs, &g.coefs));
    let lhs = NttElement::new(&fg);
    let rhs = NttElement::new(&f).multiply_ntts(&NttElement::new(&g));
    assert_eq!(lhs.get_ring(), rhs.get_ring());
}

#[test]
fn ntt_of_constant_one_is_all_ones_pairs() {
    let mut one = [F::zero(); 256];
    one[0] = F(1);
    let e = NttElement::new(&RingElement::new(one));
    for i in 0..128 {
        assert_eq!(e.get_ring()[2 * i].val(), 1);
        assert_eq!(e.get_ring()[2 * i + 1].val(), 0);
    }
}

#[test]
fn ntt_elements_add_pointwise() {
    let a = NttElement::sample_ntt(&[1u8; 32], 0, 0).unwrap();
    let b = NttElement::sample_ntt(&[1u8; 32], 0, 1).unwrap();
    let s = a.add(&b);
    for i in 0..256 {
        assert_eq!(s.get_ring()[i].val(), (a.get_ring()[i].val() + b.get_ring()[i].val()) % 3329);
    }
}

#[test]
fn byte_encode_12_then_decode_12_round_trips() {
    let a = NttElement::sample_ntt(&[9u8; 32], 2, 3).unwrap();
    let bytes = a.byte_encode_12(vec![0xAB]);
    assert_eq!(bytes.len(), 385);
    assert_eq!(bytes[0], 0xAB);
    let back = NttElement::byte_decode_12(&bytes[1..]).unwrap();
    assert_eq!(back.get_ring(), a.get_ring());
}

#[test]
fn byte_decode_12_rejects_out_of_range_and_bad_length() {
    let mut bytes = vec![0u8; 384];
    bytes[0] = 0xFF;
    bytes[1] = 0x0F;
    assert!(NttElement::byte_decode_12(&bytes).is_err());
    assert!(NttElement::byte_decode_12(&[0u8; 383]).is_err());
    bytes[0] = 0x00;
    bytes[1] = 0x0D;
    let ok = NttElement::byte_decode_12(&bytes).unwrap();
    assert_eq!(ok.get_ring()[0].val(), 3328);
}

#[test]
fn encode_decode_round_trip_every_width() {
    let bytes = seed_bytes();
    let poly = RingElement::sample_poly_cbd::<3>(&bytes, 4);
    for d in [1usize, 4, 5, 10, 11, 12] {
        let mut c = [F::zero(); 256];
        for i in 0..256 {
            let v = (poly.coefs[i].val() as u32 * 7 + i as u32 * 13) % (1u32 << d);
            c[i] = F((v % 3329) as u16);
        }
        let enc = byte_encode(d, &c);
        assert_eq!(enc.len(), 32 * d);
        let dec = byte_decode(d, &enc);
        assert_eq!(dec, c, "width {d}");
    }
}

#[test]
fn byte_encode_packs_least_significant_bit_first() {
    let mut c = [F::zero(); 256];
    c[0] = F(1);
    c[1] = F(0x3FF);
    let enc = byte_encode(10, &c);
    assert_eq!(enc[0], 0x01);
    assert_eq!(enc[1], 0xFC);
    assert_eq!(enc[2], 0x0F);
    let one = byte_encode(1, &[F(1); 256]);
    assert!(one.iter().all(|&b| b == 0xFF));
}

#[test]
fn byte_decode_12_reduces_modulo_q() {
    let bytes = vec![0xFFu8; 384];
    let dec = byte_decode(12, &bytes);
    assert!(dec.iter().all(|x| x.val() == 4095 % 3329));
}

#[test]
fn ring_compress_then_decompress() {
    let mut p = RingElement::new([F(1665); 256]);
    p.compress(1);
    assert!(p.coefs.iter().all(|x| x.val() == 1));
    p.decompress(1);
    assert!(p.coefs.iter().all(|x| x.val() == 1665));
}

#[test]
fn encode_and_compress_traits() {
    let bytes = seed_bytes();
    let poly = RingElement::sample_poly_cbd::<2>(&bytes, 9);
    let enc = Encode::encode(&poly, 12);
    assert_eq!(enc.len(), 384);
    let back: RingElement = Encode::decode(12, &enc);
    assert_eq!(back.coefs, poly.coefs);
    let mut e = NttElement::new(&poly);
    let before = e;
    Compress::compress(&mut e, 11);
    assert!(e.get_ring().iter().all(|x| x.val() < 2048));
    Compress::decompress(&mut e, 11);
    for i in 0..256 {
        let a = before.get_ring()[i].val() as i32;
        let b = e.get_ring()[i].val() as i32;
        let diff = (a - b).rem_euclid(3329).min((b - a).rem_euclid(3329));
        assert!(diff <= 1, "{a} vs {b}");
    }
}
