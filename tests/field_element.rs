use capy_kem::constants::Q as q;
use capy_kem::field_element::FieldElement;
use capy_kem::math::field_element::FieldElement as F;

#[test]
fn test_addition_within_bounds() {
    let a = FieldElement::new(1000);
    let b = FieldElement::new(1000);
    let result = a.add(b);
    assert_eq!(result.val, 2000 % q);
}

#[test]
fn test_addition_overflow() {
    let a = FieldElement::new(q);
    let b = FieldElement::new(1);
    let result = a.add(b);
    assert_eq!(result.val, (q + 1) % q);
}

#[test]
fn test_subtraction_within_bounds() {
    let a = FieldElement::new(2000);
    let b = FieldElement::new(1000);
    let result = a.sub(b);
    assert_eq!(result.val, ((2000 + q) - 1000) % q);
}

#[test]
fn test_subtraction_underflow() {
    let a = FieldElement::new(0);
    let b = FieldElement::new(1);
    let result = a.sub(b);
    assert_eq!(result.val, (q - 1) % q);
}

#[test]
fn test_check_reduced_ok() {
    assert!(FieldElement::new(q - 1).check_reduced().is_ok());
}

#[test]
fn test_check_reduced_err() {
    assert!(FieldElement::new(q + 1).check_reduced().is_err());
}

#[test]
fn reduce_large_value() {
    let large_val = q as u32 * 2;
    let element = FieldElement::new(large_val as u16);
    let reduced = element.barrett_reduce();
    assert!(reduced.val < q);
}

#[test]
fn reduce_value_just_over_q() {
    let just_over_q = q as u32 + 1;
    let element = FieldElement::new(just_over_q as u16);
    let reduced = element.barrett_reduce();
    assert_eq!(reduced.val, just_over_q as u16 % q);
}

#[test]
fn reduce_value_under_q() {
    let under_q = q as u32 - 1;
    let element = FieldElement::new(under_q as u16);
    let reduced = element.barrett_reduce();
    assert_eq!(reduced.val, under_q as u16);
}

#[test]
fn reduce_exact_multiple_of_q() {
    let multiple_q = q as u32 * 3;
    let element = FieldElement::new(multiple_q as u16);
    let reduced = element.barrett_reduce();
    assert_eq!(reduced.val, (multiple_q % q as u32) as u16);
}

#[test]
fn test_compress() {
    let d = 10;
    let test_cases = vec![(0, 0), (1664, 512), (3328, 0)];
    for (val, expected) in test_cases {
        let fe = FieldElement { val };
        let compressed = fe.compress(d);
        assert_eq!(compressed, expected, "Compression of {} failed", val);
    }
}

#[test]
fn test_decompress() {
    let d = 10;
    let test_cases = vec![(0, 0), (1664, 5410), (3328, 10819)];
    for (val, expected) in test_cases {
        let fe = FieldElement { val };
        let compressed = fe.decompress(d);
        assert_eq!(compressed, expected, "Compression of {} failed", val);
    }
}

#[test]
fn test_compress_with_mask() {
    let fe = FieldElement { val: 12345 };
    let compressed = fe.compress(10);
    assert!(compressed < 1024, "Compressed value should be within the mask limit");
}

#[test]
fn test_decompress_then_compress() {
    let d = 10;
    let original_values = vec![0, 1, 1023];
    for &original in &original_values {
        let fe = FieldElement::new(original);
        let decompressed = fe.decompress(d);
        let decompressed_fe = FieldElement::new(decompressed);
        let compressed = decompressed_fe.compress(d);
        assert_eq!(
            compressed, original,
            "Original value: {}, Decompressed then Compressed value: {}",
            original, compressed
        );
    }
}

#[test]
fn exhaustive_test_reduce_once() {
    for i in q + 1..=2 * q {
        let element = F::new(i);
        assert!(
            element.val() <= q,
            "Value should be reduced within [0, Q] range for input: {i}, but got: {}",
            element.val()
        );
    }
}

#[test]
fn exhaustive_test_addition() {
    for i in 0..3329 {
        for j in 0..3329 {
            let a = F::new(i);
            let b = F::new(j);
            let result = a.add(b);
            assert_eq!(result.val(), (i + j) % 3329);
        }
    }
}

#[test]
fn exhaustive_test_subtraction() {
    for i in 0..3329 {
        for j in 0..3329 {
            let a = F::new(i);
            let b = F::new(j);
            let result = a.sub(b);
            let expected = (i as isize - j as isize + 3329_isize) % 3329;
            assert_eq!(result.val(), expected as u16, "Failed at i = {i} and j = {j}");
        }
    }
}

#[test]
fn exhaustive_test_multiplication() {
    for i in 0..3329 {
        for j in 0..3329 {
            let a = F::new(i);
            let b = j;
            let result = a.mul_u16(b);
            let expected = (i as u32 * j as u32) % 3329;
            assert_eq!(result.val(), expected as u16, "Failed at i = {i} and j = {j}");
        }
    }
}

#[test]
fn test_multiplication_with_potential_overflow() {
    let a = F::new(3000);
    let b = 3000;
    let result = a.mul_u16(b);
    let expected = (3000u32 * 3000u32) % 3329u32;
    assert_eq!(
        result.val(),
        expected as u16,
        "Multiplication resulted in overflow or incorrect handling"
    );
}

#[test]
fn field_element_test_check_reduced_ok() {
    assert!(F::new(q - 1).check_reduced().is_ok());
}

#[test]
fn field_element_test_check_reduced_err() {
    assert!(F(q + 1).check_reduced().is_err());
}

#[test]
fn field_element_test_compress() {
    let test_cases = vec![(0, 0), (1664, 512), (3328, 0)];
    for (val, expected) in test_cases {
        let fe = F(val);
        let compressed = fe.compress::<10>();
        assert_eq!(compressed, expected, "Compression of {} failed", val);
    }
}

#[test]
fn field_element_test_decompress() {
    let test_cases = vec![(0, 0), (1664, 18536), (3328, 37072)];
    for (val, expected) in test_cases {
        let compressed = F::decompress::<4>(val);
        assert_eq!(compressed.val(), expected, "Compression of {} failed", val);
    }
}

#[test]
fn field_element_test_compress_with_mask() {
    let fe = F(12345);
    let compressed = fe.compress::<10>();
    assert!(compressed < 1024, "Compressed value should be within the mask limit");
}

#[test]
fn field_negation_gives_additive_inverse() {
    for i in 0..3329u16 {
        let a = F::new(i);
        assert_eq!(a.add(a.neg()).val(), 0);
    }
}

#[test]
fn barrett_reduce_matches_remainder() {
    for p in [0u32, 1, 3328, 3329, 3330, 6657, 6658, 3328 * 3328, 16_777_215] {
        assert_eq!(F::barrett_reduce(p).val() as u32, p % 3329);
    }
}

#[test]
fn compress_and_decompress_exact_values() {
    assert_eq!(F(1665).compress::<1>(), 1);
    assert_eq!(F(832).compress::<1>(), 0);
    assert_eq!(F(833).compress::<1>(), 1);
    assert_eq!(F(2496).compress::<1>(), 1);
    assert_eq!(F(2497).compress::<1>(), 0);
    assert_eq!(F::decompress::<1>(1).val(), 1665);
    assert_eq!(F::decompress::<11>(2047).val(), 3327);
    assert_eq!(F(3328).compress::<11>(), 2047);
    assert_eq!(F(3328).compress::<10>(), 0);
}

#[test]
fn decompress_then_compress_is_identity_for_every_width() {
    for d in [1u16, 4, 5, 10, 11] {
        for y in 0..(1u16 << d) {
            let x = match d {
                1 => F::decompress::<1>(y),
                4 => F::decompress::<4>(y),
                5 => F::decompress::<5>(y),
                10 => F::decompress::<10>(y),
                _ => F::decompress::<11>(y),
            };
            assert!(x.val() < q);
            let back = match d {
                1 => x.compress::<1>(),
                4 => x.compress::<4>(),
                5 => x.compress::<5>(),
                10 => x.compress::<10>(),
                _ => x.compress::<11>(),
            };
            assert_eq!(back, y, "d = {d}, y = {y}");
        }
    }
}
