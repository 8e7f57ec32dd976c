use num_bigint_dig::BigUint;
use signature_gen::barrett::compute_barrett;

fn outside_parameter(modulus: &[u8]) -> Vec<u8> {
    noir_bignum_paramgen::compute_barrett_reduction_parameter(&BigUint::from_bytes_be(modulus))
        .to_bytes_be()
}

#[test]
fn the_parameter_of_a_small_modulus() {
    // 3 has two bits: 2^(2 * 2 + 4) / 3 = 85
    assert_eq!(compute_barrett(&[3]), Some(vec![85]));
    // 1 has one bit: 2^6 / 1 = 64
    assert_eq!(compute_barrett(&[1]), Some(vec![64]));
    // 255 has eight bits: 2^20 / 255 = 4112
    assert_eq!(compute_barrett(&[255]), Some(vec![0x10, 0x10]));
    // 256 has nine bits: 2^22 / 256 = 16384
    assert_eq!(compute_barrett(&[1, 0]), Some(vec![0x40, 0x00]));
    // 0xc5a3f1 has 24 bits: 2^52 / 0xc5a3f1 = 0x14b9795d
    assert_eq!(compute_barrett(&[0xc5, 0xa3, 0xf1]), Some(vec![0x14, 0xb9, 0x79, 0x5d]));
}

#[test]
fn the_parameter_of_zero_is_none() {
    assert_eq!(compute_barrett(&[]), None);
    assert_eq!(compute_barrett(&[0, 0]), None);
}

#[test]
fn the_parameter_does_not_depend_on_leading_zeros() {
    assert_eq!(compute_barrett(&[0, 0, 3]), Some(vec![85]));
}

#[test]
fn the_parameter_agrees_with_the_parameter_crate() {
    for len in [1usize, 2, 16, 64, 128, 256] {
        let mut modulus = Vec::new();
        for i in 0..len {
            modulus.push((i * 29 + 201) as u8 | 1);
        }
        assert_eq!(compute_barrett(&modulus), Some(outside_parameter(&modulus)));
    }
}

#[test]
fn different_moduli_have_different_parameters() {
    let mut seen: Vec<Vec<u8>> = Vec::new();
    for modulus in 1u16..=2000 {
        let parameter = compute_barrett(&modulus.to_be_bytes()).unwrap();
        assert!(!seen.contains(&parameter), "modulus {}", modulus);
        seen.push(parameter);
    }
}

#[test]
fn the_parameter_of_a_full_modulus_has_five_bits_more() {
    let parameter = compute_barrett(&[0xff; 128]).unwrap();
    // 2^1028 < parameter <= 2^1029
    assert_eq!(parameter.len(), 129);
    assert_eq!(parameter[0], 0x10);
    let parameter = compute_barrett(&[0xff; 256]).unwrap();
    assert_eq!(parameter.len(), 257);
    assert_eq!(parameter[0], 0x10);
}
