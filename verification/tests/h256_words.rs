use godwoken::h256::H256;

fn word(prefix: &[u8]) -> [u8; 32] {
    let mut w = [0u8; 32];
    w[..prefix.len()].copy_from_slice(prefix);
    w
}

#[test]
fn zero_word_is_zero() {
    let z = H256::zero();
    assert_eq!(z.to_bytes(), [0u8; 32]);
    assert!(z.is_zero());
    assert!(!H256::one().is_zero());
}

#[test]
fn one_holds_one_in_first_byte() {
    assert_eq!(H256::one().to_bytes(), word(&[1]));
}

#[test]
fn u32_is_stored_little_endian() {
    let w = H256::from_u32(0x0102_0304);
    assert_eq!(w.to_bytes(), word(&[4, 3, 2, 1]));
    assert_eq!(w.to_u32(), 0x0102_0304);
    assert_eq!(H256::from_u32(u32::MAX).to_u32(), u32::MAX);
}

#[test]
fn u128_is_stored_little_endian() {
    let n: u128 = 0x0102_0304_0506_0708_090a_0b0c_0d0e_0f10;
    let w = H256::from_u128(n);
    assert_eq!(
        w.to_bytes(),
        word(&[0x10, 0x0f, 0x0e, 0x0d, 0x0c, 0x0b, 0x0a, 9, 8, 7, 6, 5, 4, 3, 2, 1])
    );
    assert_eq!(w.to_u128(), n);
    assert_eq!(H256::from_u128(u128::MAX).to_u128(), u128::MAX);
}

#[test]
fn reading_numbers_ignores_the_upper_bytes() {
    let mut bytes = [0xffu8; 32];
    bytes[..4].copy_from_slice(&[5, 0, 0, 0]);
    bytes[4..16].copy_from_slice(&[0; 12]);
    let w = H256::from_bytes(bytes);
    assert_eq!(w.to_u32(), 5);
    assert_eq!(w.to_u128(), 5);
}

#[test]
fn words_compare_by_bytes() {
    let a = H256::from_u32(9);
    let b = H256::from_bytes(word(&[9]));
    assert!(a.same_as(&b));
    assert!(!a.same_as(&H256::from_u32(10)));
    assert_eq!(a.as_slice(), &word(&[9])[..]);
}
