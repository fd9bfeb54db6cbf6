use godwoken::h256::H256;
use godwoken::state::{
    build_account_field_key, build_account_key, build_data_hash_key,
    build_script_hash_to_account_id_key, GW_ACCOUNT_NONCE, GW_ACCOUNT_SCRIPT_HASH,
};

#[test]
fn field_key_is_id_then_tag_then_zeros() {
    let mut expected = [0u8; 32];
    expected[..4].copy_from_slice(&0x0a0b_0c0du32.to_le_bytes());
    expected[4] = GW_ACCOUNT_NONCE;
    assert_eq!(build_account_field_key(0x0a0b_0c0d, GW_ACCOUNT_NONCE).to_bytes(), expected);
    expected[4] = GW_ACCOUNT_SCRIPT_HASH;
    assert_eq!(build_account_field_key(0x0a0b_0c0d, GW_ACCOUNT_SCRIPT_HASH).to_bytes(), expected);
}

#[test]
fn field_keys_of_different_fields_differ() {
    let a = build_account_field_key(3, GW_ACCOUNT_NONCE);
    let b = build_account_field_key(3, GW_ACCOUNT_SCRIPT_HASH);
    let c = build_account_field_key(4, GW_ACCOUNT_NONCE);
    assert!(!a.same_as(&b));
    assert!(!a.same_as(&c));
}

#[test]
fn account_key_is_personalized_blake2b_of_id_tag_and_key() {
    let expected: [u8; 32] = [
        225, 6, 218, 88, 102, 26, 56, 148, 226, 250, 71, 105, 236, 86, 226, 138, 207, 45, 75,
        42, 70, 63, 204, 156, 162, 109, 182, 202, 183, 110, 32, 62,
    ];
    assert_eq!(build_account_key(7, &[1, 2, 3]).to_bytes(), expected);
}

#[test]
fn script_hash_key_is_hash_of_prefix_and_script_hash() {
    let expected: [u8; 32] = [
        165, 153, 71, 231, 37, 201, 82, 189, 47, 245, 137, 111, 95, 225, 38, 88, 251, 19, 186,
        94, 57, 246, 189, 91, 186, 126, 113, 55, 127, 115, 60, 235,
    ];
    assert_eq!(build_script_hash_to_account_id_key(&[0xab; 32]).to_bytes(), expected);
}

#[test]
fn data_hash_key_is_hash_of_prefix_and_data_hash() {
    let expected: [u8; 32] = [
        61, 173, 26, 162, 87, 152, 247, 74, 2, 28, 228, 210, 81, 152, 180, 135, 105, 177, 106,
        125, 56, 173, 238, 172, 176, 0, 179, 35, 182, 231, 147, 242,
    ];
    assert_eq!(build_data_hash_key(&[0xcd; 32]).to_bytes(), expected);
}

#[test]
fn account_keys_of_different_entries_differ() {
    let k = H256::from_u32(1);
    let a = build_account_key(1, k.as_slice());
    let b = build_account_key(2, k.as_slice());
    let c = build_account_key(1, H256::from_u32(2).as_slice());
    assert!(!a.same_as(&b));
    assert!(!a.same_as(&c));
}
