use godwoken::h256::H256;
use godwoken::mem_state::MemState;
use godwoken::state::{Error, State};

fn hash(byte: u8) -> H256 {
    H256::from_bytes([byte; 32])
}

#[test]
fn new_state_is_empty() {
    let s = MemState::new();
    assert_eq!(s.get_account_count().unwrap(), 0);
    assert!(s.calculate_root().unwrap().is_zero());
    assert!(s.get_raw(&hash(1)).unwrap().is_zero());
}

#[test]
fn raw_write_then_read() {
    let mut s = MemState::new();
    s.update_raw(hash(1), hash(2)).unwrap();
    assert_eq!(s.get_raw(&hash(1)).unwrap().to_bytes(), [2u8; 32]);
    assert!(s.get_raw(&hash(3)).unwrap().is_zero());
    s.update_raw(hash(1), H256::zero()).unwrap();
    assert!(s.get_raw(&hash(1)).unwrap().is_zero());
}

#[test]
fn value_write_then_read() {
    let mut s = MemState::new();
    let key = H256::from_u32(42);
    s.update_value(5, &key, H256::from_u128(1000)).unwrap();
    assert_eq!(s.get_value(5, &key).unwrap().to_u128(), 1000);
    assert!(s.get_value(6, &key).unwrap().is_zero());
}

#[test]
fn create_account_records_the_account() {
    let mut s = MemState::new();
    let first = s.create_account(hash(0x11)).unwrap();
    let second = s.create_account(hash(0x22)).unwrap();
    assert_eq!(first, 0);
    assert_eq!(second, 1);
    assert_eq!(s.get_account_count().unwrap(), 2);
    assert_eq!(s.get_script_hash(0).unwrap().to_bytes(), [0x11; 32]);
    assert_eq!(s.get_script_hash(1).unwrap().to_bytes(), [0x22; 32]);
    assert_eq!(s.get_nonce(0).unwrap(), 0);
    assert_eq!(s.get_nonce(1).unwrap(), 0);
    assert_eq!(s.get_account_id_by_script_hash(&hash(0x22)).unwrap(), Some(1));
    assert_eq!(s.get_account_id_by_script_hash(&hash(0x33)).unwrap(), None);
}

#[test]
fn account_zero_is_not_found_by_script_hash() {
    let mut s = MemState::new();
    let id = s.create_account(hash(0x11)).unwrap();
    assert_eq!(id, 0);
    assert_eq!(s.get_account_id_by_script_hash(&hash(0x11)).unwrap(), None);
}

#[test]
fn mint_and_burn_move_the_balance() {
    let mut s = MemState::new();
    s.mint_sudt(1, 7, 500).unwrap();
    assert_eq!(s.get_sudt_balance(1, 7).unwrap(), 500);
    s.mint_sudt(1, 7, 250).unwrap();
    assert_eq!(s.get_sudt_balance(1, 7).unwrap(), 750);
    s.burn_sudt(1, 7, 700).unwrap();
    assert_eq!(s.get_sudt_balance(1, 7).unwrap(), 50);
    assert_eq!(s.get_sudt_balance(1, 8).unwrap(), 0);
    assert_eq!(s.get_sudt_balance(2, 7).unwrap(), 0);
}

#[test]
fn mint_then_burn_restores_the_root() {
    let mut s = MemState::new();
    s.mint_sudt(1, 7, 500).unwrap();
    let root = s.calculate_root().unwrap();
    s.mint_sudt(1, 7, 123).unwrap();
    s.burn_sudt(1, 7, 123).unwrap();
    assert_eq!(s.get_sudt_balance(1, 7).unwrap(), 500);
    assert!(s.calculate_root().unwrap().same_as(&root));
}

#[test]
fn mint_overflow_is_refused() {
    let mut s = MemState::new();
    s.mint_sudt(1, 7, u128::MAX).unwrap();
    let root = s.calculate_root().unwrap();
    assert_eq!(s.mint_sudt(1, 7, 1), Err(Error::AmountOverflow));
    assert_eq!(s.get_sudt_balance(1, 7).unwrap(), u128::MAX);
    assert!(s.calculate_root().unwrap().same_as(&root));
}

#[test]
fn burn_beyond_balance_is_refused() {
    let mut s = MemState::new();
    s.mint_sudt(3, 4, 10).unwrap();
    assert_eq!(s.burn_sudt(3, 4, 11), Err(Error::AmountOverflow));
    assert_eq!(s.get_sudt_balance(3, 4).unwrap(), 10);
    s.burn_sudt(3, 4, 10).unwrap();
    assert_eq!(s.get_sudt_balance(3, 4).unwrap(), 0);
}

#[test]
fn burning_everything_empties_the_tree() {
    let mut s = MemState::new();
    s.mint_sudt(3, 4, 10).unwrap();
    assert!(!s.calculate_root().unwrap().is_zero());
    s.burn_sudt(3, 4, 10).unwrap();
    assert!(s.calculate_root().unwrap().is_zero());
}

#[test]
fn stored_data_hash_is_found() {
    let mut s = MemState::new();
    assert!(!s.get_data_hash(&hash(9)).unwrap());
    s.store_data_hash(hash(9)).unwrap();
    assert!(s.get_data_hash(&hash(9)).unwrap());
    assert!(!s.get_data_hash(&hash(8)).unwrap());
}

#[test]
fn root_does_not_depend_on_write_order() {
    let mut a = MemState::new();
    let mut b = MemState::new();
    a.update_raw(hash(1), hash(10)).unwrap();
    a.update_raw(hash(2), hash(20)).unwrap();
    b.update_raw(hash(2), hash(20)).unwrap();
    b.update_raw(hash(1), hash(10)).unwrap();
    assert!(a.calculate_root().unwrap().same_as(&b.calculate_root().unwrap()));
    assert!(!a.calculate_root().unwrap().is_zero());
}

#[test]
fn account_count_can_be_set() {
    let mut s = MemState::new();
    s.set_account_count(41).unwrap();
    assert_eq!(s.create_account(hash(5)).unwrap(), 41);
    assert_eq!(s.get_account_count().unwrap(), 42);
    assert_eq!(s.get_account_id_by_script_hash(&hash(5)).unwrap(), Some(41));
}
