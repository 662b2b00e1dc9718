use wire_messages::units::{Address, Slot};
use wire_messages::wallet::{contains_address, PrivateKey, Wallet};

fn key(fill: u8) -> PrivateKey {
    PrivateKey { bytes: [fill; 32] }
}

fn address(fill: u8) -> Address {
    Address { bytes: [fill; 32] }
}

#[test]
fn wallet_keeps_its_keys_and_path() {
    let wallet = Wallet::new(vec![key(1), key(2)], String::from("wallet.dat"));
    assert_eq!(wallet.keys(), &vec![key(1), key(2)]);
    assert_eq!(wallet.wallet_path(), "wallet.dat");
}

#[test]
fn add_private_key_adds_a_missing_key_once() {
    let mut wallet = Wallet::new(Vec::new(), String::new());
    assert!(wallet.add_private_key(key(1)));
    assert!(wallet.add_private_key(key(2)));
    assert!(!wallet.add_private_key(key(1)));
    assert!(!wallet.add_private_key(key(2)));
    assert_eq!(wallet.keys(), &vec![key(1), key(2)]);
}

#[test]
fn find_associated_private_key_gives_the_first_match() {
    let wallet = Wallet::new(vec![key(1), key(2), key(3), key(4)], String::new());
    let addresses = vec![Some(address(10)), None, Some(address(30)), Some(address(30))];
    assert_eq!(wallet.find_associated_private_key(&addresses, address(10)), Some(&key(1)));
    assert_eq!(wallet.find_associated_private_key(&addresses, address(30)), Some(&key(3)));
    assert_eq!(wallet.find_associated_private_key(&addresses, address(20)), None);
}

#[test]
fn find_associated_private_key_looks_only_at_keys_with_an_address() {
    let wallet = Wallet::new(vec![key(1), key(2)], String::new());
    let short = vec![Some(address(10))];
    assert_eq!(wallet.find_associated_private_key(&short, address(10)), Some(&key(1)));
    let long = vec![None, None, Some(address(30))];
    assert_eq!(wallet.find_associated_private_key(&long, address(30)), None);
    assert_eq!(wallet.find_associated_private_key(&Vec::new(), address(10)), None);
}

#[test]
fn address_list_holds_each_address_once() {
    let addresses = vec![address(3), address(1), address(3), address(2), address(1)];
    assert_eq!(
        Wallet::get_wallet_address_list(&addresses),
        vec![address(3), address(1), address(2)]
    );
    assert_eq!(Wallet::get_wallet_address_list(&Vec::new()), Vec::new());
    assert!(contains_address(&addresses, &address(2)));
    assert!(!contains_address(&addresses, &address(4)));
}

#[test]
fn expire_period_counts_from_the_latest_slot() {
    // the thread of the slot is before the thread of the sender
    assert_eq!(Wallet::expire_period(Some(Slot::new(100, 1)), 2, 10), Some(110));
    // the thread of the slot is the thread of the sender, or after it
    assert_eq!(Wallet::expire_period(Some(Slot::new(100, 2)), 2, 10), Some(111));
    assert_eq!(Wallet::expire_period(Some(Slot::new(100, 3)), 2, 10), Some(111));
}

#[test]
fn expire_period_without_a_slot_counts_from_the_first() {
    assert_eq!(Wallet::expire_period(None, 0, 10), Some(11));
    assert_eq!(Wallet::expire_period(None, 1, 10), Some(10));
}

#[test]
fn expire_period_above_64_bits_is_none() {
    assert_eq!(Wallet::expire_period(Some(Slot::new(u64::MAX, 0)), 1, 0), Some(u64::MAX));
    assert_eq!(Wallet::expire_period(Some(Slot::new(u64::MAX, 1)), 1, 0), None);
    assert_eq!(Wallet::expire_period(Some(Slot::new(u64::MAX, 0)), 1, 1), None);
    assert_eq!(Wallet::expire_period(Some(Slot::new(1, 0)), 1, u64::MAX), None);
}
