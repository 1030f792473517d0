use zec_wallet::wallet::WalletCore;

fn wallet() -> WalletCore {
    WalletCore::from_seed([7u8; 32]).expect("seed derives")
}

#[test]
fn from_seed_keeps_seed_and_starts_empty() {
    let w = wallet();
    assert_eq!(w.seed(), &[7u8; 32]);
    assert!(w.addresses().is_empty());
    assert_eq!(w.total_balance_zatoshis(), 0);
}

#[test]
fn default_address_is_mainnet_unified_and_deterministic() {
    let a = wallet().default_address().unwrap();
    let b = wallet().default_address().unwrap();
    assert!(a.starts_with("u1"), "{a}");
    assert_eq!(a, b);
    let other = WalletCore::from_seed([8u8; 32]).unwrap().default_address().unwrap();
    assert_ne!(a, other);
}

#[test]
fn default_address_depends_on_seed_only_and_decodes() {
    let mut w = wallet();
    w.add_address("a".to_string(), "x".to_string());
    w.set_address_balance(0, 5).unwrap();
    let a = w.default_address().unwrap();
    assert_eq!(a, wallet().default_address().unwrap());
    let parsed = zcash_address::ZcashAddress::try_from_encoded(&a).unwrap();
    assert!(parsed.can_receive_as(zcash_protocol::PoolType::ORCHARD));
}

#[test]
fn generate_gives_fresh_seeds() {
    let a = WalletCore::generate().unwrap();
    let b = WalletCore::generate().unwrap();
    assert_ne!(a.seed(), b.seed());
    assert!(a.addresses().is_empty());
}

#[test]
fn add_address_assigns_positional_ids() {
    let mut w = wallet();
    assert_eq!(w.add_address("a".to_string(), "addr-a".to_string()), 0);
    assert_eq!(w.add_address("b".to_string(), "addr-b".to_string()), 1);
    let book = w.addresses();
    assert_eq!(book.len(), 2);
    assert_eq!(book[1].id, 1);
    assert_eq!(book[1].alias, "b");
    assert_eq!(book[1].address, "addr-b");
    assert_eq!(book[1].balance_zatoshis, 0);
}

#[test]
fn set_address_balance_updates_entry() {
    let mut w = wallet();
    w.add_address("a".to_string(), "addr-a".to_string());
    w.add_address("b".to_string(), "addr-b".to_string());
    assert_eq!(w.set_address_balance(1, 500), Ok(()));
    assert_eq!(w.addresses()[1].balance_zatoshis, 500);
    assert_eq!(w.addresses()[0].balance_zatoshis, 0);
    assert_eq!(w.total_balance_zatoshis(), 500);
}

#[test]
fn set_address_balance_unknown_id() {
    let mut w = wallet();
    w.add_address("a".to_string(), "addr-a".to_string());
    assert_eq!(w.set_address_balance(5, 1), Err("Address 5 not found".to_string()));
    assert_eq!(w.addresses()[0].balance_zatoshis, 0);
}

#[test]
fn checked_total_detects_overflow() {
    let mut w = wallet();
    w.add_address("a".to_string(), "x".to_string());
    w.add_address("b".to_string(), "y".to_string());
    w.set_address_balance(0, u64::MAX).unwrap();
    w.set_address_balance(1, 1).unwrap();
    assert_eq!(w.checked_total_balance_zatoshis(), None);
    w.set_address_balance(1, 0).unwrap();
    assert_eq!(w.checked_total_balance_zatoshis(), Some(u64::MAX));
}

#[test]
fn law_add_address_keeps_total_concrete() {
    let mut w = wallet();
    w.add_address("a".to_string(), "x".to_string());
    w.set_address_balance(0, 250).unwrap();
    w.add_address("b".to_string(), "y".to_string());
    assert_eq!(w.total_balance_zatoshis(), 250);
}

#[test]
fn law_set_balance_moves_total_concrete() {
    let mut w = wallet();
    w.add_address("a".to_string(), "x".to_string());
    w.add_address("b".to_string(), "y".to_string());
    w.set_address_balance(0, 100).unwrap();
    w.set_address_balance(1, 40).unwrap();
    w.set_address_balance(0, 30).unwrap();
    assert_eq!(w.total_balance_zatoshis(), 70);
}

#[test]
fn law_added_address_is_addressable_concrete() {
    let mut w = wallet();
    w.add_address("a".to_string(), "x".to_string());
    let id = w.add_address("b".to_string(), "y".to_string());
    w.set_address_balance(id, 77).unwrap();
    assert_eq!(w.addresses()[id as usize].balance_zatoshis, 77);
    assert_eq!(w.addresses()[id as usize].alias, "b");
}
