use bip39::{Language, Mnemonic};
use zcash_keys::keys::UnifiedSpendingKey;
use zcash_protocol::consensus::Network;
use zec_wallet::network::birthday_tree_height;
use zip32::AccountId;
use zec_wallet::send::{
    broadcast_verdict, first_account, parse_recipient, spending_key_from_recovery_phrase,
    transaction_request, zatoshis_from_raw, MAX_MONEY_ZATOSHIS,
};
use zec_wallet::wallet::WalletCore;

const PHRASE: &str = "abandon abandon abandon abandon abandon abandon abandon abandon abandon abandon abandon abandon abandon abandon abandon abandon abandon abandon abandon abandon abandon abandon abandon art";

#[test]
fn recovery_phrase_gives_key() {
    assert!(spending_key_from_recovery_phrase(PHRASE).is_ok());
    let padded = format!("  {PHRASE}\n");
    assert!(spending_key_from_recovery_phrase(&padded).is_ok());
}

#[test]
fn invalid_recovery_phrase_is_refused() {
    let err = spending_key_from_recovery_phrase("not a mnemonic").err().unwrap();
    assert!(err.starts_with("Invalid wallet recovery phrase: "), "{err}");
    assert!(err.len() > "Invalid wallet recovery phrase: ".len());
}

#[test]
fn raw_amounts_within_money_range() {
    assert!(zatoshis_from_raw(1).is_ok());
    assert!(zatoshis_from_raw(MAX_MONEY_ZATOSHIS).is_ok());
    assert_eq!(
        zatoshis_from_raw(MAX_MONEY_ZATOSHIS + 1).err().unwrap(),
        "Amount is outside the valid Zcash monetary range."
    );
}

#[test]
fn recipient_parses_after_trimming() {
    let address = WalletCore::from_seed([7u8; 32]).unwrap().default_address().unwrap();
    assert!(parse_recipient(&format!("  {address} \t")).is_ok());
}

#[test]
fn invalid_recipient_is_refused() {
    let err = parse_recipient("  nonsense  ").err().unwrap();
    assert!(err.starts_with("Invalid Zcash recipient address: "), "{err}");
}

#[test]
fn transaction_request_for_valid_payment() {
    let address = WalletCore::from_seed([9u8; 32]).unwrap().default_address().unwrap();
    let recipient = parse_recipient(&address).unwrap();
    let expected_address = recipient.address().clone();
    let amount = zatoshis_from_raw(150_000).unwrap();
    let zatoshis = amount.zatoshis();
    let request = transaction_request(recipient, amount).unwrap();
    let payments = request.request().payments();
    assert_eq!(payments.len(), 1);
    let payment = payments.values().next().unwrap();
    assert_eq!(payment.recipient_address(), &expected_address);
    assert_eq!(payment.amount(), Some(zatoshis));
    assert!(payment.memo().is_none());
}

#[test]
fn raw_amount_keeps_its_value() {
    let one_zec = zatoshis_from_raw(100_000_000).unwrap();
    assert_eq!(one_zec.value(), 100_000_000);
    assert_eq!(one_zec.zatoshis().into_u64(), 100_000_000);
}

fn viewing_key_text(key: &UnifiedSpendingKey) -> String {
    key.to_unified_full_viewing_key().encode(&Network::MainNetwork)
}

#[test]
fn recovery_key_is_the_account_zero_key_of_the_bip39_seed() {
    let phrase = "abandon abandon abandon abandon abandon abandon abandon abandon abandon abandon abandon about";
    let key = spending_key_from_recovery_phrase(phrase).unwrap();
    let seed = Mnemonic::parse_in(Language::English, phrase).unwrap().to_seed("");
    let expected = UnifiedSpendingKey::from_seed(&Network::MainNetwork, &seed, AccountId::ZERO).unwrap();
    assert_eq!(viewing_key_text(key.spending_key()), viewing_key_text(&expected));
}

#[test]
fn law_recovery_phrase_ignores_surrounding_white_space_concrete() {
    let bare = spending_key_from_recovery_phrase(PHRASE).unwrap();
    let padded = spending_key_from_recovery_phrase(&format!(" \t{PHRASE}\n ")).unwrap();
    assert_eq!(viewing_key_text(bare.spending_key()), viewing_key_text(padded.spending_key()));
    let bad_bare = spending_key_from_recovery_phrase("abandon").err().unwrap();
    let bad_padded = spending_key_from_recovery_phrase("  abandon\n").err().unwrap();
    assert_eq!(bad_bare, bad_padded);
}

#[test]
fn law_recipient_ignores_surrounding_white_space_concrete() {
    let bad_bare = parse_recipient("xyz").err().unwrap();
    let bad_padded = parse_recipient(" xyz\t").err().unwrap();
    assert_eq!(bad_bare, bad_padded);
}

#[test]
fn first_account_or_none() {
    assert_eq!(first_account(vec![7, 8]), Ok(7));
    assert_eq!(
        first_account(Vec::<u32>::new()),
        Err("Wallet contains no account.".to_string())
    );
}

#[test]
fn broadcast_verdicts() {
    assert_eq!(broadcast_verdict("abc", 0, ""), Ok("abc".to_string()));
    assert_eq!(
        broadcast_verdict("abc", -26, "bad-txns"),
        Err("Zcash network rejected transaction abc: code -26: bad-txns".to_string())
    );
    assert_eq!(
        broadcast_verdict("f00", 7, ""),
        Err("Zcash network rejected transaction f00: code 7: ".to_string())
    );
}

#[test]
fn birthday_is_one_hundred_below_tip() {
    let tip = 2_500_000u64;
    let height = birthday_tree_height(tip).unwrap();
    assert_eq!(height + 100, tip);
    assert_eq!(birthday_tree_height(100), Ok(0));
    assert_eq!(
        birthday_tree_height(99),
        Err("Chain height is too low to subtract 100 blocks".to_string())
    );
}
