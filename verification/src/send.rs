//! The decisions of a payment: the key from a recovery phrase, the recipient, the
//! amount, the payment request, the account to spend from, and the verdict of a
//! broadcast.
use bip39::{Language, Mnemonic};
use vstd::prelude::*;
use zcash_address::ZcashAddress;
use zcash_protocol::value::Zatoshis;
use zip321::{Payment, TransactionRequest};

use crate::text::{
    all_white_space, i32_to_decimal, law_trim_ignores_surrounding_white_space,
    law_trim_keeps_words, signed_decimal, split_words, trim, trimmed,
};
use crate::wallet::{account_zero_key_error, derive_account_zero_key, AccountKey};

verus! {

#[verifier::external_type_specification]
#[verifier::external_body]
pub struct ExMnemonic(Mnemonic);

#[verifier::external_type_specification]
#[verifier::external_body]
pub struct ExZcashAddress(ZcashAddress);

#[verifier::external_type_specification]
#[verifier::external_body]
pub struct ExZatoshis(Zatoshis);

#[verifier::external_type_specification]
#[verifier::external_body]
pub struct ExPayment(Payment);

#[verifier::external_type_specification]
#[verifier::external_body]
pub struct ExTransactionRequest(TransactionRequest);

/// The largest amount of Zcash there can be, in zatoshis (21 million ZEC).
pub const MAX_MONEY_ZATOSHIS: u64 = 2_100_000_000_000_000;

/// What parsing a text with the given words as an English BIP-39 mnemonic reports:
/// `None` when it parses, otherwise the `Display` text of the parse error.
pub uninterp spec fn english_mnemonic_error(words: Seq<Seq<char>>) -> Option<Seq<char>>;

/// The 64-byte BIP-39 seed, with the empty passphrase, of the English mnemonic with the
/// given words.
pub uninterp spec fn bip39_seed(words: Seq<Seq<char>>) -> Seq<u8>;

/// What parsing a text as a Zcash address reports: `None` when it parses, otherwise the
/// `Display` text of the parse error.
pub uninterp spec fn zcash_address_error(text: Seq<char>) -> Option<Seq<char>>;

/// What building a ZIP-321 request holding one memo-less payment of `amount` zatoshis to
/// the address parsed from `recipient` reports: `None` when the request is valid,
/// otherwise the `Display` text of its `Zip321Error`.
pub uninterp spec fn payment_request_error(recipient: Seq<char>, amount: u64) -> Option<Seq<char>>;

/// A parsed English mnemonic, with the words of the text it was parsed from (its view).
/// Only `parse_english_mnemonic` makes one.
struct ParsedMnemonic {
    words: Ghost<Seq<Seq<char>>>,
    mnemonic: Mnemonic,
}

impl View for ParsedMnemonic {
    type V = Seq<Seq<char>>;

    closed spec fn view(&self) -> Seq<Seq<char>> {
        self.words@
    }
}

/// The recipient of a payment: a parsed Zcash address, with the text it was parsed from
/// (its view). Only `parse_zcash_address` makes one.
pub struct Recipient {
    text: Ghost<Seq<char>>,
    address: ZcashAddress,
}

impl View for Recipient {
    type V = Seq<char>;

    /// The text the address was parsed from.
    closed spec fn view(&self) -> Seq<char> {
        self.text@
    }
}

impl Recipient {
    /// The parsed address.
    pub fn address(&self) -> &ZcashAddress {
        &self.address
    }

    /// The parsed address, taken out of its wrapper.
    pub fn into_address(self) -> ZcashAddress {
        self.address
    }
}

/// A Zcash amount, with its number of zatoshis (its view). Only `zatoshis_from_u64`
/// makes one.
pub struct Amount {
    value: u64,
    zatoshis: Zatoshis,
}

impl View for Amount {
    type V = u64;

    /// The number of zatoshis.
    closed spec fn view(&self) -> u64 {
        self.value
    }
}

impl Amount {
    /// The number of zatoshis.
    pub fn value(&self) -> (v: u64)
        ensures
            v == self@,
    {
        self.value
    }

    /// The amount as `Zatoshis`.
    pub fn zatoshis(&self) -> Zatoshis {
        self.zatoshis
    }
}

/// A memo-less payment, with its recipient's text and its amount (its view). Only
/// `payment_without_memo` makes one.
struct SinglePayment {
    recipient: Ghost<Seq<char>>,
    amount: Ghost<u64>,
    payment: Payment,
}

impl View for SinglePayment {
    type V = (Seq<char>, u64);

    closed spec fn view(&self) -> (Seq<char>, u64) {
        (self.recipient@, self.amount@)
    }
}

/// A ZIP-321 request holding exactly one memo-less payment, with that payment's
/// recipient text and amount (its view). Only `request_for_payment` makes one.
pub struct PaymentRequest {
    recipient: Ghost<Seq<char>>,
    amount: Ghost<u64>,
    request: TransactionRequest,
}

impl View for PaymentRequest {
    type V = (Seq<char>, u64);

    /// The recipient's text and the amount in zatoshis of the request's one payment.
    closed spec fn view(&self) -> (Seq<char>, u64) {
        (self.recipient@, self.amount@)
    }
}

impl PaymentRequest {
    /// The transaction request.
    pub fn request(&self) -> &TransactionRequest {
        &self.request
    }

    /// The transaction request, taken out of its wrapper.
    pub fn into_request(self) -> TransactionRequest {
        self.request
    }
}

/// `Mnemonic::parse_in` with the English word list, recording the words; the error is
/// rendered with `Display`. The source normalizes the text (NFKD, which maps whitespace
/// to whitespace and works within words) and then reads only its `split_whitespace`
/// words, so the outcome is a function of the text's words.
#[verifier::external_body]
fn parse_english_mnemonic(phrase: &str) -> (r: Result<ParsedMnemonic, String>)
    ensures
        r is Ok <==> english_mnemonic_error(split_words(phrase@)) is None,
        r matches Ok(m) ==> m@ == split_words(phrase@),
        r matches Err(e) ==> english_mnemonic_error(split_words(phrase@)) == Some(e@),
{
    Mnemonic::parse_in(Language::English, phrase).map(
        |mnemonic| ParsedMnemonic { words: Ghost(split_words(phrase@)), mnemonic },
    ).map_err(|e| e.to_string())
}

/// `Mnemonic::to_seed` with the empty passphrase: the 64-byte BIP-39 seed, a function of
/// the mnemonic's words.
#[verifier::external_body]
fn mnemonic_seed(mnemonic: &ParsedMnemonic) -> (seed: [u8; 64])
    ensures
        seed@ == bip39_seed(mnemonic@),
{
    mnemonic.mnemonic.to_seed("")
}

/// `<ZcashAddress as FromStr>::from_str`, recording the text; the error is rendered with
/// `Display`. The outcome is a function of the text alone.
#[verifier::external_body]
fn parse_zcash_address(text: &str) -> (r: Result<Recipient, String>)
    ensures
        r is Ok <==> zcash_address_error(text@) is None,
        r matches Ok(a) ==> a@ == text@,
        r matches Err(e) ==> zcash_address_error(text@) == Some(e@),
{
    text.parse::<ZcashAddress>().map(|address| Recipient { text: Ghost(text@), address }).map_err(
        |e| e.to_string(),
    )
}

/// `Zatoshis::from_u64`: succeeds exactly on amounts up to 21 million ZEC, and then
/// holds the given number of zatoshis.
#[verifier::external_body]
fn zatoshis_from_u64(amount: u64) -> (r: Option<Amount>)
    ensures
        r is Some <==> amount <= MAX_MONEY_ZATOSHIS,
        r matches Some(a) ==> a@ == amount,
{
    Zatoshis::from_u64(amount).ok().map(|zatoshis| Amount { value: amount, zatoshis })
}

/// `Payment::without_memo`: a payment of the amount to the recipient with no memo,
/// label, message or other parameter.
#[verifier::external_body]
fn payment_without_memo(recipient: Recipient, amount: Amount) -> (payment: SinglePayment)
    ensures
        payment@ == (recipient@, amount@),
{
    SinglePayment {
        recipient: Ghost(recipient@),
        amount: Ghost(amount@),
        payment: Payment::without_memo(recipient.address, amount.zatoshis),
    }
}

/// `TransactionRequest::new` over the single payment; the error is rendered with
/// `Display`. The outcome is a function of the payment, hence of its recipient text and
/// amount.
#[verifier::external_body]
fn request_for_payment(payment: SinglePayment) -> (r: Result<PaymentRequest, String>)
    ensures
        r is Ok <==> payment_request_error(payment@.0, payment@.1) is None,
        r matches Ok(q) ==> q@ == payment@,
        r matches Err(e) ==> payment_request_error(payment@.0, payment@.1) == Some(e@),
{
    let recipient = Ghost(payment@.0);
    let amount = Ghost(payment@.1);
    TransactionRequest::new(vec![payment.payment]).map(
        |request| PaymentRequest { recipient, amount, request },
    ).map_err(|e| e.to_string())
}

/// What `spending_key_from_recovery_phrase` gives for a phrase: the seed of the account
/// key (the BIP-39 seed, empty passphrase, of the phrase's words), or the error message.
pub open spec fn recovery_key_outcome(phrase: Seq<char>) -> Result<Seq<u8>, Seq<char>> {
    let words = split_words(phrase);
    match english_mnemonic_error(words) {
        Some(m) => Err("Invalid wallet recovery phrase: "@ + m),
        None => match account_zero_key_error(bip39_seed(words)) {
            None => Ok(bip39_seed(words)),
            Some(d) => Err("Failed to derive Account 0 spending key: "@ + d),
        },
    }
}

/// The account-0 spending key of the wallet whose recovery phrase is given. Fails with
/// the parse error when the phrase (without surrounding whitespace) is no English
/// mnemonic; otherwise derives the key from the mnemonic's seed with an empty passphrase.
pub fn spending_key_from_recovery_phrase(recovery_phrase: &str) -> (r: Result<AccountKey, String>)
    ensures
        match r {
            Ok(k) => recovery_key_outcome(recovery_phrase@) == Ok::<Seq<u8>, Seq<char>>(k@),
            Err(e) => recovery_key_outcome(recovery_phrase@) == Err::<Seq<u8>, Seq<char>>(e@),
        },
        r is Ok <==> english_mnemonic_error(split_words(recovery_phrase@)) is None
            && account_zero_key_error(bip39_seed(split_words(recovery_phrase@))) is None,
        r matches Ok(k) ==> k@ == bip39_seed(split_words(recovery_phrase@)),
{
    let phrase = trim(recovery_phrase);
    proof {
        law_trim_keeps_words(recovery_phrase@);
    }
    let mnemonic = match parse_english_mnemonic(phrase) {
        Ok(m) => m,
        Err(text) => {
            let mut message = String::from_str("Invalid wallet recovery phrase: ");
            message.append(text.as_str());
            return Err(message);
        },
    };
    let seed = mnemonic_seed(&mnemonic);
    match derive_account_zero_key(seed.as_slice()) {
        Ok(key) => Ok(key),
        Err(text) => {
            let mut message = String::from_str("Failed to derive Account 0 spending key: ");
            message.append(text.as_str());
            Err(message)
        },
    }
}

/// A whole number of zatoshis as a Zcash amount: fails when it exceeds 21 million ZEC.
pub fn zatoshis_from_raw(raw: u64) -> (r: Result<Amount, String>)
    ensures
        r is Ok <==> raw <= MAX_MONEY_ZATOSHIS,
        r matches Ok(a) ==> a@ == raw,
        r matches Err(e) ==> e@ == "Amount is outside the valid Zcash monetary range."@,
{
    match zatoshis_from_u64(raw) {
        Some(amount) => Ok(amount),
        None => Err(String::from_str("Amount is outside the valid Zcash monetary range.")),
    }
}

/// What `transaction_request` fails with, if it does, for a recipient text and amount.
pub open spec fn payment_request_message(recipient: Seq<char>, amount: u64) -> Option<Seq<char>> {
    match payment_request_error(recipient, amount) {
        Some(text) => Some("Failed to construct payment request: "@ + text),
        None => None,
    }
}

/// A ZIP-321 request for one payment of `amount` to `recipient`, without a memo.
pub fn transaction_request(recipient: Recipient, amount: Amount) -> (r: Result<
    PaymentRequest,
    String,
>)
    ensures
        r is Ok <==> payment_request_message(recipient@, amount@) is None,
        r matches Ok(q) ==> q@ == (recipient@, amount@),
        r matches Err(e) ==> payment_request_message(recipient@, amount@) == Some(e@),
{
    let payment = payment_without_memo(recipient, amount);
    match request_for_payment(payment) {
        Ok(request) => Ok(request),
        Err(text) => {
            let mut message = String::from_str("Failed to construct payment request: ");
            message.append(text.as_str());
            Err(message)
        },
    }
}

/// What parsing a recipient fails with when its text (without surrounding whitespace)
/// is no Zcash address.
pub open spec fn invalid_recipient_message(recipient_address: Seq<char>) -> Option<Seq<char>> {
    match zcash_address_error(trimmed(recipient_address)) {
        Some(text) => Some("Invalid Zcash recipient address: "@ + text),
        None => None,
    }
}

/// The recipient of a payment, from the address text without surrounding whitespace.
pub fn parse_recipient(recipient_address: &str) -> (r: Result<Recipient, String>)
    ensures
        r is Ok <==> invalid_recipient_message(recipient_address@) is None,
        r is Ok <==> zcash_address_error(trimmed(recipient_address@)) is None,
        r matches Ok(a) ==> a@ == trimmed(recipient_address@),
        r matches Err(e) ==> invalid_recipient_message(recipient_address@) == Some(e@),
{
    let text = trim(recipient_address);
    match parse_zcash_address(text) {
        Ok(address) => Ok(address),
        Err(reason) => {
            let mut message = String::from_str("Invalid Zcash recipient address: ");
            message.append(reason.as_str());
            Err(message)
        },
    }
}

/// The account to spend from: the first account the wallet lists; fails when it lists
/// none.
pub fn first_account<T>(account_ids: Vec<T>) -> (r: Result<T, String>)
    ensures
        match r {
            Ok(a) => account_ids@.len() > 0 && a == account_ids@[0],
            Err(e) => account_ids@.len() == 0 && e@ == "Wallet contains no account."@,
        },
{
    let mut ids = account_ids;
    if ids.len() == 0 {
        Err(String::from_str("Wallet contains no account."))
    } else {
        Ok(ids.remove(0))
    }
}

/// The message of a transaction that the network rejected.
pub open spec fn rejection_message(txid: Seq<char>, error_code: i32, error_message: Seq<char>) -> Seq<
    char,
> {
    "Zcash network rejected transaction "@ + txid + ": code "@ + signed_decimal(error_code as int)
        + ": "@ + error_message
}

/// The verdict on the network's answer to one broadcast transaction: its id when the
/// answer carries error code 0, otherwise the rejection with code and message.
pub fn broadcast_verdict(txid: &str, error_code: i32, error_message: &str) -> (r: Result<
    String,
    String,
>)
    ensures
        r is Ok <==> error_code == 0,
        r matches Ok(id) ==> id@ == txid@,
        r matches Err(e) ==> e@ == rejection_message(txid@, error_code, error_message@),
{
    if error_code != 0 {
        let mut message = String::from_str("Zcash network rejected transaction ");
        message.append(txid);
        message.append(": code ");
        let code = i32_to_decimal(error_code);
        message.append(code.as_str());
        message.append(": ");
        message.append(error_message);
        return Err(message);
    }
    Ok(String::from_str(txid))
}

/// Whitespace around a recovery phrase does not change the outcome: the same account
/// key, or the same error.
pub proof fn law_recovery_phrase_ignores_surrounding_white_space(
    w1: Seq<char>,
    phrase: Seq<char>,
    w2: Seq<char>,
)
    requires
        all_white_space(w1),
        all_white_space(w2),
    ensures
        recovery_key_outcome(w1 + phrase + w2) == recovery_key_outcome(phrase),
{
    law_trim_ignores_surrounding_white_space(w1, phrase, w2);
    law_trim_keeps_words(w1 + phrase + w2);
    law_trim_keeps_words(phrase);
}

/// Only the words of a recovery phrase matter: two phrases with the same words, however
/// whitespace separates them (spaces, tabs, line breaks), give the same account key or
/// the same error.
pub proof fn law_recovery_phrase_depends_on_words_only(p1: Seq<char>, p2: Seq<char>)
    requires
        split_words(p1) == split_words(p2),
    ensures
        recovery_key_outcome(p1) == recovery_key_outcome(p2),
{
}

/// A phrase whose words form a valid English mnemonic, whose seed derives an account
/// key, gives the account-0 key of the BIP-39 seed of those words; a phrase whose words
/// do not form one gives the parse error.
pub proof fn law_recovery_phrase_gives_key_of_its_seed(p: Seq<char>)
    ensures
        english_mnemonic_error(split_words(p)) is None && account_zero_key_error(
            bip39_seed(split_words(p)),
        ) is None ==> recovery_key_outcome(p) == Ok::<Seq<u8>, Seq<char>>(
            bip39_seed(split_words(p)),
        ),
        english_mnemonic_error(split_words(p)) matches Some(m) ==> recovery_key_outcome(p)
            == Err::<Seq<u8>, Seq<char>>("Invalid wallet recovery phrase: "@ + m),
{
}

/// A recipient is refused exactly when its text, without surrounding whitespace, does
/// not parse as a Zcash address: every address that parses, of whatever kind, is
/// accepted.
pub proof fn law_recipient_refused_only_when_unparsable(text: Seq<char>)
    ensures
        invalid_recipient_message(text) is None <==> zcash_address_error(trimmed(text)) is None,
        zcash_address_error(trimmed(text)) matches Some(reason) ==> invalid_recipient_message(text)
            == Some("Invalid Zcash recipient address: "@ + reason),
{
}

/// Whitespace around a recipient's address does not change whether it parses, nor the
/// text the recipient is parsed from.
pub proof fn law_recipient_ignores_surrounding_white_space(
    w1: Seq<char>,
    address: Seq<char>,
    w2: Seq<char>,
)
    requires
        all_white_space(w1),
        all_white_space(w2),
    ensures
        invalid_recipient_message(w1 + address + w2) == invalid_recipient_message(address),
        trimmed(w1 + address + w2) == trimmed(address),
{
    law_trim_ignores_surrounding_white_space(w1, address, w2);
}

} // verus!
