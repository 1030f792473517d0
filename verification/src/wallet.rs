//! The wallet's keys and its address book.
use rand::rngs::OsRng;
use rand::RngCore;
use vstd::prelude::*;
use zcash_keys::address::UnifiedAddress;
use zcash_keys::keys::{UnifiedAddressRequest, UnifiedFullViewingKey, UnifiedSpendingKey};
use zcash_protocol::consensus::Network;
use zip32::AccountId;

use crate::send::zcash_address_error;
use crate::text::{decimal, u64_to_decimal};

verus! {

#[verifier::external_type_specification]
#[verifier::external_body]
pub struct ExUnifiedSpendingKey(UnifiedSpendingKey);

#[verifier::external_type_specification]
#[verifier::external_body]
pub struct ExUnifiedFullViewingKey(UnifiedFullViewingKey);

#[verifier::external_type_specification]
#[verifier::external_body]
pub struct ExUnifiedAddress(UnifiedAddress);

/// What deriving the mainnet account-0 spending key from a seed reports: `None` when
/// the derivation succeeds, otherwise the `Debug` text of its `DerivationError`.
pub uninterp spec fn account_zero_key_error(seed: Seq<u8>) -> Option<Seq<char>>;

/// What asking the full viewing key of the account-0 key of a seed for its default
/// address (every available receiver) reports: `None` when an address is found,
/// otherwise the `Debug` text of its `AddressGenerationError`.
pub uninterp spec fn default_address_error(seed: Seq<u8>) -> Option<Seq<char>>;

/// The mainnet encoding of the default unified address of the account-0 key of a seed.
pub uninterp spec fn mainnet_default_address(seed: Seq<u8>) -> Seq<char>;

/// The mainnet account-0 spending key, with the seed it was derived from (its view).
/// Only `derive_account_zero_key` makes one.
pub struct AccountKey {
    seed: Ghost<Seq<u8>>,
    key: UnifiedSpendingKey,
}

impl View for AccountKey {
    type V = Seq<u8>;

    /// The seed the key was derived from.
    closed spec fn view(&self) -> Seq<u8> {
        self.seed@
    }
}

impl AccountKey {
    /// The spending key itself.
    pub fn spending_key(&self) -> &UnifiedSpendingKey {
        &self.key
    }

    /// The spending key itself, taken out of its wrapper.
    pub fn into_spending_key(self) -> UnifiedSpendingKey {
        self.key
    }
}

/// The unified full viewing key of an account key, with the seed the account key was
/// derived from (its view). Only `full_viewing_key` makes one.
struct AccountViewingKey {
    seed: Ghost<Seq<u8>>,
    ufvk: UnifiedFullViewingKey,
}

impl View for AccountViewingKey {
    type V = Seq<u8>;

    closed spec fn view(&self) -> Seq<u8> {
        self.seed@
    }
}

/// The default unified address of a viewing key, with the seed its account key was
/// derived from (its view). Only `default_unified_address` makes one.
struct DefaultAddress {
    seed: Ghost<Seq<u8>>,
    address: UnifiedAddress,
}

impl View for DefaultAddress {
    type V = Seq<u8>;

    closed spec fn view(&self) -> Seq<u8> {
        self.seed@
    }
}

/// `OsRng.fill_bytes`: 32 bytes from the operating system's random source. Nothing is
/// promised of their value.
#[verifier::external_body]
fn random_seed() -> (seed: [u8; 32]) {
    let mut seed = [0u8; 32];
    OsRng.fill_bytes(&mut seed);
    seed
}

/// `UnifiedSpendingKey::from_seed` for the main network and account 0, recording the
/// seed with the key. The derivation is a function of the seed alone; the error is
/// rendered with `Debug`. The function panics on a seed shorter than 32 bytes, which
/// `requires` leaves out.
#[verifier::external_body]
pub(crate) fn derive_account_zero_key(seed: &[u8]) -> (r: Result<AccountKey, String>)
    requires
        seed@.len() >= 32,
    ensures
        r is Ok <==> account_zero_key_error(seed@) is None,
        r matches Ok(k) ==> k@ == seed@,
        r matches Err(e) ==> account_zero_key_error(seed@) == Some(e@),
{
    UnifiedSpendingKey::from_seed(&Network::MainNetwork, seed, AccountId::ZERO).map(
        |key| AccountKey { seed: Ghost(seed@), key },
    ).map_err(|e| format!("{e:?}"))
}

/// `UnifiedSpendingKey::to_unified_full_viewing_key`, carrying the seed along.
#[verifier::external_body]
fn full_viewing_key(key: &AccountKey) -> (ufvk: AccountViewingKey)
    ensures
        ufvk@ == key@,
{
    AccountViewingKey { seed: Ghost(key@), ufvk: key.key.to_unified_full_viewing_key() }
}

/// `UnifiedFullViewingKey::default_address` with a request for every available
/// receiver, keeping the address (and the seed) and dropping its diversifier index;
/// the error is rendered with `Debug`. The outcome is a function of the viewing key,
/// hence of the seed its account key came from.
#[verifier::external_body]
fn default_unified_address(ufvk: &AccountViewingKey) -> (r: Result<DefaultAddress, String>)
    ensures
        r is Ok <==> default_address_error(ufvk@) is None,
        r matches Ok(a) ==> a@ == ufvk@,
        r matches Err(e) ==> default_address_error(ufvk@) == Some(e@),
{
    ufvk.ufvk.default_address(UnifiedAddressRequest::AllAvailableKeys).map(
        |(address, _)| DefaultAddress { seed: Ghost(ufvk@), address },
    ).map_err(|e| format!("{e:?}"))
}

/// Whether a text has the form of a mainnet unified address: the Bech32m
/// human-readable part `u` followed by the separator `1`.
pub open spec fn has_mainnet_unified_prefix(text: Seq<char>) -> bool {
    text.len() >= 2 && text[0] == 'u' && text[1] == '1'
}

/// `UnifiedAddress::encode` for the main network. The text is a function of the
/// address, hence of the seed it came from; the source encodes it with Bech32m under
/// the mainnet unified-address prefix `u`, so it begins `u1`, and its unified encoding
/// is documented to obey round-trip serialization, so the text parses back as a Zcash
/// address.
#[verifier::external_body]
fn encode_for_mainnet(address: &DefaultAddress) -> (text: String)
    ensures
        text@ == mainnet_default_address(address@),
        has_mainnet_unified_prefix(text@),
        zcash_address_error(text@) is None,
{
    address.address.encode(&Network::MainNetwork)
}

/// One entry of the wallet's address book.
#[derive(Debug, Clone)]
pub struct WalletAddress {
    pub id: u32,
    pub alias: String,
    pub address: String,
    pub balance_zatoshis: u64,
}

/// Each entry's id is its position in the book, as a 32-bit number.
pub open spec fn ids_positional(book: Seq<WalletAddress>) -> bool {
    forall|i: int| 0 <= i < book.len() ==> #[trigger] book[i].id == i as u32
}

/// The sum of the balances in the book.
pub open spec fn total_balance(book: Seq<WalletAddress>) -> nat
    decreases book.len(),
{
    if book.len() == 0 {
        0
    } else {
        total_balance(book.drop_last()) + book.last().balance_zatoshis as nat
    }
}

/// The book with the balance of entry `id` set to `balance`.
pub open spec fn with_balance(book: Seq<WalletAddress>, id: u32, balance: u64) -> Seq<WalletAddress> {
    let entry = book[id as int];
    book.update(
        id as int,
        WalletAddress {
            id: entry.id,
            alias: entry.alias,
            address: entry.address,
            balance_zatoshis: balance,
        },
    )
}

/// What `WalletCore::from_seed` reports for a seed: `None` when the account-0 key
/// derives, otherwise its error message.
pub open spec fn from_seed_error(seed: Seq<u8>) -> Option<Seq<char>> {
    match account_zero_key_error(seed) {
        Some(text) => Some("Failed to derive wallet keys: "@ + text),
        None => None,
    }
}

/// The message for a balance update of an id that the book does not hold.
pub open spec fn address_not_found_message(id: u32) -> Seq<char> {
    "Address "@ + decimal(id as nat) + " not found"@
}

/// What `WalletCore::default_address` gives for a wallet made from a seed: the mainnet
/// encoding of the default unified address of its account-0 key, or the error message.
pub open spec fn default_address_outcome(seed: Seq<u8>) -> Result<Seq<char>, Seq<char>> {
    match default_address_error(seed) {
        None => Ok(mainnet_default_address(seed)),
        Some(text) => Err("Failed to derive address: "@ + text),
    }
}

/// A wallet: its seed, the account-0 spending key derived from it, and its address book.
pub struct WalletCore {
    seed: [u8; 32],
    spending_key: AccountKey,
    addresses: Vec<WalletAddress>,
}

impl View for WalletCore {
    type V = Seq<WalletAddress>;

    /// The address book.
    closed spec fn view(&self) -> Seq<WalletAddress> {
        self.addresses@
    }
}

impl WalletCore {
    #[verifier::type_invariant]
    spec fn well_formed(self) -> bool {
        &&& ids_positional(self.addresses@)
        &&& self.spending_key@ == self.seed@
    }

    /// The seed the wallet was made from.
    pub closed spec fn seed_bytes(&self) -> Seq<u8> {
        self.seed@
    }

    /// The seed that the wallet's spending key was derived from.
    pub closed spec fn key_seed(&self) -> Seq<u8> {
        self.spending_key@
    }

    /// A wallet from a fresh random seed. Whatever seed came up, a wallet comes back
    /// exactly when its account-0 key derives, with an empty book.
    pub fn generate() -> (r: Result<Self, String>)
        ensures
            match r {
                Ok(w) => w@ == Seq::<WalletAddress>::empty() && w.seed_bytes().len() == 32
                    && w.key_seed() == w.seed_bytes() && from_seed_error(w.seed_bytes()) is None,
                Err(e) => exists|seed: Seq<u8>| seed.len() == 32 && from_seed_error(seed) == Some(e@),
            },
    {
        let seed = random_seed();
        let r = Self::from_seed(seed);
        proof {
            if r is Err {
                assert(seed@.len() == 32 && from_seed_error(seed@) == Some(r->Err_0@));
            }
        }
        r
    }

    /// A wallet with the given seed, its account-0 spending key and an empty book;
    /// fails exactly when the key does not derive.
    pub fn from_seed(seed: [u8; 32]) -> (r: Result<Self, String>)
        ensures
            match r {
                Ok(w) => w.seed_bytes() == seed@ && w.key_seed() == seed@ && w@ == Seq::<
                    WalletAddress,
                >::empty() && from_seed_error(seed@) is None,
                Err(e) => from_seed_error(seed@) == Some(e@),
            },
    {
        match derive_account_zero_key(seed.as_slice()) {
            Ok(spending_key) => Ok(WalletCore { seed, spending_key, addresses: Vec::new() }),
            Err(text) => {
                let mut message = String::from_str("Failed to derive wallet keys: ");
                message.append(text.as_str());
                Err(message)
            },
        }
    }

    /// The encoded default unified address of the wallet's key on the main network.
    pub fn default_address(&self) -> (r: Result<String, String>)
        ensures
            match r {
                Ok(address) => default_address_outcome(self.seed_bytes()) == Ok::<
                    Seq<char>,
                    Seq<char>,
                >(address@) && has_mainnet_unified_prefix(address@) && zcash_address_error(
                    address@,
                ) is None,
                Err(e) => default_address_outcome(self.seed_bytes()) == Err::<Seq<char>, Seq<char>>(
                    e@,
                ),
            },
            r is Ok <==> default_address_error(self.key_seed()) is None,
            r matches Ok(address) ==> address@ == mainnet_default_address(self.key_seed()),
            r matches Err(e) ==> exists|text: Seq<char>|
                default_address_error(self.key_seed()) == Some(text) && e@
                    == "Failed to derive address: "@ + text,
    {
        proof {
            use_type_invariant(self);
        }
        let ufvk = full_viewing_key(&self.spending_key);
        match default_unified_address(&ufvk) {
            Ok(address) => Ok(encode_for_mainnet(&address)),
            Err(text) => {
                let mut message = String::from_str("Failed to derive address: ");
                message.append(text.as_str());
                proof {
                    assert(message@ == "Failed to derive address: "@ + text@);
                }
                Err(message)
            },
        }
    }

    /// The sum of the balances in the book, or `None` when it does not fit in 64 bits.
    pub fn checked_total_balance_zatoshis(&self) -> (r: Option<u64>)
        ensures
            match r {
                Some(t) => t == total_balance(self@),
                None => total_balance(self@) > u64::MAX,
            },
    {
        let n = self.addresses.len();
        let mut total: u64 = 0;
        let mut i: usize = 0;
        while i < n
            invariant
                0 <= i <= n,
                n == self.addresses@.len(),
                total == total_balance(self.addresses@.take(i as int)),
            decreases n - i,
        {
            proof {
                assert(self.addresses@.take(i + 1).drop_last() =~= self.addresses@.take(i as int));
            }
            let balance = self.addresses[i].balance_zatoshis;
            if total > u64::MAX - balance {
                proof {
                    lemma_total_balance_prefix(self.addresses@, i + 1);
                }
                return None;
            }
            total = total + balance;
            i = i + 1;
        }
        assert(self.addresses@.take(n as int) =~= self.addresses@);
        Some(total)
    }

    /// The sum of the balances in the book.
    pub fn total_balance_zatoshis(&self) -> (total: u64)
        requires
            total_balance(self@) <= u64::MAX,
        ensures
            total == total_balance(self@),
    {
        match self.checked_total_balance_zatoshis() {
            Some(t) => t,
            None => 0,
        }
    }

    /// The address book.
    pub fn addresses(&self) -> (book: &[WalletAddress])
        ensures
            book@ == self@,
            ids_positional(book@),
    {
        proof {
            use_type_invariant(self);
        }
        self.addresses.as_slice()
    }

    /// Adds an entry with a zero balance; its id is its position (as a 32-bit number).
    pub fn add_address(&mut self, alias: String, address: String) -> (id: u32)
        ensures
            id == old(self)@.len() as u32,
            final(self)@ == old(self)@.push(
                WalletAddress { id: id, alias: alias, address: address, balance_zatoshis: 0 },
            ),
            final(self).seed_bytes() == old(self).seed_bytes(),
            ids_positional(final(self)@),
    {
        proof {
            use_type_invariant(&*self);
        }
        let id = self.addresses.len() as u32;
        let mut book: Vec<WalletAddress> = Vec::new();
        std::mem::swap(&mut book, &mut self.addresses);
        book.push(WalletAddress { id, alias, address, balance_zatoshis: 0 });
        self.addresses = book;
        id
    }

    /// Sets the balance of the entry with the given id; fails, changing nothing, when the
    /// book holds no such entry.
    pub fn set_address_balance(&mut self, id: u32, balance_zatoshis: u64) -> (r: Result<(), String>)
        ensures
            r is Ok <==> (id as int) < old(self)@.len(),
            r is Ok ==> final(self)@ == with_balance(old(self)@, id, balance_zatoshis),
            r matches Err(e) ==> final(self)@ == old(self)@ && e@ == address_not_found_message(id),
            final(self).seed_bytes() == old(self).seed_bytes(),
            ids_positional(final(self)@),
    {
        proof {
            use_type_invariant(&*self);
        }
        let ghost book0 = self.addresses@;
        let n = self.addresses.len();
        let mut i: usize = 0;
        while i < n && self.addresses[i].id != id
            invariant
                0 <= i <= n,
                n == self.addresses@.len(),
                book0 == self.addresses@,
                ids_positional(book0),
                forall|k: int| 0 <= k < i ==> #[trigger] book0[k].id != id,
            decreases n - i,
        {
            i = i + 1;
        }
        if i == n {
            proof {
                if (id as int) < n {
                    assert(book0[id as int].id == id);
                }
            }
            let mut message = String::from_str("Address ");
            let number = u64_to_decimal(id as u64);
            message.append(number.as_str());
            message.append(" not found");
            return Err(message);
        }
        proof {
            // the first entry with this id is the one at position `id`
            assert(book0[i as int].id == i as u32);
            if (i as int) >= 0x1_0000_0000 {
                let w = id as int;
                assert(book0[w].id == w as u32);
            }
        }
        let mut book: Vec<WalletAddress> = Vec::new();
        std::mem::swap(&mut book, &mut self.addresses);
        let mut entry = book.remove(i);
        entry.balance_zatoshis = balance_zatoshis;
        book.insert(i, entry);
        proof {
            assert(book@ =~= with_balance(book0, id, balance_zatoshis));
        }
        self.addresses = book;
        Ok(())
    }

    /// The seed the wallet was made from.
    pub fn seed(&self) -> (seed: &[u8; 32])
        ensures
            seed@ == self.seed_bytes(),
    {
        &self.seed
    }
}

proof fn lemma_total_balance_prefix(book: Seq<WalletAddress>, i: int)
    requires
        0 <= i <= book.len(),
    ensures
        total_balance(book.take(i)) <= total_balance(book),
    decreases book.len() - i,
{
    if i < book.len() {
        lemma_total_balance_prefix(book, i + 1);
        assert(book.take(i + 1).drop_last() =~= book.take(i));
    } else {
        assert(book.take(i) =~= book);
    }
}

/// Adding an address leaves the wallet's total balance unchanged.
pub proof fn law_add_address_keeps_total(book: Seq<WalletAddress>, entry: WalletAddress)
    requires
        entry.balance_zatoshis == 0,
    ensures
        total_balance(book.push(entry)) == total_balance(book),
{
    assert(book.push(entry).drop_last() =~= book);
}

/// Setting one entry's balance moves the total by the difference between the new and
/// the old balance of that entry.
pub proof fn law_set_balance_moves_total(book: Seq<WalletAddress>, id: u32, balance: u64)
    requires
        (id as int) < book.len(),
    ensures
        total_balance(with_balance(book, id, balance)) == total_balance(book)
            - book[id as int].balance_zatoshis + balance,
    decreases book.len(),
{
    let t = with_balance(book, id, balance);
    if (id as int) == book.len() - 1 {
        assert(t.drop_last() =~= book.drop_last());
    } else {
        law_set_balance_moves_total(book.drop_last(), id, balance);
        assert(t.drop_last() =~= with_balance(book.drop_last(), id, balance));
    }
}

/// The id that `add_address` returns names the entry it added: while the book has fewer
/// than 2^32 entries, setting the balance under that id succeeds and changes that entry
/// and no other.
pub proof fn law_added_address_is_addressable(
    book: Seq<WalletAddress>,
    entry: WalletAddress,
    balance: u64,
)
    requires
        ids_positional(book),
        book.len() < 0x1_0000_0000,
        entry.id == book.len() as u32,
    ensures
        ids_positional(book.push(entry)),
        (entry.id as int) < book.push(entry).len(),
        with_balance(book.push(entry), entry.id, balance) == book.push(
            WalletAddress {
                id: entry.id,
                alias: entry.alias,
                address: entry.address,
                balance_zatoshis: balance,
            },
        ),
{
    let grown = book.push(entry);
    assert forall|i: int| 0 <= i < grown.len() implies #[trigger] grown[i].id == i as u32 by {
        if i < book.len() {
            assert(grown[i] == book[i]);
        }
    }
    assert(with_balance(grown, entry.id, balance) =~= book.push(
        WalletAddress {
            id: entry.id,
            alias: entry.alias,
            address: entry.address,
            balance_zatoshis: balance,
        },
    ));
}

/// The address a wallet reports is the default address of its own key: for the seed the
/// key was derived from, the outcome is that seed's encoded default address when one
/// exists, and otherwise the address-generation error for that same seed.
pub proof fn law_default_address_is_of_the_wallets_own_key(seed: Seq<u8>)
    ensures
        default_address_error(seed) is None ==> default_address_outcome(seed) == Ok::<
            Seq<char>,
            Seq<char>,
        >(mainnet_default_address(seed)),
        default_address_error(seed) matches Some(text) ==> default_address_outcome(seed)
            == Err::<Seq<char>, Seq<char>>("Failed to derive address: "@ + text),
{
}

} // verus!
