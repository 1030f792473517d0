# zec_wallet

The core of a Zcash light wallet, verified with Verus.

- `src/cache.rs` — an in-memory compact-block store kept in strictly ascending order of
  height (one block per height), with the reads a sync engine makes: blocks from a
  height, the tip within a range, contiguous reads, upserting inserts and range deletes.
  Laws about the store (read-after-insert, delete-clears-range, contiguity of reads, the
  tip is the highest block in range, the store is determined by its contents) are
  proof functions in the same file.
- `src/wallet.rs` — the wallet's seed, account-0 spending key and address book, whose
  ids are positions in the book. The key, its viewing key and its default address are
  held in library types that record the seed they come from, so that the contracts can
  say which key and which address a wallet has.
- `src/send.rs` — the decisions of a payment: key from a recovery phrase, recipient,
  amount range, payment request, account choice and broadcast verdict. The mnemonic,
  recipient, amount and request are library types carrying the text or number they
  were made from.
- `src/network.rs` — the birthday height below the chain tip.
- `src/text.rs` — decimal rendering and whitespace trimming as specified text functions.

`app/` holds what Verus does not see: the lightwalletd client, the wallet database and
prover, the sync-engine traits over a locked store, serde, and amounts in floating ZEC.
