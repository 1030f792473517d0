//! A Zcash wallet's verified core: its address book, its in-memory compact-block
//! cache, and the decisions around deriving keys and building payments.
pub mod cache;
pub mod network;
pub mod send;
pub mod text;
pub mod wallet;
