//! An encrypted, hierarchical secret store kept under one passphrase-derived key.
//!
//! The vault holds folders, notes, credentials and file records in a forest of
//! parent pointers. Every field of an item but its id and its parent is sealed
//! on its own before it is stored; the contents of items are sealed payloads.
//!
//! - `crypto`: key derivation and the encryption engine.
//! - `time`, `text`, `bytes`: instants, text and byte strings as the rules read them.
//! - `item`, `listing`: items, their listing order and the type filter.
//! - `row`: the sealed row of an item, written and read.
//! - `tree`, `tags`: subtrees of the forest; tag lists.
//! - `storage`, `cascade`, `retag`, `reseal`: the store and its operations.
//! - `settings`, `lockout`: the settings and the lockout that lives in them.
//! - `validate`: the rules on caller-supplied values.
//! - `vault`, `items`, `export`, `import`: the session and its operations.
//! - `shred`, `totp`: the overwrite plan for removed payloads; one-time passwords.
//! - `error`: the failures.
//!
//! Contracts are stated over views: `Seq`s of characters and bytes, and plain
//! structures of them. What an outside crate computes is named by an
//! uninterpreted function and stated in the contract of the one wrapper that
//! calls it.

pub mod bytes;
pub mod cascade;
pub mod crypto;
pub mod error;
pub mod export;
pub mod import;
pub mod item;
pub mod items;
pub mod listing;
pub mod lockout;
pub mod reseal;
pub mod retag;
pub mod row;
pub mod settings;
pub mod shred;
pub mod storage;
pub mod tags;
pub mod text;
pub mod time;
pub mod totp;
pub mod tree;
pub mod validate;
pub mod vault;
