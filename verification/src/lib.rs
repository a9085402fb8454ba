//! Wallet persistence and commit synchronisation for a browser-resident
//! chain client.
//!
//! The crate keeps a wallet's chain references durable in a versioned,
//! transactional field store and drives chain operations to finality while
//! the in-memory wallet and its persisted copy stay consistent.
//!
//! - [`ident`], [`keys`] and [`snapshot`] hold the wallet itself: chains,
//!   owners, waiting keys and the genesis configuration.
//! - [`hex`], [`wire`], [`table`] and [`fields`] give the wallet its stored
//!   form, field by field, and read it back.
//! - [`store`], [`storage`] and [`vault`] are the field store: databases
//!   with schema versions, object stores and atomic batches.
//! - [`manager`] and [`persistent`] own the live wallet and flush every
//!   change before it counts.
//! - [`retry`] drives one command until it is committed or fails, and
//!   [`notify`] dispatches the chain client's notifications.
//! - [`json`] asks the JSON parser whether a configuration document is well
//!   formed.

pub mod fields;
pub mod hex;
pub mod ident;
pub mod json;
pub mod keys;
pub mod manager;
pub mod notify;
pub mod persistent;
pub mod retry;
pub mod snapshot;
pub mod storage;
pub mod store;
pub mod table;
pub mod vault;
pub mod wire;
