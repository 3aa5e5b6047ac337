//! A storage adapter that keeps the pages of an embedded SQL engine's files
//! in an ordered key-value store.
//!
//! The crate holds the decisions of the adapter and nothing else. Every
//! call of the engine is answered with a [`store::Step`]: either the
//! result, or a request to the store together with the operation that
//! waits for the store's reply. The caller carries the request out, hands
//! the reply to the operation's `resume`, and goes on until the operation
//! is done. What the adapter asks of the store, and what it makes of the
//! replies, is proved; the store itself is the caller's.
//!
//! The modules:
//! - [`page`]: offsets, page keys and the bytes of one page;
//! - [`store`]: requests, replies, steps, and a model of a store that
//!   answers faithfully;
//! - [`model`], [`stream`], [`history`]: what a file is, read off the
//!   contents of the store, and the laws of the adapter's operations;
//! - [`read`], [`write`], [`size`], [`trim`], [`batch`], [`probe`]: the
//!   operations;
//! - [`vfs`]: the adapter, with [`file_state`] and [`handle`];
//! - [`lock_manager`]: the table of the engine's locks;
//! - [`env_config`]: the settings of a deployment;
//! - [`path_table`], [`assoc`]: tables keyed by path, and their proofs;
//! - [`error`]: the failures and their codes.

pub mod assoc;
pub mod batch;
pub mod env_config;
pub mod error;
pub mod file_state;
pub mod handle;
pub mod history;
pub mod lock_manager;
pub mod model;
pub mod page;
pub mod path_table;
pub mod probe;
pub mod read;
pub mod size;
pub mod store;
pub mod stream;
pub mod trim;
pub mod vfs;
pub mod write;
