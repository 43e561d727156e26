//! A key-value store that is scoped by directory.
//!
//! Every directory has a flat mapping from keys to values of its own, and
//! all of them are kept in one JSON file. An invocation names one operation:
//! print every pair of a directory, print the value of one key, set a key,
//! or delete one.
//!
//! - [`opts`] and [`config`]: from the command line and the environment to
//!   the operation and the two paths of an invocation.
//! - [`table`], [`scope`] and [`document`]: the stored state and its JSON
//!   text, which [`json`] has read and written by `serde_json`.
//! - [`projector`]: the store of one invocation, which loads the document,
//!   carries out the operation and says what to write back.
//! - [`error`]: the failures and what the user is told of them.
//!
//! The library does no input or output: the text of the stored file and the
//! values of the environment are handed to it, and the text to write is
//! handed back.

pub mod config;
pub mod document;
pub mod error;
pub mod json;
pub mod opts;
pub mod projector;
pub mod scope;
pub mod table;
