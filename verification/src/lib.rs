//! A sharded single-record-per-file key-value store, and a minimal
//! inverted index built on two instances of it.
//!
//! The store assigns each 128-bit key a file named by the lowercase
//! hexadecimal form of a 64-bit hash of the key; the record holds the
//! value for that key.  The index layers a token vocabulary, per-document
//! term frequencies and per-term document frequencies on top of two such
//! stores.  All bookkeeping is verified; reading and writing the actual
//! files, and the byte codec for record contents, are collaborators that
//! live outside this crate.

pub mod resolver;
pub mod counts;
pub mod store;
pub mod token;
pub mod vocab;
pub mod index;
pub mod laws;
