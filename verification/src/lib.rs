//! Calldata and log codec for the Ethereum contract ABI wire format.
//!
//! The crate is organised around the ABI's head/tail word encoding:
//! `types` holds the type descriptors, `value` the typed value trees,
//! `encode` and `decode` the binary codec, `signature` the canonical
//! signature rendering, `keccak` the hash-derived selectors, `schema`
//! the selector tables, `dispatch` the call multiplexer and event
//! demultiplexer, and `mailbox` the schema set of the Mailbox contract
//! interface built on top of all of it.

pub mod errors;
pub mod types;
pub mod value;
pub mod words;
pub mod encode;
pub mod decode;
pub mod roundtrip;
pub mod signature;
pub mod keccak;
pub mod schema;
pub mod dispatch;
pub mod mailbox;
