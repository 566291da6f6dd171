//! # cybertoken
//!
//! A compact bearer-token format: a readable prefix, an underscore, and a
//! base-62 payload that carries random entropy, a marker byte and a CRC32
//! checksum over both.
//!
//! [`Cybertoken`] holds a configuration and generates, parses and checks
//! tokens. Every function of the crate is verified against the contract it
//! states; the calls into `base_x`, `crc32fast` and `rand` are believed as
//! the module `outside` states them.

pub mod cybertoken;
pub mod error;
pub mod outside;
pub mod payload;

pub use cybertoken::Cybertoken;
pub use cybertoken::CybertokenContents;
pub use cybertoken::BASE62_ALPHABET;
pub use error::CybertokenError;
