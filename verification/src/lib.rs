//! Telepipe: a proxy for Phantasy Star Online on the GameCube.
//!
//! The library holds the stream cipher of the game ([`crypto`]), the wire
//! format of the messages the proxy looks into ([`serial`], [`msg`]), the
//! decisions of a proxy session and the framing of its encrypted
//! connections ([`client`]), the answer of its DNS responder ([`dns`]) and its
//! configuration ([`config`]), and a fixed-length array ([`array`]).
pub mod array;
pub mod client;
pub mod config;
pub mod crypto;
pub mod dns;
pub mod msg;
pub mod serial;
