//! Codec for a two-layer game-network wire protocol carried in datagrams:
//! an outer reliable-transport framing layer (packets made of commands)
//! around an inner request/event protocol with a type-tagged value
//! encoding.
//!
//! Every multi-byte integer on the wire is big-endian. Decoding never
//! panics: a buffer that cannot be decoded gives a [`error::DecodeError`].
//!
//! - [`wire`], [`text`]: integers and text fields in byte buffers.
//! - [`typ`], [`header`]: command kinds and command headers.
//! - [`codes`], [`value`], [`encoding`], [`params`]: the tags, the values,
//!   their wire form and the parameter tables of the inner protocol.
//! - [`photon`]: the messages of the inner protocol.
//! - [`fragment`]: reassembly of messages sent in fragments.
//! - [`payload`], [`request`], [`reply`]: command payloads, commands and
//!   the packets of the two directions.

pub mod codes;
pub mod error;
pub mod wire;
pub mod typ;
pub mod header;
pub mod fragment;
pub mod text;
pub mod value;
pub mod encoding;
pub mod params;
pub mod photon;
pub mod payload;
pub mod request;
pub mod reply;
