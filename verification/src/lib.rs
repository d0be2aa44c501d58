//! Protobuf streams of Solana updates: decoding, filtering, encoding and fan-out.
pub mod account;
pub mod again;
pub mod agree;
pub mod block;
pub mod channel;
pub mod codec;
pub mod collections;
pub mod config;
pub mod convert;
pub mod copy;
pub mod decode;
pub mod delivery;
pub mod encode;
pub mod error;
pub mod fields;
pub mod filter;
pub mod geyser;
pub mod limited;
pub mod message;
pub mod notified;
pub mod parser;
pub mod passed;
pub mod places;
pub mod plugin;
pub mod pretty;
pub mod protobuf;
pub mod pubkey;
pub mod readings;
pub mod relocation;
pub mod request;
pub mod retold;
pub mod richat;
pub mod ring;
pub mod round_trip;
pub mod said;
pub mod sent;
pub mod shown;
pub mod slots;
pub mod stats;
pub mod stream;
pub mod taken;
pub mod text;
pub mod told;
pub mod track;
pub mod update;
pub mod wire;
pub mod write_version;
