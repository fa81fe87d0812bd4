//! Basalt: the verified core of a native Discord client.
//!
//! The gateway state cache and what each event does to it, the reconnect,
//! heartbeat and IDENTIFY/RESUME decisions, the zlib-stream framing, REST
//! routes, paths and rate limits, the send lock and the composer, the
//! message markdown tokenizer and emoji segmenter, log redaction, token
//! envelopes, command-line parsing and the identity the client presents.
//! Where an outside crate does the work (inflate, base64, UTF-8, URL and
//! RFC 3339 parsing), the call sits behind a small trusted wrapper whose
//! contract says what the library relies on.
use vstd::prelude::*;

pub mod text;
pub mod snowflake;
pub mod model;
pub mod opcodes;
pub mod emoji;
pub mod markdown;
pub mod scrub;
pub mod youtube;
pub mod table;
pub mod seqs;
pub mod events;
pub mod state;
pub mod zlib;
pub mod secrets;
pub mod sender;
pub mod connection;
pub mod rest;
pub mod config;
pub mod display;
pub mod media;
pub mod identity;
pub mod timestamps;
pub mod chat;
pub mod keychain;
pub mod icons;

verus! {
} // verus!
