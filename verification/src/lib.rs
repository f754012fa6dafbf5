//! Streaming-response reassembly and conversation-turn engine.
//!
//! The library turns an arbitrarily chunked byte stream of newline-delimited
//! records into decoded records, folds per-token records into completed
//! conversation turns, keeps the ordered turn history, and drives the
//! interactive request/response loop as a verified state machine.

pub mod accumulator;
pub mod codec;
pub mod conversation;
pub mod errors;
pub mod framing;
pub mod gitinfo;
pub mod laws;
pub mod reassembler;
pub mod record;
pub mod session;
pub mod textops;
pub mod toolcall;
