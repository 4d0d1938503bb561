//! Streaming ACN (ANSI E1.31-2018) packet handling, receiver and source logic.
//!
//! The packet layer parses and packs sACN packets byte for byte; the receiver
//! and source modules hold the protocol state machines (universe
//! synchronisation, universe discovery, sequence numbering) as plain values so
//! that the networking layer only has to move bytes.
use vstd::prelude::*;

pub mod codec;
pub mod commands;
pub mod console;
pub mod discovery_laws;
pub mod error;
pub mod packet;
pub mod packet_laws;
pub mod receive;
pub mod receive_laws;
pub mod source;
pub mod source_laws;
pub mod universe_set;
pub mod wire_laws;

verus! {

} // verus!
