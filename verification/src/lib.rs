//! Core logic of a UDP round-trip loss probe.
//!
//! A probe sends fixed-size datagrams carrying a sequence number to a
//! responder and classifies each round trip as delivered or missed, driven
//! by a per-message timeout derived from the configured send rate. This
//! crate holds the verified core: the payload codec, the round-trip state
//! machine, the probe sequencing, and the statistics aggregator. Binding
//! sockets, awaiting datagrams and rendering live statistics are left to a
//! thin driver around this library.

pub mod codec;
pub mod probe;
pub mod roundtrip;
pub mod stats;
