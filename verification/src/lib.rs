//! Core of a BitTorrent download client: the piece-exchange engine.
//!
//! The library holds the verified logic of the client: the message codec and
//! framing reader for the peer wire protocol, the bitfield availability test,
//! the FIFO queue of outstanding piece indices, the per-peer session state
//! machine with its fault and choke budgets, the SHA-1 integrity check of
//! assembled pieces, the download progress counter, and the tracker URL
//! construction. Socket and tracker I/O live outside the library and hand it
//! plain values.

use vstd::prelude::*;

pub mod bitfield;
pub mod coordinator;
pub mod framer;
pub mod integrity;
pub mod messages;
pub mod queue;
pub mod session;
pub mod status;
pub mod text;
pub mod torrent;
pub mod tracker;

verus! {

/// Size in bytes of one request/response block of a piece.
pub const BLOCK_SIZE: usize = 16384;

} // verus!
