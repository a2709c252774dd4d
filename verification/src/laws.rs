//! Laws of the library: what its operations promise about their inputs and results, stated over the
//! contracts of the executable functions.

pub mod authentication;
pub mod batches;
pub mod congestion;
pub mod ecn;
pub mod flow;
pub mod handshake;
pub mod linux;
pub mod multipath;
pub mod numbers;
pub mod objects;
pub mod portable;
pub mod protection;
pub mod queues;
pub mod reassembly;
pub mod recovery;
pub mod retry;
pub mod schedule;
pub mod timers;
pub mod transcript;
pub mod wire;
