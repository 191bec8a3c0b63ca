//! A pooled-stake lottery: users deposit a fungible token into a shared pool
//! whose principal is forwarded to an external yield source; periodically an
//! authorized triggerer draws a winner among the depositors, weighted by stake
//! size and time in the pool, and the accumulated yield is paid to the winner.
//!
//! The crate holds the verified core: the stake ledger (a slot-indexed arena
//! with generation tags), the supply-pool accountant, the weighted draw engine
//! and the pause/recovery lifecycle rules. Host concerns (message dispatch,
//! persistent storage, the wire protocol to the yield source) stay outside;
//! every operation takes the state and plain values and returns plain values.
pub mod sums;
pub mod state;
pub mod arena;
pub mod users;
pub mod rng;
pub mod msg;
pub mod utils;
pub mod contract;
pub mod laws;
