//! Server-authoritative state synchronisation over an unreliable datagram
//! transport.
//!
//! The crate keeps many remote observers eventually consistent with a single
//! mutating world: a binary wire codec ([`wire`]), the authoritative world
//! model ([`world`]), a credit-decay broadcast scheduler with its subscription
//! table ([`sched`], [`server`]), and the client-side scene table the decoded
//! snapshots are folded into ([`scene`]).
//!
//! Locations travel as IEEE-754 single-precision bit patterns (`u32`), and
//! remote addresses as opaque `u64` tokens; the transport layer owns the
//! sockets and the real address values. [`table`] holds the keyed table the
//! three mappings share; [`grid`] and [`movetree`] carry the board-side
//! helpers: a character-grid scanner and a JSON game-tree loader.

pub mod grid;
pub mod movetree;
pub mod sched;
pub mod server;
pub mod scene;
pub mod world;
pub mod table;
pub mod wire;
