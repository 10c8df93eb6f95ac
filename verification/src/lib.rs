//! Core of a live quiz server: the question bank and scoring rules, the
//! quiz state machine that a single sequential owner drives, the ranking
//! computation, the broadcast registry for connected clients, and the JSON
//! encoding of events and state snapshots.
//!
//! Everything here is synchronous and free of I/O; the surrounding
//! application owns the queues, the console and the HTTP transport and calls
//! into this crate for every decision about quiz state.

pub mod broadcast;
pub mod codec;
pub mod error;
pub mod parse;
pub mod question;
pub mod rank;
pub mod state;
pub mod status;
