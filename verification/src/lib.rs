//! Arbitration of power to the shared outlets of a workshop.
//!
//! Bookable machines ("masters") and the outlets that depend on them
//! ("slaves") are described by a static [`config::SpacerConfig`]. The
//! [`state::State`] keeps the booking ledger and the queue of delayed
//! shutdowns; it is driven by the messages of a publish/subscribe bus and by
//! a periodic tick, and answers each with the messages that have to be
//! published in turn. Nothing in this crate performs I/O or reads a clock:
//! the embedding program hands in the current time and sends what is
//! returned.

pub mod config;
pub mod state;
pub mod utils;
pub mod web;
