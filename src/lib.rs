//! An auction registry: a table of lots keyed by 64-bit ids, the rules that
//! accept or refuse a bid, the owner-gated close that hands a lot to its highest
//! bidder, and scans for the most valuable and the most contested lot.
//!
//! Caller identities are explicit parameters; persistence and transport are
//! left to the program that embeds the table.

pub mod identity;
pub mod laws;
pub mod lot;
pub mod store;
pub mod text;
