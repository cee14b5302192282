//! Backward scanning of a chain's history for token transfers.
//!
//! The library decides and computes; it does not talk to a node. A caller
//! fetches blocks and receipts, hands them over as plain values, and gets
//! back what to do next and what was found.

pub mod amount;
pub mod chain;
pub mod extract;
pub mod filter;
pub mod locator;
pub mod scanner;
