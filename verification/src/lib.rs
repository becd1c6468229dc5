//! Per-wallet realized and unrealized profit-and-loss for NFT trading.
//!
//! Two time-ordered event streams, asset trades and collection floor-price
//! updates, are merged into one chronological processing order and replayed
//! against a ledger. Every event yields one snapshot per wallet position it
//! touches.
//!
//! Amounts are whole numbers of the smallest currency unit, held in `i64`.
//! Sums are taken with two's-complement wrap-around: nothing is clamped and
//! nothing is rejected.

pub mod events;
pub mod ledger;
pub mod model;
pub mod nft;
pub mod schedule;
pub mod theorems;
pub mod wallet;
