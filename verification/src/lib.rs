//! Brave-chain evaluation: every distinct play order of a three-card hand,
//! the damage and resource gains of each order, and their rankings.
//!
//! All quantities are exact fixed-point integers counted in thousandths.

pub mod card;
pub mod formula;
pub mod parse;
pub mod permute;
pub mod cache;
pub mod rank;
