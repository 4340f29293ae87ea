//! Time-decayed voting-power accounting for token locks: period arithmetic,
//! the lock coefficient, rounded fixed-point multiplication, the linear decay
//! of checkpoints, per-account checkpoint logs and the global slope-change
//! schedule.

pub mod error;
pub mod decimal;
pub mod escrow;
pub mod guard;
pub mod history;
pub mod keys;
pub mod ledger;
pub mod math;
pub mod point;
