//! Accounting and risk core of a collateralised lending pool.
pub mod keyed;
pub mod math;
pub mod codec;
pub mod hashing;
pub mod ledger;
pub mod positions;
pub mod pool;
pub mod config;
pub mod events;
