//! A bonding-curve exchange: a reserve asset is traded for a synthetic token
//! at a price fixed by the pool's own supply and balance counters, with a
//! connector weight of one half.
//!
//! - `fixed`: the fixed-point arithmetic, done by `substrate_fixed`;
//! - `pricing`: the purchase and the sale formula;
//! - `round_trip`: what a purchase that is sold back at once can return;
//! - `curve`: the pool's counters and the transitions on them;
//! - `ledger`: the sum of the token holdings;
//! - `exchange`: the exchange as a state machine, and what holds of it;
//! - `pallet`: the exchange that runs.

pub mod curve;
pub mod exchange;
pub mod fixed;
pub mod ledger;
pub mod pallet;
pub mod pricing;
pub mod round_trip;

pub use crate::curve::{CurveState, Error, Trade};
pub use crate::exchange::Event;
pub use crate::ledger::AccountId;
pub use crate::pallet::Pallet;
