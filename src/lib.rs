//! An escrow ledger that commits pooled funds to packages earmarked for
//! recipients, and releases, cancels or refunds them.
pub mod laws;
pub mod lemmas;
pub mod model;
pub mod escrow;
pub mod types;

pub use escrow::AidEscrow;
pub use types::{Address, Aggregates, Config, Error, Package, PackageStatus, Payout};
