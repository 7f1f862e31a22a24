//! Checks a pnpm lockfile for the presence of packages at given versions.
//!
//! The lockfile is modelled as plain data and scanned by the locator
//! (`lock`), and the results are reconciled against expected versions
//! (`classify`). Batch lists of packages come from `batch`, the
//! machine-readable report rows from `report`, and the version and key
//! string handling from `version` and `keys`. `strutil` holds the verified
//! string routines that everything else builds on.

pub mod batch;
pub mod classify;
pub mod keys;
pub mod lock;
pub mod report;
pub mod strutil;
pub mod version;
