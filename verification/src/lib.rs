//! A tiered-authority identifier registry.
//!
//! The library allocates unique numeric identifiers ("CIDs") to accounts,
//! restricts who may allocate which identifier ranges, and lets the current
//! owner of an identifier attach a small set of typed metadata records
//! ("bonds") to it. It also carries the one-time migration from a single
//! legacy admin key to the three-tier key scheme.

pub mod bond;
pub mod host;
pub mod laws;
pub mod registry;
pub mod tier;
