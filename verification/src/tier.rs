//! Partition of the identifier space into authority tiers.
//!
//! Identifiers live in `[LOW_TIER_START, TIER_SPACE_END)` and are split into
//! three disjoint, contiguous ranges. Each range is allocated by the holder of
//! one authority key. The boundaries are deployment constants, kept out of the
//! validation logic itself.

use vstd::prelude::*;

verus! {

/// First valid identifier, and the start of the low tier.
pub const LOW_TIER_START: u64 = 1;
/// Start of the medium tier (exclusive end of the low tier).
pub const MEDIUM_TIER_START: u64 = 100_000;
/// Start of the high tier (exclusive end of the medium tier).
pub const HIGH_TIER_START: u64 = 1_000_000;
/// Exclusive end of the identifier space.
pub const TIER_SPACE_END: u64 = 1_000_000_000;

/// The classification of an identifier: one of the three tiers, or outside
/// the identifier space altogether.
#[derive(Clone, Copy, PartialEq, Eq, Structural, Debug)]
pub enum Tier {
    Low,
    Medium,
    High,
    Invalid,
}

/// The authority key required to allocate within a tier.
#[derive(Clone, Copy, PartialEq, Eq, Structural, Debug)]
pub enum AuthorityLevel {
    Low,
    Medium,
    High,
}

/// Which tier an identifier belongs to; `Tier::Invalid` outside the space.
pub open spec fn spec_classify(id: u64) -> Tier {
    if id < LOW_TIER_START {
        Tier::Invalid
    } else if id < MEDIUM_TIER_START {
        Tier::Low
    } else if id < HIGH_TIER_START {
        Tier::Medium
    } else if id < TIER_SPACE_END {
        Tier::High
    } else {
        Tier::Invalid
    }
}

/// The authority level that may allocate within a tier; an invalid
/// identifier has no authority at all.
pub open spec fn spec_required_authority(t: Tier) -> Option<AuthorityLevel> {
    match t {
        Tier::Low => Some(AuthorityLevel::Low),
        Tier::Medium => Some(AuthorityLevel::Medium),
        Tier::High => Some(AuthorityLevel::High),
        Tier::Invalid => None,
    }
}

/// Classify an identifier by the configured tier boundaries.
pub fn classify(id: u64) -> (t: Tier)
    ensures
        t == spec_classify(id),
{
    if id < LOW_TIER_START {
        Tier::Invalid
    } else if id < MEDIUM_TIER_START {
        Tier::Low
    } else if id < HIGH_TIER_START {
        Tier::Medium
    } else if id < TIER_SPACE_END {
        Tier::High
    } else {
        Tier::Invalid
    }
}

/// Look up the authority level a tier requires.
pub fn required_authority(t: Tier) -> (r: Option<AuthorityLevel>)
    ensures
        r == spec_required_authority(t),
{
    match t {
        Tier::Low => Some(AuthorityLevel::Low),
        Tier::Medium => Some(AuthorityLevel::Medium),
        Tier::High => Some(AuthorityLevel::High),
        Tier::Invalid => None,
    }
}

} // verus!
