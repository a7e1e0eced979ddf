use vstd::prelude::*;

verus! {

/// Identity of an account (a contract caller or a policy owner).
pub type AccountId = u64;

/// Page size used when a caller asks for a page of `0` items (a value this
/// library chooses).
pub const DEFAULT_PAGE_LIMIT: u32 = 20;

/// Largest page size any paginated read hands out (a value this library
/// chooses).
pub const MAX_PAGE_LIMIT: u32 = 50;

/// Largest number of items a batch operation accepts (a value this library
/// chooses).
pub const MAX_BATCH_SIZE: u32 = 50;

/// Kinds of insurance coverage.
#[derive(Clone, Copy, Debug, PartialEq, Eq, Structural)]
pub enum CoverageType {
    Health,
    Life,
    Property,
    Auto,
    Liability,
}

/// The page size actually used for a requested `limit`.
pub open spec fn clamp_limit_spec(limit: u32) -> u32 {
    if limit == 0 {
        DEFAULT_PAGE_LIMIT
    } else if limit > MAX_PAGE_LIMIT {
        MAX_PAGE_LIMIT
    } else {
        limit
    }
}

/// Normalises a requested page size: `0` selects the default, sizes above the
/// maximum are capped, and everything else passes through unchanged.
pub fn clamp_limit(limit: u32) -> (clamped: u32)
    ensures
        clamped == clamp_limit_spec(limit),
        1 <= clamped <= MAX_PAGE_LIMIT,
{
    if limit == 0 {
        DEFAULT_PAGE_LIMIT
    } else if limit > MAX_PAGE_LIMIT {
        MAX_PAGE_LIMIT
    } else {
        limit
    }
}

/// Normalising a page size twice changes nothing, and the normalised size is
/// always within `1..=MAX_PAGE_LIMIT`.
pub proof fn lemma_clamp_limit_idempotent(limit: u32)
    ensures
        1 <= clamp_limit_spec(limit) <= MAX_PAGE_LIMIT,
        clamp_limit_spec(clamp_limit_spec(limit)) == clamp_limit_spec(limit),
{
}

} // verus!
