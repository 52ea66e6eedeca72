//! Token savings: how many tokens a compact answer saves over the raw files.
use vstd::prelude::*;

verus! {

/// Bytes per token in the estimate.
pub const BYTES_PER_TOKEN: usize = 4;

/// The tokens saved: the bytes not sent, four to a token.
pub open spec fn savings(raw_bytes: nat, response_bytes: nat) -> nat {
    if raw_bytes > response_bytes { ((raw_bytes - response_bytes) / 4) as nat } else { 0 }
}

/// Estimate tokens saved: (raw - response) / bytes_per_token.
pub fn estimate_savings(raw_bytes: usize, response_bytes: usize) -> (r: usize)
    ensures
        r == savings(raw_bytes as nat, response_bytes as nat),
{
    if raw_bytes > response_bytes {
        (raw_bytes - response_bytes) / BYTES_PER_TOKEN
    } else {
        0
    }
}

/// A larger answer never saves more: savings fall as the response grows.
pub proof fn law_savings_monotone(raw_bytes: nat, r1: nat, r2: nat)
    requires
        r1 <= r2,
    ensures
        savings(raw_bytes, r2) <= savings(raw_bytes, r1),
{
    if raw_bytes > r2 {
        assert((raw_bytes - r2) / 4 <= (raw_bytes - r1) / 4) by (nonlinear_arith)
            requires
                raw_bytes - r2 <= raw_bytes - r1,
                raw_bytes - r2 >= 0;
    }
}

} // verus!
