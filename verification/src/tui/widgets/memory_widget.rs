//! Counter rendering of the memory panel.
use vstd::prelude::*;
use crate::numbers::decimal_string;
use crate::text::decimal;

verus! {

/// The counter in decimal, or `n/a` when the platform does not report it.
pub fn display_u64(value: u64, supported: bool) -> (r: String)
    ensures
        r@ == (if supported {
            decimal(value as nat)
        } else {
            "n/a"@
        }),
{
    if supported {
        decimal_string(value)
    } else {
        "n/a".to_string()
    }
}

} // verus!
