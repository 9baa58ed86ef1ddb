use vstd::prelude::*;

verus! {

/// String slices compare equal exactly when they hold the same characters.
/// This gives `str`'s `eq` (the comparison behind `==` on string slices) the
/// contract that the standard library documents for it; it is believed, not
/// proved.
pub assume_specification[ <str as PartialEq>::eq ](a: &str, b: &str) -> (same: bool)
    ensures
        same == (a@ == b@),
;

} // verus!
