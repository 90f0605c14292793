//! Comparisons on string slices.
use vstd::prelude::*;

verus! {

/// Whether two string slices hold the same characters.
pub fn same_text(a: &str, b: &str) -> (r: bool)
    ensures
        r == (a@ == b@),
{
    a.to_owned() == b.to_owned()
}

/// Whether a string slice holds no characters.
pub fn is_blank(a: &str) -> (r: bool)
    ensures
        r == (a@.len() == 0),
{
    a.is_empty()
}

} // verus!
