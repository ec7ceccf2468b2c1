//! Case-insensitive prefix test on strings.
use vstd::prelude::*;

use crate::text::{chars_of, chars_start_with_i, starts_with_ignore_case};

verus! {

/// Prefix test that compares ASCII letters without regard to case.
pub trait StartsWithIgnoreCase: View<V = Seq<char>> {
    fn starts_with_i(&self, pre: &str) -> (r: bool)
        ensures
            r == starts_with_ignore_case(self@, pre@),
    ;
}

impl StartsWithIgnoreCase for String {
    fn starts_with_i(&self, other: &str) -> (r: bool) {
        let s = chars_of(self.as_str());
        let p = chars_of(other);
        chars_start_with_i(s.as_slice(), p.as_slice())
    }
}

impl StartsWithIgnoreCase for &str {
    fn starts_with_i(&self, other: &str) -> (r: bool) {
        let s = chars_of(*self);
        let p = chars_of(other);
        chars_start_with_i(s.as_slice(), p.as_slice())
    }
}

} // verus!
