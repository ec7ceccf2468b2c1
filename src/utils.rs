//! Small decisions on file names.
use vstd::prelude::*;

use crate::text::chars_of;

verus! {

/// Whether a file name starts with a dot.
pub fn is_hidden(file_name: &str) -> (r: bool)
    ensures
        r == (file_name@.len() > 0 && file_name@[0] == '.'),
{
    let s = chars_of(file_name);
    s.len() > 0 && s[0] == '.'
}

/// Whether `name` is one of `names`.
pub fn is_listed(names: &Vec<String>, name: &str) -> (r: bool)
    ensures
        r == exists|i: int| 0 <= i < names@.len() && (#[trigger] names@[i])@ == name@,
{
    let owned = name.to_owned();
    let mut i: usize = 0;
    while i < names.len()
        invariant
            owned@ == name@,
            i <= names@.len(),
            forall|k: int| 0 <= k < i ==> (#[trigger] names@[k])@ != name@,
        decreases names@.len() - i,
    {
        if names[i] == owned {
            return true;
        }
        i = i + 1;
    }
    false
}

} // verus!
