//! Building strings.

use vstd::prelude::*;
use vstd::string::StringExecFns;

verus! {

/// Joins two strings.
pub fn concat(a: &str, b: &str) -> (s: String)
    ensures
        s@ == a@ + b@,
{
    let mut s = a.to_owned();
    s.append(b);
    s
}

/// Joins two strings with another one between them.
pub fn concat_with(a: &str, separator: &str, b: &str) -> (s: String)
    ensures
        s@ == a@ + separator@ + b@,
{
    let mut s = concat(a, separator);
    s.append(b);
    s
}

} // verus!
