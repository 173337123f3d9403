//! Small text builders shared by the session modules.
use vstd::prelude::*;

verus! {

/// `prefix` followed by `rest`.
pub fn joined(prefix: &str, rest: &str) -> (r: String)
    ensures
        r@ == prefix@ + rest@,
{
    let mut s = prefix.to_owned();
    s.append(rest);
    s
}

/// `prefix`, then `middle`, then `suffix`.
pub fn joined3(prefix: &str, middle: &str, suffix: &str) -> (r: String)
    ensures
        r@ == prefix@ + middle@ + suffix@,
{
    let mut s = prefix.to_owned();
    s.append(middle);
    s.append(suffix);
    s
}

/// Relies on `uuid::Uuid::new_v4` and the `Display` of `uuid::Uuid`: a random
/// identifier in the 36-character hyphenated form. `new_v4` panics only where
/// the system's random source fails.
#[verifier::external_body]
pub(crate) fn new_unique_id() -> (r: String)
    ensures
        r@.len() == 36,
{
    uuid::Uuid::new_v4().to_string()
}

} // verus!
