use vstd::prelude::*;

verus! {

/// A JSON document carried through the store as Presence member data.
#[verifier::external_type_specification]
#[verifier::external_body]
pub struct ExJsonValue(serde_json::Value);

/// Copies optional member data.
///
/// Calls `Clone::clone` of `Option<serde_json::Value>`; the contract claims the
/// copy equals the original (the derived clone copies the whole document).
#[verifier::external_body]
pub(crate) fn clone_data(data: &Option<serde_json::Value>) -> (r: Option<serde_json::Value>)
    ensures
        r == *data,
{
    data.clone()
}

} // verus!
