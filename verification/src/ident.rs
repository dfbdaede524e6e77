//! Fresh identifiers for stored records.

use vstd::prelude::*;

verus! {

/// `uuid::Uuid::new_v4`, in the hyphenated text form that `to_string`
/// gives. The identifier is random: nothing is claimed of it.
#[verifier::external_body]
pub(crate) fn fresh_id() -> (id: String) {
    uuid::Uuid::new_v4().to_string()
}

} // verus!
