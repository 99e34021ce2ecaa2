//! Write receipts: the identifier that a cache row carries.

use vstd::prelude::*;

verus! {

#[verifier::external_type_specification]
#[verifier::external_body]
pub struct ExUuid(uuid::Uuid);

/// Relies on uuid's `Uuid::new_v4`: a fresh random identifier for a new
/// row. Its value is left open.
pub assume_specification[ uuid::Uuid::new_v4 ]() -> uuid::Uuid;

} // verus!
