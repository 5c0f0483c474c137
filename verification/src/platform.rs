//! Standard-library types that the verified modules hold without looking inside.
use vstd::prelude::*;

verus! {

/// Declares `std::time::Instant` so that verified code can hold it.
#[verifier::external_type_specification]
#[verifier::external_body]
pub struct ExInstant(std::time::Instant);

/// Declares `std::path::PathBuf` so that verified code can hold it.
#[verifier::external_type_specification]
#[verifier::external_body]
pub struct ExPathBuf(std::path::PathBuf);

} // verus!
