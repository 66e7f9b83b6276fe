use vstd::prelude::*;

verus! {

/// Why a request to a module failed.
///
/// A query that simply evaluates to "not authorized" is no error: it is the
/// answer `false`.
#[derive(Debug)]
pub enum ContractError {
    /// The caller may not perform this action, with a reason for people.
    Unauthorized { reason: String },
    /// An operation or a pattern could not be read as a structural value.
    MalformedInput { reason: String },
    /// The record, member or child to remove does not exist.
    NotFound {},
    /// The request is not well formed, such as an empty operation batch.
    InvalidRequest {},
}

/// The `Unauthorized` error with the given reason.
pub fn unauthorized(reason: &str) -> (r: ContractError)
    ensures
        r matches ContractError::Unauthorized { reason: s } && s@ == reason@,
{
    ContractError::Unauthorized { reason: reason.to_owned() }
}

} // verus!
