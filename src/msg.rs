use vstd::prelude::*;

verus! {

/// The message that creates an authorization manager; the account that
/// sends it becomes the owner.
#[derive(Debug)]
pub struct InstantiateMsg {}

/// The answer to an authorization query.
#[derive(Debug)]
pub struct IsAuthorizedResponse {
    pub authorized: bool,
}

} // verus!
