use vstd::prelude::*;

use crate::address_set::AddressSet;
use crate::error::{unauthorized, ContractError};

verus! {

/// A leaf module that authorizes exactly the accounts it holds, whatever the
/// operations.
pub struct AllowList {
    /// The account that administers the list.
    pub dao: String,
    pub members: AddressSet,
}

impl AllowList {
    pub open spec fn wf(&self) -> bool {
        self.members.wf()
    }

    /// An empty list administered by `dao`.
    pub fn new(dao: String) -> (r: AllowList)
        ensures
            r.wf(),
            r.dao == dao,
            r.members.members() == Set::<Seq<char>>::empty(),
    {
        AllowList { dao, members: AddressSet::new() }
    }

    /// Whether `sender` is a member.
    pub fn is_authorized(&self, sender: &String) -> (r: bool)
        ensures
            r == self.members.has(sender@),
    {
        self.members.contains(sender)
    }

    /// Adds `addr` to the list. Only the owner may do so.
    pub fn allow(&mut self, caller: &String, addr: String) -> (r: Result<(), ContractError>)
        requires
            old(self).wf(),
        ensures
            final(self).wf(),
            final(self).dao == old(self).dao,
            caller@ != old(self).dao@ ==> (r matches Err(ContractError::Unauthorized { .. }))
                && final(self).members == old(self).members,
            caller@ == old(self).dao@ ==> r is Ok && final(self).members.members() == old(
                self,
            ).members.members().insert(addr@),
    {
        if *caller != self.dao {
            return Err(unauthorized("Only the dao can change the allow list"));
        }
        self.members.insert(addr);
        Ok(())
    }

    /// Removes `addr` from the list. Only the owner may do so, and only a
    /// member can be removed.
    pub fn disallow(&mut self, caller: &String, addr: &String) -> (r: Result<(), ContractError>)
        requires
            old(self).wf(),
        ensures
            final(self).wf(),
            final(self).dao == old(self).dao,
            caller@ != old(self).dao@ ==> (r matches Err(ContractError::Unauthorized { .. }))
                && final(self).members == old(self).members,
            caller@ == old(self).dao@ && !old(self).members.has(addr@) ==> (r matches Err(
                ContractError::NotFound {},
            )) && final(self).members == old(self).members,
            caller@ == old(self).dao@ && old(self).members.has(addr@) ==> r is Ok
                && final(self).members.members() == old(self).members.members().remove(addr@),
    {
        if *caller != self.dao {
            return Err(unauthorized("Only the dao can change the allow list"));
        }
        if !self.members.contains(addr) {
            return Err(ContractError::NotFound {});
        }
        self.members.remove(addr);
        Ok(())
    }
}

} // verus!
