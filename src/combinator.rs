use vstd::prelude::*;

use crate::address_set::AddressSet;
use crate::error::{unauthorized, ContractError};

verus! {

/// Every child approved. A child that could not be asked (`None`) counts as
/// a denial; with no children the answer is `true`.
pub open spec fn all_approve(answers: Seq<Option<bool>>) -> bool {
    forall|i: int| 0 <= i < answers.len() ==> #[trigger] answers[i] == Some(true)
}

/// Some child approved. A child that could not be asked (`None`) counts as
/// a denial; with no children the answer is `false`.
pub open spec fn any_approves(answers: Seq<Option<bool>>) -> bool {
    exists|i: int| 0 <= i < answers.len() && #[trigger] answers[i] == Some(true)
}

/// The all-of decision on the children's answers.
pub fn decide_all(answers: &Vec<Option<bool>>) -> (r: bool)
    ensures
        r == all_approve(answers@),
{
    let mut i: usize = 0;
    while i < answers.len()
        invariant
            0 <= i <= answers@.len(),
            forall|k: int| 0 <= k < i ==> #[trigger] answers@[k] == Some(true),
        decreases answers@.len() - i,
    {
        match answers[i] {
            Some(true) => {},
            _ => {
                return false;
            },
        }
        i += 1;
    }
    true
}

/// The any-of decision on the children's answers.
pub fn decide_any(answers: &Vec<Option<bool>>) -> (r: bool)
    ensures
        r == any_approves(answers@),
{
    let mut i: usize = 0;
    while i < answers.len()
        invariant
            0 <= i <= answers@.len(),
            forall|k: int| 0 <= k < i ==> #[trigger] answers@[k] != Some(true),
        decreases answers@.len() - i,
    {
        match answers[i] {
            Some(true) => {
                return true;
            },
            _ => {},
        }
        i += 1;
    }
    false
}

/// With no children, all-of approves and any-of denies.
pub proof fn lemma_empty_combinators(answers: Seq<Option<bool>>)
    requires
        answers.len() == 0,
    ensures
        all_approve(answers),
        !any_approves(answers),
{
}

/// The combinators' decisions do not depend on the order in which the
/// children answered: two lists with the same answers give the same
/// decisions.
pub proof fn lemma_decisions_ignore_order(a: Seq<Option<bool>>, b: Seq<Option<bool>>)
    requires
        forall|x: Option<bool>| a.contains(x) <==> b.contains(x),
    ensures
        all_approve(a) == all_approve(b),
        any_approves(a) == any_approves(b),
{
    lemma_all_approve_by_contents(a);
    lemma_all_approve_by_contents(b);
    assert(any_approves(a) <==> a.contains(Some(true)));
    assert(any_approves(b) <==> b.contains(Some(true)));
}

proof fn lemma_all_approve_by_contents(a: Seq<Option<bool>>)
    ensures
        all_approve(a) <==> !a.contains(Some(false)) && !a.contains(None),
{
    if !all_approve(a) {
        let i = choose|i: int| 0 <= i < a.len() && !(#[trigger] a[i] == Some(true));
        match a[i] {
            Some(x) => {
                assert(a.contains(Some(false)));
            },
            None => {
                assert(a.contains(None));
            },
        }
    }
}

/// Adds `addr` to `children` when `caller` is `owner`.
fn add_child_as(owner: &String, children: &mut AddressSet, caller: &String, addr: String) -> (r:
    Result<(), ContractError>)
    requires
        old(children).wf(),
    ensures
        final(children).wf(),
        caller@ != owner@ ==> (r matches Err(ContractError::Unauthorized { .. }))
            && *final(children) == *old(children),
        caller@ == owner@ ==> r is Ok && final(children).members() == old(children).members().insert(
            addr@,
        ),
        caller@ == owner@ && !old(children).has(addr@) ==> final(children).addrs@ == old(children).addrs@.push(addr),
        caller@ == owner@ && old(children).has(addr@) ==> final(children).addrs@ == old(children).addrs@,
{
    if *caller != *owner {
        return Err(unauthorized("Only the parent can change the children"));
    }
    children.insert(addr);
    Ok(())
}

/// Removes `addr` from `children` when `caller` is `owner` and `addr` is a
/// child.
fn remove_child_as(owner: &String, children: &mut AddressSet, caller: &String, addr: &String) -> (r:
    Result<(), ContractError>)
    requires
        old(children).wf(),
    ensures
        final(children).wf(),
        caller@ != owner@ ==> (r matches Err(ContractError::Unauthorized { .. }))
            && *final(children) == *old(children),
        caller@ == owner@ && !old(children).has(addr@) ==> (r matches Err(
            ContractError::NotFound {},
        )) && *final(children) == *old(children),
        caller@ == owner@ && old(children).has(addr@) ==> r is Ok && final(children).members()
            == old(children).members().remove(addr@),
        caller@ == owner@ && old(children).has(addr@) ==> exists|i: int|
            0 <= i < old(children).addrs@.len() && (#[trigger] old(children).addrs@[i])@ == addr@
                && final(children).addrs@ == old(children).addrs@.remove(i),
{
    if *caller != *owner {
        return Err(unauthorized("Only the parent can change the children"));
    }
    if !children.contains(addr) {
        return Err(ContractError::NotFound {});
    }
    children.remove(addr);
    Ok(())
}

/// A combinator that approves when every child approves.
pub struct AndContract {
    /// The account that administers the children.
    pub parent: String,
    pub children: AddressSet,
}

/// A combinator that approves when at least one child approves.
pub struct OrContract {
    /// The account that administers the children.
    pub parent: String,
    pub children: AddressSet,
}

impl AndContract {
    pub open spec fn wf(&self) -> bool {
        self.children.wf()
    }

    /// A combinator administered by `parent` with no children.
    pub fn new(parent: String) -> (r: AndContract)
        ensures
            r.wf(),
            r.parent == parent,
            r.children.addrs@.len() == 0,
    {
        AndContract { parent, children: AddressSet::new() }
    }

    /// A combinator administered by `parent` with the given children.
    pub fn instantiate(parent: String, children: Vec<String>) -> (r: AndContract)
        ensures
            r.wf(),
            r.parent == parent,
            forall|a: Seq<char>|
                r.children.has(a) <==> exists|i: int|
                    0 <= i < children@.len() && (#[trigger] children@[i])@ == a,
    {
        AndContract { parent, children: AddressSet::from_list(children) }
    }

    /// The decision on the answers of the children, in the children's order.
    pub fn is_authorized(&self, answers: &Vec<Option<bool>>) -> (r: bool)
        ensures
            r == all_approve(answers@),
    {
        decide_all(answers)
    }

    /// The children, which a state update is passed on to.
    pub fn get_sub_authorizations(&self) -> (r: Vec<String>)
        ensures
            r@ == self.children.addrs@,
    {
        self.children.to_vec()
    }

    /// Adds a child. Only the parent may do so.
    pub fn add_child(&mut self, caller: &String, addr: String) -> (r: Result<(), ContractError>)
        requires
            old(self).wf(),
        ensures
            final(self).wf(),
            final(self).parent == old(self).parent,
            caller@ != old(self).parent@ ==> (r matches Err(ContractError::Unauthorized { .. }))
                && final(self).children == old(self).children,
            caller@ == old(self).parent@ ==> r is Ok && final(self).children.members() == old(
                self,
            ).children.members().insert(addr@),
            caller@ == old(self).parent@ && !old(self).children.has(addr@) ==> final(self).children.addrs@
                == old(self).children.addrs@.push(addr),
            caller@ == old(self).parent@ && old(self).children.has(addr@) ==> final(self).children.addrs@
                == old(self).children.addrs@,
    {
        add_child_as(&self.parent, &mut self.children, caller, addr)
    }

    /// Removes a child. Only the parent may do so, and only a child can be
    /// removed.
    pub fn remove_child(&mut self, caller: &String, addr: &String) -> (r: Result<(), ContractError>)
        requires
            old(self).wf(),
        ensures
            final(self).wf(),
            final(self).parent == old(self).parent,
            caller@ != old(self).parent@ ==> (r matches Err(ContractError::Unauthorized { .. }))
                && final(self).children == old(self).children,
            caller@ == old(self).parent@ && !old(self).children.has(addr@) ==> (r matches Err(
                ContractError::NotFound {},
            )) && final(self).children == old(self).children,
            caller@ == old(self).parent@ && old(self).children.has(addr@) ==> r is Ok
                && final(self).children.members() == old(self).children.members().remove(addr@),
            caller@ == old(self).parent@ && old(self).children.has(addr@) ==> exists|i: int|
                0 <= i < old(self).children.addrs@.len() && (#[trigger] old(self).children.addrs@[i])@
                    == addr@ && final(self).children.addrs@ == old(self).children.addrs@.remove(i),
    {
        remove_child_as(&self.parent, &mut self.children, caller, addr)
    }
}

impl OrContract {
    pub open spec fn wf(&self) -> bool {
        self.children.wf()
    }

    /// A combinator administered by `parent` with no children.
    pub fn new(parent: String) -> (r: OrContract)
        ensures
            r.wf(),
            r.parent == parent,
            r.children.addrs@.len() == 0,
    {
        OrContract { parent, children: AddressSet::new() }
    }

    /// A combinator administered by `parent` with the given children.
    pub fn instantiate(parent: String, children: Vec<String>) -> (r: OrContract)
        ensures
            r.wf(),
            r.parent == parent,
            forall|a: Seq<char>|
                r.children.has(a) <==> exists|i: int|
                    0 <= i < children@.len() && (#[trigger] children@[i])@ == a,
    {
        OrContract { parent, children: AddressSet::from_list(children) }
    }

    /// The decision on the answers of the children, in the children's order.
    pub fn is_authorized(&self, answers: &Vec<Option<bool>>) -> (r: bool)
        ensures
            r == any_approves(answers@),
    {
        decide_any(answers)
    }

    /// The children, which a state update is passed on to.
    pub fn get_sub_authorizations(&self) -> (r: Vec<String>)
        ensures
            r@ == self.children.addrs@,
    {
        self.children.to_vec()
    }

    /// Adds a child. Only the parent may do so.
    pub fn add_child(&mut self, caller: &String, addr: String) -> (r: Result<(), ContractError>)
        requires
            old(self).wf(),
        ensures
            final(self).wf(),
            final(self).parent == old(self).parent,
            caller@ != old(self).parent@ ==> (r matches Err(ContractError::Unauthorized { .. }))
                && final(self).children == old(self).children,
            caller@ == old(self).parent@ ==> r is Ok && final(self).children.members() == old(
                self,
            ).children.members().insert(addr@),
            caller@ == old(self).parent@ && !old(self).children.has(addr@) ==> final(self).children.addrs@
                == old(self).children.addrs@.push(addr),
            caller@ == old(self).parent@ && old(self).children.has(addr@) ==> final(self).children.addrs@
                == old(self).children.addrs@,
    {
        add_child_as(&self.parent, &mut self.children, caller, addr)
    }

    /// Removes a child. Only the parent may do so, and only a child can be
    /// removed.
    pub fn remove_child(&mut self, caller: &String, addr: &String) -> (r: Result<(), ContractError>)
        requires
            old(self).wf(),
        ensures
            final(self).wf(),
            final(self).parent == old(self).parent,
            caller@ != old(self).parent@ ==> (r matches Err(ContractError::Unauthorized { .. }))
                && final(self).children == old(self).children,
            caller@ == old(self).parent@ && !old(self).children.has(addr@) ==> (r matches Err(
                ContractError::NotFound {},
            )) && final(self).children == old(self).children,
            caller@ == old(self).parent@ && old(self).children.has(addr@) ==> r is Ok
                && final(self).children.members() == old(self).children.members().remove(addr@),
            caller@ == old(self).parent@ && old(self).children.has(addr@) ==> exists|i: int|
                0 <= i < old(self).children.addrs@.len() && (#[trigger] old(self).children.addrs@[i])@
                    == addr@ && final(self).children.addrs@ == old(self).children.addrs@.remove(i),
    {
        remove_child_as(&self.parent, &mut self.children, caller, addr)
    }
}

} // verus!
