use vstd::prelude::*;

use crate::address_set::AddressSet;
use crate::error::{unauthorized, ContractError};
use crate::msg::InstantiateMsg;
use crate::network::{all_carry, answer, deliveries_to_all, views, Network, Notification, MAX_DEPTH};
use crate::value::Value;

verus! {

/// The owner of an authorization manager.
pub struct Config {
    /// The account (the organization) that administers the manager and that
    /// carries out approved operations.
    pub dao: String,
}

/// The root of an authorization tree, which decides whether the organization
/// may carry out an operation batch.
pub struct AuthorizationMiddlewareContract {
    pub config: Config,
    /// The root modules; a batch is approved when any of them approves it.
    pub authorizations: AddressSet,
}

/// An approved execution: where to forward the operations, and the state
/// updates that were sent through the tree.
#[derive(Debug)]
pub struct Execution {
    pub dao: String,
    pub notifications: Vec<Notification>,
}

impl AuthorizationMiddlewareContract {
    pub open spec fn wf(&self) -> bool {
        self.authorizations.wf()
    }

    /// The manager's decision: with no root modules nothing is approved;
    /// otherwise a batch is approved when some root module approves it. A
    /// root that cannot answer counts as a denial.
    pub open spec fn decision(&self, net: Network, ops: Seq<Value>, sender: Seq<char>) -> bool {
        &&& self.authorizations.addrs@.len() > 0
        &&& exists|i: int|
            0 <= i < self.authorizations.addrs@.len() && answer(
                net,
                (#[trigger] self.authorizations.addrs@[i])@,
                ops,
                sender,
                MAX_DEPTH as nat,
            ) == Some(true)
    }

    /// A manager owned by `dao` (the account that creates it), with no root
    /// modules.
    pub fn new(dao: String) -> (r: AuthorizationMiddlewareContract)
        ensures
            r.wf(),
            r.config.dao == dao,
            r.authorizations.addrs@.len() == 0,
    {
        AuthorizationMiddlewareContract { config: Config { dao }, authorizations: AddressSet::new() }
    }

    /// The manager created by `sender` with `msg`: `sender` owns it.
    pub fn instantiate(sender: String, msg: InstantiateMsg) -> (r: AuthorizationMiddlewareContract)
        ensures
            r.wf(),
            r.config.dao == sender,
            r.authorizations.addrs@.len() == 0,
    {
        let InstantiateMsg {} = msg;
        AuthorizationMiddlewareContract::new(sender)
    }

    /// Whether `sender` may run `msgs`, as the modules of `net` decide.
    #[verifier::loop_isolation(false)]
    pub fn is_authorized(&self, net: &Network, msgs: &Vec<Value>, sender: &String) -> (r: bool)
        requires
            net.wf(),
        ensures
            r == self.decision(*net, msgs@, sender@),
    {
        let roots = &self.authorizations.addrs;
        if roots.len() == 0 {
            return false;
        }
        let mut i: usize = 0;
        while i < roots.len()
            invariant
                0 <= i <= roots@.len(),
                net.wf(),
                forall|k: int|
                    0 <= k < i ==> answer(
                        *net,
                        (#[trigger] roots@[k])@,
                        msgs@,
                        sender@,
                        MAX_DEPTH as nat,
                    ) != Some(true),
            decreases roots@.len() - i,
        {
            if net.query(&roots[i], msgs, sender, MAX_DEPTH) == Some(true) {
                return true;
            }
            i += 1;
        }
        false
    }

    /// Adds a root module. Only the owner may do so.
    pub fn add_authorization(&mut self, caller: &String, addr: String) -> (r: Result<
        (),
        ContractError,
    >)
        requires
            old(self).wf(),
        ensures
            final(self).wf(),
            final(self).config == old(self).config,
            caller@ != old(self).config.dao@ ==> (r matches Err(ContractError::Unauthorized { .. }))
                && final(self).authorizations == old(self).authorizations,
            caller@ == old(self).config.dao@ ==> r is Ok && final(self).authorizations.members()
                == old(self).authorizations.members().insert(addr@),
            caller@ == old(self).config.dao@ && !old(self).authorizations.has(addr@) ==> final(self).authorizations.addrs@ == old(self).authorizations.addrs@.push(addr),
            caller@ == old(self).config.dao@ && old(self).authorizations.has(addr@) ==> final(self).authorizations.addrs@ == old(self).authorizations.addrs@,
    {
        if *caller != self.config.dao {
            return Err(unauthorized("Sender can't add authorization."));
        }
        self.authorizations.insert(addr);
        Ok(())
    }

    /// Removes a root module. Only the owner may do so, and only a root
    /// module can be removed.
    pub fn remove_authorization(&mut self, caller: &String, addr: &String) -> (r: Result<
        (),
        ContractError,
    >)
        requires
            old(self).wf(),
        ensures
            final(self).wf(),
            final(self).config == old(self).config,
            caller@ != old(self).config.dao@ ==> (r matches Err(ContractError::Unauthorized { .. }))
                && final(self).authorizations == old(self).authorizations,
            caller@ == old(self).config.dao@ && !old(self).authorizations.has(addr@) ==> (r matches Err(
                ContractError::NotFound {},
            )) && final(self).authorizations == old(self).authorizations,
            caller@ == old(self).config.dao@ && old(self).authorizations.has(addr@) ==> r is Ok
                && final(self).authorizations.members() == old(self).authorizations.members().remove(
                addr@,
            ),
            caller@ == old(self).config.dao@ && old(self).authorizations.has(addr@) ==> exists|i: int|
                0 <= i < old(self).authorizations.addrs@.len()
                    && (#[trigger] old(self).authorizations.addrs@[i])@ == addr@ && final(self).authorizations.addrs@ == old(self).authorizations.addrs@.remove(i),
    {
        if *caller != self.config.dao {
            return Err(unauthorized("Sender can't remove authorization."));
        }
        if !self.authorizations.contains(addr) {
            return Err(ContractError::NotFound {});
        }
        self.authorizations.remove(addr);
        Ok(())
    }

    /// Makes `addr` the only root module. Only the owner may do so.
    pub fn set_authorization(&mut self, caller: &String, addr: String) -> (r: Result<
        (),
        ContractError,
    >)
        requires
            old(self).wf(),
        ensures
            final(self).wf(),
            final(self).config == old(self).config,
            caller@ != old(self).config.dao@ ==> (r matches Err(ContractError::Unauthorized { .. }))
                && final(self).authorizations == old(self).authorizations,
            caller@ == old(self).config.dao@ ==> r is Ok && final(self).authorizations.addrs@.len()
                == 1 && final(self).authorizations.addrs@[0] == addr,
    {
        if *caller != self.config.dao {
            return Err(unauthorized("Sender can't set authorization."));
        }
        let mut roots = AddressSet::new();
        roots.insert(addr);
        self.authorizations = roots;
        Ok(())
    }

    /// Hands the manager to `new_dao`. Only the owner may do so.
    pub fn replace_owner(&mut self, caller: &String, new_dao: String) -> (r: Result<
        (),
        ContractError,
    >)
        requires
            old(self).wf(),
        ensures
            final(self).wf(),
            final(self).authorizations == old(self).authorizations,
            caller@ != old(self).config.dao@ ==> (r matches Err(ContractError::Unauthorized { .. }))
                && final(self).config == old(self).config,
            caller@ == old(self).config.dao@ ==> r is Ok && final(self).config.dao == new_dao,
    {
        if *caller != self.config.dao {
            return Err(unauthorized("Only the dao can replace the owner"));
        }
        self.config.dao = new_dao;
        Ok(())
    }

    /// Authorizes `msgs` for `sender`, who sends them, and on approval
    /// passes a state update for `msgs` and `sender` from `self_addr` (this
    /// manager's own address) to every root module, ignoring failures; the
    /// caller then forwards the operations to the organization.
    pub fn execute_proposal(
        &self,
        net: &Network,
        self_addr: &String,
        msgs: &Vec<Value>,
        sender: &String,
    ) -> (r: Result<Execution, ContractError>)
        requires
            net.wf(),
        ensures
            msgs@.len() == 0 ==> (r matches Err(ContractError::InvalidRequest {})),
            msgs@.len() > 0 && !self.decision(*net, msgs@, sender@) ==> (r matches Err(
                ContractError::Unauthorized { .. },
            )),
            msgs@.len() > 0 && self.decision(*net, msgs@, sender@) ==> (r matches Ok(e) && e.dao
                == self.config.dao && views(e.notifications@) == deliveries_to_all(
                *net,
                self_addr@,
                self.authorizations.addrs@,
                sender@,
                MAX_DEPTH as nat,
            ) && all_carry(e.notifications@, msgs@, sender@)),
    {
        if msgs.len() == 0 {
            return Err(ContractError::InvalidRequest {});
        }
        if !self.is_authorized(net, msgs, sender) {
            return Err(unauthorized("No authorization approved the operations"));
        }
        let notifications = net.propagate(self_addr, &self.authorizations.addrs, msgs, sender);
        Ok(Execution { dao: self.config.dao.clone(), notifications })
    }
}

/// A manager with no root modules denies every request.
pub proof fn lemma_unconfigured_manager_denies(
    m: AuthorizationMiddlewareContract,
    net: Network,
    ops: Seq<Value>,
    sender: Seq<char>,
)
    requires
        m.authorizations.addrs@.len() == 0,
    ensures
        !m.decision(net, ops, sender),
{
}

} // verus!
