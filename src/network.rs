use vstd::prelude::*;

use crate::allow_list::AllowList;
use crate::combinator::{AndContract, OrContract};
use crate::error::{unauthorized, ContractError};
use crate::message_filter::{filter_decision, is_first_record, MessageFilter};
use crate::msg::IsAuthorizedResponse;
use crate::value::{copy_values, same_values, Value};

verus! {

/// How deep a query or a state update may reach into the tree of modules.
/// A request that would go deeper fails, as a request round a cycle of
/// modules does.
pub const MAX_DEPTH: usize = 16;

/// A module of an authorization tree.
pub enum Module {
    AllowList(AllowList),
    MessageFilter(MessageFilter),
    AllOf(AndContract),
    AnyOf(OrContract),
}

/// The module's internal invariant holds.
pub open spec fn module_wf(m: Module) -> bool {
    match m {
        Module::AllowList(l) => l.wf(),
        Module::MessageFilter(_) => true,
        Module::AllOf(c) => c.wf(),
        Module::AnyOf(c) => c.wf(),
    }
}

/// The account that administers the module.
pub open spec fn owner_of(m: Module) -> Seq<char> {
    match m {
        Module::AllowList(l) => l.dao@,
        Module::MessageFilter(f) => f.config.dao@,
        Module::AllOf(c) => c.parent@,
        Module::AnyOf(c) => c.parent@,
    }
}

/// The modules that a state update is passed on to.
pub open spec fn subs_of(m: Module) -> Seq<String> {
    match m {
        Module::AllOf(c) => c.children.addrs@,
        Module::AnyOf(c) => c.children.addrs@,
        _ => Seq::empty(),
    }
}

/// A module takes a state update from `caller` for `sender` when the caller
/// is the sender or the module's owner.
///
/// A module passes an update on as itself, so its children take it only if
/// that module owns them. In a tree whose modules are all owned by the
/// organization, the updates that the manager sends are therefore refused at
/// the first level; those refusals are recorded and ignored.
pub open spec fn accepts_update(m: Module, caller: Seq<char>, sender: Seq<char>) -> bool {
    caller == sender || caller == owner_of(m)
}

/// The modules of an authorization tree, each under its own address.
pub struct Network {
    pub entries: Vec<(String, Module)>,
}

/// One state update sent during propagation: the operations `msgs` that
/// were approved for `sender`, sent by `from` to `to`, and whether the
/// receiving module took it.
#[derive(Debug)]
pub struct Notification {
    pub from: String,
    pub to: String,
    pub accepted: bool,
    pub sender: String,
    pub msgs: Vec<Value>,
}

impl View for Notification {
    type V = (Seq<char>, Seq<char>, bool);

    open spec fn view(&self) -> (Seq<char>, Seq<char>, bool) {
        (self.from@, self.to@, self.accepted)
    }
}

/// The notification `n` carries the operations `msgs` approved for
/// `sender`.
pub open spec fn carries(n: Notification, msgs: Seq<Value>, sender: Seq<char>) -> bool {
    n.sender@ == sender && same_values(n.msgs@, msgs)
}

/// Every notification of `s` carries the operations `msgs` approved for
/// `sender`.
pub open spec fn all_carry(s: Seq<Notification>, msgs: Seq<Value>, sender: Seq<char>) -> bool {
    forall|i: int| 0 <= i < s.len() ==> carries(#[trigger] s[i], msgs, sender)
}

/// The views of a list of notifications.
pub open spec fn views(s: Seq<Notification>) -> Seq<(Seq<char>, Seq<char>, bool)> {
    s.map_values(|n: Notification| n@)
}

impl Network {
    /// Addresses are unique and every module is well formed.
    pub open spec fn wf(&self) -> bool {
        &&& forall|i: int, j: int|
            0 <= i < j < self.entries@.len() ==> (#[trigger] self.entries@[i]).0@ != (
            #[trigger] self.entries@[j]).0@
        &&& forall|i: int| 0 <= i < self.entries@.len() ==> module_wf((#[trigger] self.entries@[i]).1)
    }

    /// A module stands at `addr`.
    pub open spec fn has_module(&self, addr: Seq<char>) -> bool {
        exists|i: int| 0 <= i < self.entries@.len() && (#[trigger] self.entries@[i]).0@ == addr
    }

    /// The module at `addr`.
    pub open spec fn module_at(&self, addr: Seq<char>) -> Module
        recommends
            self.has_module(addr),
    {
        let i = choose|i: int| 0 <= i < self.entries@.len() && (#[trigger] self.entries@[i]).0@ == addr;
        self.entries@[i].1
    }

    proof fn lemma_module_at_index(&self, i: int)
        requires
            self.wf(),
            0 <= i < self.entries@.len(),
        ensures
            self.has_module(self.entries@[i].0@),
            self.module_at(self.entries@[i].0@) == self.entries@[i].1,
    {
        let addr = self.entries@[i].0@;
        assert(self.has_module(addr));
        let k = choose|k: int| 0 <= k < self.entries@.len() && (#[trigger] self.entries@[k]).0@ == addr;
        if k < i {
            assert(self.entries@[k].0@ != self.entries@[i].0@);
        } else if i < k {
            assert(self.entries@[i].0@ != self.entries@[k].0@);
        }
    }

    /// Whether the network is well formed: addresses are unique and every
    /// module keeps its invariant.
    pub fn is_wf(&self) -> (r: bool)
        ensures
            r == self.wf(),
    {
        let n = self.entries.len();
        let mut j: usize = 0;
        while j < n
            invariant
                0 <= j <= n,
                n == self.entries@.len(),
                forall|a: int, b: int|
                    0 <= a < b < j ==> (#[trigger] self.entries@[a]).0@ != (
                    #[trigger] self.entries@[b]).0@,
                forall|a: int| 0 <= a < j ==> module_wf((#[trigger] self.entries@[a]).1),
            decreases n - j,
        {
            let module_ok = match &self.entries[j].1 {
                Module::AllowList(l) => l.members.is_wf(),
                Module::MessageFilter(_) => true,
                Module::AllOf(c) => c.children.is_wf(),
                Module::AnyOf(c) => c.children.is_wf(),
            };
            if !module_ok {
                return false;
            }
            let mut i: usize = 0;
            while i < j
                invariant
                    0 <= i <= j < n,
                    n == self.entries@.len(),
                    forall|a: int, b: int|
                        0 <= a < b < j ==> (#[trigger] self.entries@[a]).0@ != (
                        #[trigger] self.entries@[b]).0@,
                    forall|a: int|
                        0 <= a < i ==> (#[trigger] self.entries@[a]).0@ != self.entries@[j as int].0@,
                decreases j - i,
            {
                if self.entries[i].0 == self.entries[j].0 {
                    return false;
                }
                i += 1;
            }
            j += 1;
        }
        true
    }

    /// A network with no modules.
    pub fn new() -> (r: Network)
        ensures
            r.wf(),
            forall|a: Seq<char>| !r.has_module(a),
    {
        Network { entries: Vec::new() }
    }

    /// The index of the module at `addr`.
    fn find(&self, addr: &String) -> (r: Option<usize>)
        ensures
            r matches Some(i) ==> i < self.entries@.len() && self.entries@[i as int].0@ == addr@,
            r is None <==> !self.has_module(addr@),
    {
        let mut i: usize = 0;
        while i < self.entries.len()
            invariant
                0 <= i <= self.entries@.len(),
                forall|k: int| 0 <= k < i ==> (#[trigger] self.entries@[k]).0@ != addr@,
            decreases self.entries@.len() - i,
        {
            if self.entries[i].0 == *addr {
                return Some(i);
            }
            i += 1;
        }
        None
    }

    /// Puts `module` at `addr`, in place of the module that stood there.
    pub fn register(&mut self, addr: String, module: Module)
        requires
            old(self).wf(),
            module_wf(module),
        ensures
            final(self).wf(),
            final(self).has_module(addr@),
            final(self).module_at(addr@) == module,
            forall|a: Seq<char>|
                a != addr@ ==> (final(self).has_module(a) == old(self).has_module(a) && (old(self).has_module(a) ==> final(self).module_at(a) == old(self).module_at(a))),
    {
        let _ = self.take(&addr);
        let ghost before = *self;
        self.entries.push((addr, module));
        proof {
            let n = before.entries@.len();
            assert(self.entries@[n as int].0@ == addr@);
            assert forall|a: Seq<char>| a != addr@ implies (self.has_module(a) == before.has_module(a)
                && (before.has_module(a) ==> self.module_at(a) == before.module_at(a))) by {
                if before.has_module(a) {
                    let k = choose|k: int| 0 <= k < n && (#[trigger] before.entries@[k]).0@ == a;
                    assert(self.entries@[k] == before.entries@[k]);
                    before.lemma_module_at_index(k);
                    self.lemma_module_at_index(k);
                }
                if self.has_module(a) {
                    let k = choose|k: int| 0 <= k < n + 1 && (#[trigger] self.entries@[k]).0@ == a;
                    assert(before.entries@[k] == self.entries@[k]);
                }
            }
            self.lemma_module_at_index(n as int);
        }
    }

    /// Takes the module at `addr` out of the network.
    pub fn take(&mut self, addr: &String) -> (r: Option<Module>)
        requires
            old(self).wf(),
        ensures
            final(self).wf(),
            r is None <==> !old(self).has_module(addr@),
            r matches Some(m) ==> m == old(self).module_at(addr@) && module_wf(m),
            !final(self).has_module(addr@),
            forall|a: Seq<char>|
                a != addr@ ==> (final(self).has_module(a) == old(self).has_module(a) && (old(self).has_module(a) ==> final(self).module_at(a) == old(self).module_at(a))),
    {
        match self.find(addr) {
            None => {
                assert forall|a: Seq<char>| a != addr@ implies (self.has_module(a) == old(self).has_module(a)
                    && (old(self).has_module(a) ==> self.module_at(a) == old(self).module_at(a))) by {}
                None
            },
            Some(i) => {
                proof {
                    self.lemma_module_at_index(i as int);
                }
                let (_, m) = self.entries.remove(i);
                proof {
                    let old_entries = old(self).entries@;
                    let n = old_entries.len();
                    assert forall|p: int, q: int|
                        0 <= p < q < self.entries@.len() implies (#[trigger] self.entries@[p]).0@ != (
                        #[trigger] self.entries@[q]).0@ by {
                        let p0 = if p < i {
                            p
                        } else {
                            p + 1
                        };
                        let q0 = if q < i {
                            q
                        } else {
                            q + 1
                        };
                        assert(self.entries@[p] == old_entries[p0]);
                        assert(self.entries@[q] == old_entries[q0]);
                    }
                    assert forall|p: int| 0 <= p < self.entries@.len() implies module_wf(
                        (#[trigger] self.entries@[p]).1,
                    ) by {
                        if p < i {
                            assert(self.entries@[p] == old_entries[p]);
                        } else {
                            assert(self.entries@[p] == old_entries[p + 1]);
                        }
                    }
                    assert forall|a: Seq<char>| a != addr@ implies (self.has_module(a) == old(self).has_module(a) && (old(self).has_module(a) ==> self.module_at(a) == old(self).module_at(a))) by {
                        if old(self).has_module(a) {
                            let k = choose|k: int| 0 <= k < n && (#[trigger] old_entries[k]).0@ == a;
                            let k1 = if k < i {
                                k
                            } else {
                                k - 1
                            };
                            assert(k != i);
                            assert(self.entries@[k1] == old_entries[k]);
                            old(self).lemma_module_at_index(k);
                            self.lemma_module_at_index(k1);
                        }
                        if self.has_module(a) {
                            let k = choose|k: int| 0 <= k < n - 1 && (#[trigger] self.entries@[k]).0@ == a;
                            if k < i {
                                assert(old_entries[k] == self.entries@[k]);
                            } else {
                                assert(old_entries[k + 1] == self.entries@[k]);
                            }
                        }
                    }
                    if self.has_module(addr@) {
                        let k = choose|k: int| 0 <= k < n - 1 && (#[trigger] self.entries@[k]).0@ == addr@;
                        if k < i {
                            assert(old_entries[k] == self.entries@[k]);
                        } else {
                            assert(old_entries[k + 1] == self.entries@[k]);
                        }
                    }
                }
                Some(m)
            },
        }
    }
}

/// The answer of the module at `addr` to "may `sender` run `ops`?", with
/// `depth` levels of the tree left to ask. `None` is a module that could not
/// answer: there is none at `addr`, or the depth ran out.
pub open spec fn answer(
    net: Network,
    addr: Seq<char>,
    ops: Seq<Value>,
    sender: Seq<char>,
    depth: nat,
) -> Option<bool>
    decreases depth,
{
    if depth == 0 || !net.has_module(addr) {
        None
    } else {
        match net.module_at(addr) {
            Module::AllowList(l) => Some(l.members.has(sender)),
            Module::MessageFilter(f) => Some(
                filter_decision(f.config.kind, f.allowed@, ops, sender),
            ),
            Module::AllOf(c) => Some(
                forall|i: int|
                    0 <= i < c.children.addrs@.len() ==> answer(
                        net,
                        (#[trigger] c.children.addrs@[i])@,
                        ops,
                        sender,
                        (depth - 1) as nat,
                    ) == Some(true),
            ),
            Module::AnyOf(c) => Some(
                exists|i: int|
                    0 <= i < c.children.addrs@.len() && answer(
                        net,
                        (#[trigger] c.children.addrs@[i])@,
                        ops,
                        sender,
                        (depth - 1) as nat,
                    ) == Some(true),
            ),
        }
    }
}

/// The state updates sent when `from` notifies the module at `to` on
/// behalf of `sender`, with `depth` levels left: the notification itself,
/// then, if the module took it, those that it sends to its own
/// sub-authorizations.
pub open spec fn deliveries(
    net: Network,
    from: Seq<char>,
    to: Seq<char>,
    sender: Seq<char>,
    depth: nat,
) -> Seq<(Seq<char>, Seq<char>, bool)>
    decreases depth + 1, 0int,
{
    if depth == 0 || !net.has_module(to) || !accepts_update(net.module_at(to), from, sender) {
        seq![(from, to, false)]
    } else {
        seq![(from, to, true)] + deliveries_to_all(
            net,
            to,
            subs_of(net.module_at(to)),
            sender,
            (depth - 1) as nat,
        )
    }
}

/// The state updates sent when `from` notifies each of `targets` in turn.
pub open spec fn deliveries_to_all(
    net: Network,
    from: Seq<char>,
    targets: Seq<String>,
    sender: Seq<char>,
    depth: nat,
) -> Seq<(Seq<char>, Seq<char>, bool)>
    decreases depth + 1, targets.len() + 1,
{
    if targets.len() == 0 {
        Seq::empty()
    } else {
        deliveries_to_all(net, from, targets.drop_last(), sender, depth) + deliveries(
            net,
            from,
            targets.last()@,
            sender,
            depth,
        )
    }
}

/// One step of `answer` at an all-of module.
proof fn lemma_all_of_answer(net: Network, addr: Seq<char>, ops: Seq<Value>, sender: Seq<char>, depth: nat)
    requires
        depth > 0,
        net.has_module(addr),
        net.module_at(addr) is AllOf,
    ensures
        answer(net, addr, ops, sender, depth) == Some(
            forall|i: int|
                0 <= i < net.module_at(addr)->AllOf_0.children.addrs@.len() ==> answer(
                    net,
                    (#[trigger] net.module_at(addr)->AllOf_0.children.addrs@[i])@,
                    ops,
                    sender,
                    (depth - 1) as nat,
                ) == Some(true),
        ),
{
}

/// One step of `answer` at an any-of module.
proof fn lemma_any_of_answer(net: Network, addr: Seq<char>, ops: Seq<Value>, sender: Seq<char>, depth: nat)
    requires
        depth > 0,
        net.has_module(addr),
        net.module_at(addr) is AnyOf,
    ensures
        answer(net, addr, ops, sender, depth) == Some(
            exists|i: int|
                0 <= i < net.module_at(addr)->AnyOf_0.children.addrs@.len() && answer(
                    net,
                    (#[trigger] net.module_at(addr)->AnyOf_0.children.addrs@[i])@,
                    ops,
                    sender,
                    (depth - 1) as nat,
                ) == Some(true),
        ),
{
}

impl Network {
    /// Asks the module at `addr` whether `sender` may run `msgs`.
    pub fn query(&self, addr: &String, msgs: &Vec<Value>, sender: &String, depth: usize) -> (r:
        Option<bool>)
        requires
            self.wf(),
        ensures
            r == answer(*self, addr@, msgs@, sender@, depth as nat),
        decreases depth, 1int,
    {
        if depth == 0 {
            return None;
        }
        match self.find(addr) {
            None => None,
            Some(i) => {
                proof {
                    self.lemma_module_at_index(i as int);
                }
                match &self.entries[i].1 {
                    Module::AllowList(l) => Some(l.is_authorized(sender)),
                    Module::MessageFilter(f) => Some(f.is_authorized(msgs, sender)),
                    Module::AllOf(c) => {
                        let answers = self.ask_all(&c.children.addrs, msgs, sender, depth - 1);
                        let r = c.is_authorized(&answers);
                        proof {
                            let d = (depth - 1) as nat;
                            lemma_all_of_answer(*self, addr@, msgs@, sender@, depth as nat);
                            assert forall|k: int| 0 <= k < c.children.addrs@.len() implies answer(
                                *self,
                                (#[trigger] c.children.addrs@[k])@,
                                msgs@,
                                sender@,
                                d,
                            ) == answers@[k] by {}
                            assert(r == forall|k: int|
                                0 <= k < c.children.addrs@.len() ==> answer(
                                    *self,
                                    (#[trigger] c.children.addrs@[k])@,
                                    msgs@,
                                    sender@,
                                    d,
                                ) == Some(true));
                        }
                        Some(r)
                    },
                    Module::AnyOf(c) => {
                        let answers = self.ask_all(&c.children.addrs, msgs, sender, depth - 1);
                        let r = c.is_authorized(&answers);
                        proof {
                            let d = (depth - 1) as nat;
                            lemma_any_of_answer(*self, addr@, msgs@, sender@, depth as nat);
                            assert forall|k: int| 0 <= k < c.children.addrs@.len() implies answer(
                                *self,
                                (#[trigger] c.children.addrs@[k])@,
                                msgs@,
                                sender@,
                                d,
                            ) == answers@[k] by {}
                            if r {
                                let k = choose|k: int|
                                    0 <= k < answers@.len() && #[trigger] answers@[k] == Some(true);
                                assert(c.children.addrs@[k] == c.children.addrs@[k]);
                            }
                            assert(r == exists|k: int|
                                0 <= k < c.children.addrs@.len() && answer(
                                    *self,
                                    (#[trigger] c.children.addrs@[k])@,
                                    msgs@,
                                    sender@,
                                    d,
                                ) == Some(true));
                        }
                        Some(r)
                    },
                }
            },
        }
    }

    /// Answers an authorization query to the module at `addr`. The query
    /// itself never fails: a module that cannot answer denies.
    pub fn query_authorizations(&self, addr: &String, msgs: &Vec<Value>, sender: &String) -> (r:
        IsAuthorizedResponse)
        requires
            self.wf(),
        ensures
            r.authorized == (answer(*self, addr@, msgs@, sender@, MAX_DEPTH as nat) == Some(true)),
    {
        let authorized = match self.query(addr, msgs, sender, MAX_DEPTH) {
            Some(true) => true,
            _ => false,
        };
        IsAuthorizedResponse { authorized }
    }

    /// The answers of the modules at `addrs`, in order.
    fn ask_all(&self, addrs: &Vec<String>, msgs: &Vec<Value>, sender: &String, depth: usize) -> (r:
        Vec<Option<bool>>)
        requires
            self.wf(),
        ensures
            r@.len() == addrs@.len(),
            forall|i: int|
                0 <= i < addrs@.len() ==> #[trigger] r@[i] == answer(
                    *self,
                    addrs@[i]@,
                    msgs@,
                    sender@,
                    depth as nat,
                ),
        decreases depth + 1, 0int,
    {
        let mut answers: Vec<Option<bool>> = Vec::new();
        let mut i: usize = 0;
        while i < addrs.len()
            invariant
                0 <= i <= addrs@.len(),
                self.wf(),
                answers@.len() == i,
                forall|k: int|
                    0 <= k < i ==> #[trigger] answers@[k] == answer(
                        *self,
                        addrs@[k]@,
                        msgs@,
                        sender@,
                        depth as nat,
                    ),
            decreases addrs@.len() - i,
        {
            let a = self.query(&addrs[i], msgs, sender, depth);
            answers.push(a);
            i += 1;
        }
        answers
    }
}

/// Whether `m` takes a state update from `caller` on behalf of `sender`.
fn module_accepts(m: &Module, caller: &String, sender: &String) -> (r: bool)
    ensures
        r == accepts_update(*m, caller@, sender@),
{
    let owner = match m {
        Module::AllowList(l) => &l.dao,
        Module::MessageFilter(f) => &f.config.dao,
        Module::AllOf(c) => &c.parent,
        Module::AnyOf(c) => &c.parent,
    };
    *caller == *sender || *caller == *owner
}

/// Appends to `out` the notification from `from` to `to` of the operations
/// `msgs` approved for `sender`.
fn notify(
    out: &mut Vec<Notification>,
    from: &String,
    to: &String,
    accepted: bool,
    msgs: &Vec<Value>,
    sender: &String,
)
    requires
        all_carry(old(out)@, msgs@, sender@),
    ensures
        views(final(out)@) == views(old(out)@).push((from@, to@, accepted)),
        all_carry(final(out)@, msgs@, sender@),
{
    let n = Notification {
        from: from.clone(),
        to: to.clone(),
        accepted,
        sender: sender.clone(),
        msgs: copy_values(msgs),
    };
    out.push(n);
    assert(views(out@) =~= views(old(out)@).push((from@, to@, accepted)));
    assert forall|i: int| 0 <= i < out@.len() implies carries(#[trigger] out@[i], msgs@, sender@) by {
        if i < old(out)@.len() {
            assert(out@[i] == old(out)@[i]);
        }
    }
}

impl Network {
    /// Sends a state update from `from` to the module at `to`, on behalf of
    /// `sender`, and lets it pass the update on; appends every
    /// notification sent to `out`. A refused or undeliverable update is
    /// recorded and otherwise ignored.
    fn deliver(
        &self,
        from: &String,
        to: &String,
        msgs: &Vec<Value>,
        sender: &String,
        depth: usize,
        out: &mut Vec<Notification>,
    )
        requires
            self.wf(),
            all_carry(old(out)@, msgs@, sender@),
        ensures
            views(final(out)@) == views(old(out)@) + deliveries(*self, from@, to@, sender@, depth as nat),
            all_carry(final(out)@, msgs@, sender@),
        decreases depth + 1, 0int,
    {
        let ghost start = views(out@);
        let found = if depth == 0 {
            None
        } else {
            self.find(to)
        };
        match found {
            None => {
                notify(out, from, to, false, msgs, sender);
                assert(views(out@) =~= start + seq![(from@, to@, false)]);
            },
            Some(i) => {
                proof {
                    self.lemma_module_at_index(i as int);
                }
                let m = &self.entries[i].1;
                if !module_accepts(m, from, sender) {
                    notify(out, from, to, false, msgs, sender);
                    assert(views(out@) =~= start + seq![(from@, to@, false)]);
                    return ;
                }
                notify(out, from, to, true, msgs, sender);
                let ghost mid = views(out@);
                assert(mid =~= start + seq![(from@, to@, true)]);
                match m {
                    Module::AllOf(c) => {
                        self.deliver_to_all(to, &c.children.addrs, msgs, sender, depth - 1, out);
                    },
                    Module::AnyOf(c) => {
                        self.deliver_to_all(to, &c.children.addrs, msgs, sender, depth - 1, out);
                    },
                    _ => {
                        assert(deliveries_to_all(
                            *self,
                            to@,
                            subs_of(*m),
                            sender@,
                            (depth - 1) as nat,
                        ) =~= Seq::empty());
                    },
                }
                assert(views(out@) =~= start + deliveries(*self, from@, to@, sender@, depth as nat));
            },
        }
    }

    /// Sends a state update from `from` to each of `targets` in turn.
    fn deliver_to_all(
        &self,
        from: &String,
        targets: &Vec<String>,
        msgs: &Vec<Value>,
        sender: &String,
        depth: usize,
        out: &mut Vec<Notification>,
    )
        requires
            self.wf(),
            all_carry(old(out)@, msgs@, sender@),
        ensures
            all_carry(final(out)@, msgs@, sender@),
            views(final(out)@) == views(old(out)@) + deliveries_to_all(
                *self,
                from@,
                targets@,
                sender@,
                depth as nat,
            ),
        decreases depth + 1, targets@.len() + 1,
    {
        let ghost start = views(out@);
        assert(targets@.subrange(0, 0) =~= Seq::<String>::empty());
        assert(views(out@) =~= start + deliveries_to_all(
            *self,
            from@,
            targets@.subrange(0, 0),
            sender@,
            depth as nat,
        ));
        let mut i: usize = 0;
        while i < targets.len()
            invariant
                0 <= i <= targets@.len(),
                self.wf(),
                all_carry(out@, msgs@, sender@),
                views(out@) == start + deliveries_to_all(
                    *self,
                    from@,
                    targets@.subrange(0, i as int),
                    sender@,
                    depth as nat,
                ),
            decreases targets@.len() - i,
        {
            self.deliver(from, &targets[i], msgs, sender, depth, out);
            proof {
                let head = targets@.subrange(0, i + 1);
                assert(head.drop_last() =~= targets@.subrange(0, i as int));
                assert(head.last() == targets@[i as int]);
                assert(views(out@) =~= start + deliveries_to_all(
                    *self,
                    from@,
                    head,
                    sender@,
                    depth as nat,
                ));
            }
            i += 1;
        }
        assert(targets@.subrange(0, targets@.len() as int) =~= targets@);
    }

    /// Sends a state update from `from` to each of `targets`: the operations
    /// `msgs` approved for `sender`. Returns every notification sent through
    /// the tree; each carries those same operations and sender.
    pub fn propagate(
        &self,
        from: &String,
        targets: &Vec<String>,
        msgs: &Vec<Value>,
        sender: &String,
    ) -> (r: Vec<Notification>)
        requires
            self.wf(),
        ensures
            views(r@) == deliveries_to_all(*self, from@, targets@, sender@, MAX_DEPTH as nat),
            all_carry(r@, msgs@, sender@),
    {
        let mut out: Vec<Notification> = Vec::new();
        assert(views(out@) =~= Seq::empty());
        self.deliver_to_all(from, targets, msgs, sender, MAX_DEPTH, &mut out);
        assert(views(out@) =~= deliveries_to_all(*self, from@, targets@, sender@, MAX_DEPTH as nat));
        out
    }

    /// Handles a state update that `caller` sends to the module at `target`
    /// for the operations `msgs` approved for `sender`: the module takes it
    /// only from the sender or from its owner, and then passes it on to its
    /// sub-authorizations, whose failures are recorded and ignored. Returns
    /// the notifications sent; each carries those same operations and
    /// sender.
    pub fn update_state(
        &self,
        caller: &String,
        target: &String,
        msgs: &Vec<Value>,
        sender: &String,
    ) -> (r: Result<Vec<Notification>, ContractError>)
        requires
            self.wf(),
        ensures
            !self.has_module(target@) ==> (r matches Err(ContractError::NotFound {})),
            self.has_module(target@) && !accepts_update(self.module_at(target@), caller@, sender@)
                ==> (r matches Err(ContractError::Unauthorized { .. })),
            self.has_module(target@) && accepts_update(self.module_at(target@), caller@, sender@)
                ==> (r matches Ok(v) && views(v@) == deliveries_to_all(
                *self,
                target@,
                subs_of(self.module_at(target@)),
                sender@,
                (MAX_DEPTH - 1) as nat,
            ) && all_carry(v@, msgs@, sender@)),
    {
        match self.find(target) {
            None => Err(ContractError::NotFound {}),
            Some(i) => {
                proof {
                    self.lemma_module_at_index(i as int);
                }
                let m = &self.entries[i].1;
                if !module_accepts(m, caller, sender) {
                    return Err(unauthorized("Only the sender or the owner can update the state"));
                }
                let mut out: Vec<Notification> = Vec::new();
                assert(views(out@) =~= Seq::empty());
                match m {
                    Module::AllOf(c) => {
                        self.deliver_to_all(target, &c.children.addrs, msgs, sender, MAX_DEPTH - 1, &mut out);
                    },
                    Module::AnyOf(c) => {
                        self.deliver_to_all(target, &c.children.addrs, msgs, sender, MAX_DEPTH - 1, &mut out);
                    },
                    _ => {},
                }
                assert(views(out@) =~= deliveries_to_all(
                    *self,
                    target@,
                    subs_of(*m),
                    sender@,
                    (MAX_DEPTH - 1) as nat,
                ));
                Ok(out)
            },
        }
    }
}

/// A combinator without children: all-of approves every request (an empty
/// conjunction) and any-of denies every request (an empty disjunction).
pub proof fn lemma_childless_combinators(
    net: Network,
    addr: Seq<char>,
    ops: Seq<Value>,
    sender: Seq<char>,
    depth: nat,
)
    requires
        depth > 0,
        net.has_module(addr),
        subs_of(net.module_at(addr)).len() == 0,
    ensures
        net.module_at(addr) is AllOf ==> answer(net, addr, ops, sender, depth) == Some(true),
        net.module_at(addr) is AnyOf ==> answer(net, addr, ops, sender, depth) == Some(false),
{
    if net.module_at(addr) is AllOf {
        lemma_all_of_answer(net, addr, ops, sender, depth);
    }
    if net.module_at(addr) is AnyOf {
        lemma_any_of_answer(net, addr, ops, sender, depth);
    }
}

/// A message that an account sends to a module of the network.
pub enum ExecuteMsg {
    /// Allow lists: add a member.
    Allow { addr: String },
    /// Allow lists: remove a member.
    Disallow { addr: String },
    /// Combinators: add a child.
    AddChild { addr: String },
    /// Combinators: remove a child.
    RemoveChild { addr: String },
    /// Message filters: add the record (`addr`, `msg`), where `pattern` is
    /// the structural value of the text `msg`.
    AddAuthorization { addr: String, msg: String, pattern: Value },
    /// Message filters: remove the first record of `addr` with the text `msg`.
    RemoveAuthorization { addr: String, msg: String },
    /// Any module: take a state update for the operations `msgs` approved
    /// for `sender`, and pass it on.
    UpdateExecutedAuthorizationState { msgs: Vec<Value>, sender: String },
}

/// The outcome `r` of the administrative message `msg` from `caller`, which
/// turned the module `before` into `after`: what the module's own method
/// does, or `InvalidRequest` with no change for a message that the module
/// does not take.
pub open spec fn admin_outcome(
    before: Module,
    after: Module,
    caller: Seq<char>,
    msg: ExecuteMsg,
    r: Result<(), ContractError>,
) -> bool {
    match (before, msg) {
        (Module::AllowList(l), ExecuteMsg::Allow { addr }) => after matches Module::AllowList(l2)
            && l2.dao == l.dao && if caller != l.dao@ {
            (r matches Err(ContractError::Unauthorized { .. })) && l2.members == l.members
        } else {
            r is Ok && l2.members.members() == l.members.members().insert(addr@)
        },
        (Module::AllowList(l), ExecuteMsg::Disallow { addr }) => after matches Module::AllowList(l2)
            && l2.dao == l.dao && if caller != l.dao@ {
            (r matches Err(ContractError::Unauthorized { .. })) && l2.members == l.members
        } else if !l.members.has(addr@) {
            (r matches Err(ContractError::NotFound {})) && l2.members == l.members
        } else {
            r is Ok && l2.members.members() == l.members.members().remove(addr@)
        },
        (Module::AllOf(c), ExecuteMsg::AddChild { addr }) => after matches Module::AllOf(c2)
            && c2.parent == c.parent && if caller != c.parent@ {
            (r matches Err(ContractError::Unauthorized { .. })) && c2.children == c.children
        } else {
            r is Ok && c2.children.members() == c.children.members().insert(addr@)
        },
        (Module::AnyOf(c), ExecuteMsg::AddChild { addr }) => after matches Module::AnyOf(c2)
            && c2.parent == c.parent && if caller != c.parent@ {
            (r matches Err(ContractError::Unauthorized { .. })) && c2.children == c.children
        } else {
            r is Ok && c2.children.members() == c.children.members().insert(addr@)
        },
        (Module::AllOf(c), ExecuteMsg::RemoveChild { addr }) => after matches Module::AllOf(c2)
            && c2.parent == c.parent && if caller != c.parent@ {
            (r matches Err(ContractError::Unauthorized { .. })) && c2.children == c.children
        } else if !c.children.has(addr@) {
            (r matches Err(ContractError::NotFound {})) && c2.children == c.children
        } else {
            r is Ok && c2.children.members() == c.children.members().remove(addr@)
        },
        (Module::AnyOf(c), ExecuteMsg::RemoveChild { addr }) => after matches Module::AnyOf(c2)
            && c2.parent == c.parent && if caller != c.parent@ {
            (r matches Err(ContractError::Unauthorized { .. })) && c2.children == c.children
        } else if !c.children.has(addr@) {
            (r matches Err(ContractError::NotFound {})) && c2.children == c.children
        } else {
            r is Ok && c2.children.members() == c.children.members().remove(addr@)
        },
        (
            Module::MessageFilter(f),
            ExecuteMsg::AddAuthorization { addr, msg, pattern },
        ) => after matches Module::MessageFilter(f2) && f2.config == f.config && if caller
            != f.config.dao@ {
            (r matches Err(ContractError::Unauthorized { .. })) && f2.allowed@ == f.allowed@
        } else {
            r is Ok && f2.allowed@ == f.allowed@.push(
                crate::message_filter::Authorization { addr, matcher: msg, pattern },
            )
        },
        (Module::MessageFilter(f), ExecuteMsg::RemoveAuthorization { addr, msg }) => after matches Module::MessageFilter(f2)
            && f2.config == f.config && if caller != f.config.dao@ {
            (r matches Err(ContractError::Unauthorized { .. })) && f2.allowed@ == f.allowed@
        } else if !(exists|i: int| is_first_record(f.allowed@, addr@, msg@, i)) {
            (r matches Err(ContractError::NotFound {})) && f2.allowed@ == f.allowed@
        } else {
            r is Ok && exists|i: int|
                is_first_record(f.allowed@, addr@, msg@, i) && f2.allowed@ == f.allowed@.remove(i)
        },
        _ => (r matches Err(ContractError::InvalidRequest {})) && after == before,
    }
}

/// Applies the administrative message `msg` from `caller` to `m`.
fn apply_admin(m: &mut Module, caller: &String, msg: ExecuteMsg) -> (r: Result<(), ContractError>)
    requires
        module_wf(*old(m)),
        !(msg is UpdateExecutedAuthorizationState),
    ensures
        module_wf(*final(m)),
        admin_outcome(*old(m), *final(m), caller@, msg, r),
{
    match (m, msg) {
        (Module::AllowList(l), ExecuteMsg::Allow { addr }) => l.allow(caller, addr),
        (Module::AllowList(l), ExecuteMsg::Disallow { addr }) => l.disallow(caller, &addr),
        (Module::AllOf(c), ExecuteMsg::AddChild { addr }) => c.add_child(caller, addr),
        (Module::AnyOf(c), ExecuteMsg::AddChild { addr }) => c.add_child(caller, addr),
        (Module::AllOf(c), ExecuteMsg::RemoveChild { addr }) => c.remove_child(caller, &addr),
        (Module::AnyOf(c), ExecuteMsg::RemoveChild { addr }) => c.remove_child(caller, &addr),
        (Module::MessageFilter(f), ExecuteMsg::AddAuthorization { addr, msg, pattern }) => {
            f.add_authorization(caller, addr, msg, pattern)
        },
        (Module::MessageFilter(f), ExecuteMsg::RemoveAuthorization { addr, msg }) => {
            f.remove_authorization(caller, &addr, &msg)
        },
        _ => Err(ContractError::InvalidRequest {}),
    }
}

impl Network {
    /// Delivers `msg` from `caller` to the module at `target`. A state
    /// update returns the notifications it sent; an administrative message
    /// returns no notifications and leaves every other module as it was.
    pub fn execute(&mut self, caller: &String, target: &String, msg: ExecuteMsg) -> (r: Result<
        Vec<Notification>,
        ContractError,
    >)
        requires
            old(self).wf(),
        ensures
            final(self).wf(),
            !old(self).has_module(target@) ==> (r matches Err(ContractError::NotFound {})),
            msg matches ExecuteMsg::UpdateExecutedAuthorizationState { msgs, sender } ==> *final(self)
                == *old(self) && (old(self).has_module(target@) && !accepts_update(
                old(self).module_at(target@),
                caller@,
                sender@,
            ) ==> (r matches Err(ContractError::Unauthorized { .. }))) && (old(self).has_module(
                target@,
            ) && accepts_update(old(self).module_at(target@), caller@, sender@) ==> (r matches Ok(
                v,
            ) && views(v@) == deliveries_to_all(
                *old(self),
                target@,
                subs_of(old(self).module_at(target@)),
                sender@,
                (MAX_DEPTH - 1) as nat,
            ) && all_carry(v@, msgs@, sender@))),
            !(msg is UpdateExecutedAuthorizationState) ==> (r matches Ok(v) ==> v@.len() == 0),
            !(msg is UpdateExecutedAuthorizationState) ==> forall|a: Seq<char>|
                a != target@ ==> (final(self).has_module(a) == old(self).has_module(a) && (old(self).has_module(a) ==> final(self).module_at(a) == old(self).module_at(a))),
            !(msg is UpdateExecutedAuthorizationState) && old(self).has_module(target@)
                ==> final(self).has_module(target@) && exists|u: Result<(), ContractError>|
                admin_outcome(
                    old(self).module_at(target@),
                    final(self).module_at(target@),
                    caller@,
                    msg,
                    u,
                ) && (r is Ok <==> u is Ok) && (r matches Err(e) ==> u == Err::<(), ContractError>(e)),
            !(msg is UpdateExecutedAuthorizationState) && !old(self).has_module(target@) ==> forall|
                a: Seq<char>,
            | final(self).has_module(a) == old(self).has_module(a),
    {
        if let ExecuteMsg::UpdateExecutedAuthorizationState { msgs, sender } = msg {
            return self.update_state(caller, target, &msgs, &sender);
        }
        match self.take(target) {
            None => {
                assert forall|a: Seq<char>| self.has_module(a) == old(self).has_module(a) by {
                    if a != target@ {
                    }
                }
                Err(ContractError::NotFound {})
            },
            Some(mut m) => {
                let u = apply_admin(&mut m, caller, msg);
                self.register(target.clone(), m);
                match u {
                    Ok(()) => Ok(Vec::new()),
                    Err(e) => Err(e),
                }
            },
        }
    }
}

} // verus!
