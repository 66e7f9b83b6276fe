use vstd::prelude::*;

use crate::error::{unauthorized, ContractError};
use crate::value::{deep_partial_match, pattern_matches, Value};

verus! {

/// The policy of a message filter.
///
/// `Allow`: nothing is permitted unless a matching record exists.
/// `Reject`: everything is permitted unless a matching record exists.
#[derive(Clone, Copy, Debug, PartialEq, Eq, Structural)]
pub enum Kind {
    Allow {},
    Reject {},
}

/// The owner of a message filter and its policy.
pub struct Config {
    /// The account (the organization) that administers the filter.
    pub dao: String,
    pub kind: Kind,
}

/// One record of a message filter: `addr` may (or, for a `Reject` filter,
/// may not) send operations that match `pattern`.
///
/// `matcher` is the text that the record was added with, and `pattern` its
/// structural value; the text identifies the record for removal.
pub struct Authorization {
    pub addr: String,
    pub matcher: String,
    pub pattern: Value,
}

/// A leaf module that authorizes operation batches by their structure.
pub struct MessageFilter {
    pub config: Config,
    /// All records, in the order they were added.
    pub allowed: Vec<Authorization>,
}

/// The decision of a filter of kind `kind` when no record settles it.
pub open spec fn default_decision(kind: Kind) -> bool {
    kind is Reject
}

/// `sender` has at least one record.
pub open spec fn has_records(records: Seq<Authorization>, sender: Seq<char>) -> bool {
    exists|i: int| 0 <= i < records.len() && (#[trigger] records[i]).addr@ == sender
}

/// Some record of `sender` has a pattern that `op` matches.
pub open spec fn op_matched(records: Seq<Authorization>, op: Value, sender: Seq<char>) -> bool {
    exists|i: int|
        0 <= i < records.len() && (#[trigger] records[i]).addr@ == sender && pattern_matches(
            op,
            records[i].pattern,
        )
}

/// Every operation of the batch matches some record of `sender`.
pub open spec fn batch_matched(records: Seq<Authorization>, ops: Seq<Value>, sender: Seq<char>) -> bool {
    forall|j: int| 0 <= j < ops.len() ==> op_matched(records, #[trigger] ops[j], sender)
}

/// The decision of a filter of kind `kind` with `records` on the batch `ops`
/// claimed by `sender`: a sender without records gets the default; a batch
/// that matches flips the default; any other batch gets the default.
pub open spec fn filter_decision(
    kind: Kind,
    records: Seq<Authorization>,
    ops: Seq<Value>,
    sender: Seq<char>,
) -> bool {
    if has_records(records, sender) && batch_matched(records, ops, sender) {
        !default_decision(kind)
    } else {
        default_decision(kind)
    }
}

/// The texts of the records of `sender`, in the order they were added.
pub open spec fn matchers_of(records: Seq<Authorization>, sender: Seq<char>) -> Seq<Seq<char>>
    decreases records.len(),
{
    if records.len() == 0 {
        Seq::empty()
    } else {
        let rest = matchers_of(records.drop_last(), sender);
        if records.last().addr@ == sender {
            rest.push(records.last().matcher@)
        } else {
            rest
        }
    }
}

/// The index of the first record of `addr` with the text `matcher`.
pub open spec fn is_first_record(
    records: Seq<Authorization>,
    addr: Seq<char>,
    matcher: Seq<char>,
    i: int,
) -> bool {
    &&& 0 <= i < records.len()
    &&& records[i].addr@ == addr
    &&& records[i].matcher@ == matcher
    &&& forall|j: int|
        0 <= j < i ==> !((#[trigger] records[j]).addr@ == addr && records[j].matcher@ == matcher)
}

impl Config {
    /// The decision when no record settles the request.
    pub fn default_authorization(&self) -> (r: bool)
        ensures
            r == default_decision(self.kind),
    {
        match self.kind {
            Kind::Allow {} => false,
            Kind::Reject {} => true,
        }
    }

    /// The default decision as a response: the attributes that explain an
    /// approval, or the `Unauthorized` error of a denial.
    pub fn default_response(&self) -> (r: Result<Vec<(String, String)>, ContractError>)
        ensures
            r is Ok <==> default_decision(self.kind),
            r matches Err(e) ==> e is Unauthorized,
            r matches Ok(a) ==> a@.len() == 2 && a@[0].0@ == "allowed"@ && a@[0].1@ == "true"@
                && a@[1].0@ == "reason"@,
    {
        match self.kind {
            Kind::Allow {} => Err(unauthorized("No authorizations allowed the request. Rejecting.")),
            Kind::Reject {} => {
                let mut attributes: Vec<(String, String)> = Vec::new();
                attributes.push(("allowed".to_owned(), "true".to_owned()));
                attributes.push(
                    (
                        "reason".to_owned(),
                        "No authorizations rejected the request. Allowing.".to_owned(),
                    ),
                );
                Ok(attributes)
            },
        }
    }
}

impl MessageFilter {
    /// A filter owned by `dao`, with policy `kind` and no records.
    pub fn new(dao: String, kind: Kind) -> (r: MessageFilter)
        ensures
            r.config.dao == dao,
            r.config.kind == kind,
            r.allowed@.len() == 0,
    {
        MessageFilter { config: Config { dao, kind }, allowed: Vec::new() }
    }

    /// The decision of this filter on the batch `msgs` claimed by `sender`.
    #[verifier::loop_isolation(false)]
    pub fn is_authorized(&self, msgs: &Vec<Value>, sender: &String) -> (r: bool)
        ensures
            r == filter_decision(self.config.kind, self.allowed@, msgs@, sender@),
    {
        let records = &self.allowed;
        let mut any_record = false;
        let mut i: usize = 0;
        while i < records.len()
            invariant
                0 <= i <= records@.len(),
                any_record == exists|k: int| 0 <= k < i && (#[trigger] records@[k]).addr@ == sender@,
            decreases records@.len() - i,
        {
            if records[i].addr == *sender {
                any_record = true;
            }
            i += 1;
        }
        if !any_record {
            return self.config.default_authorization();
        }
        let mut matched = true;
        let mut j: usize = 0;
        while j < msgs.len()
            invariant
                0 <= j <= msgs@.len(),
                matched == forall|l: int| 0 <= l < j ==> op_matched(records@, #[trigger] msgs@[l], sender@),
            decreases msgs@.len() - j,
        {
            let found = self.op_is_matched(&msgs[j], sender);
            matched = matched && found;
            j += 1;
        }
        if matched {
            !self.config.default_authorization()
        } else {
            self.config.default_authorization()
        }
    }

    /// Whether some record of `sender` has a pattern that `op` matches.
    #[verifier::loop_isolation(false)]
    fn op_is_matched(&self, op: &Value, sender: &String) -> (r: bool)
        ensures
            r == op_matched(self.allowed@, *op, sender@),
    {
        let records = &self.allowed;
        let mut i: usize = 0;
        while i < records.len()
            invariant
                0 <= i <= records@.len(),
                forall|k: int|
                    0 <= k < i ==> !((#[trigger] records@[k]).addr@ == sender@ && pattern_matches(
                        *op,
                        records@[k].pattern,
                    )),
            decreases records@.len() - i,
        {
            if records[i].addr == *sender && deep_partial_match(op, &records[i].pattern) {
                return true;
            }
            i += 1;
        }
        false
    }

    /// The texts of the records of `sender`, in the order they were added.
    pub fn get_authorizations(&self, sender: &String) -> (r: Vec<String>)
        ensures
            r@.map_values(|m: String| m@) == matchers_of(self.allowed@, sender@),
    {
        let mut r: Vec<String> = Vec::new();
        let mut i: usize = 0;
        while i < self.allowed.len()
            invariant
                0 <= i <= self.allowed@.len(),
                r@.map_values(|m: String| m@) == matchers_of(self.allowed@.subrange(0, i as int), sender@),
            decreases self.allowed@.len() - i,
        {
            if self.allowed[i].addr == *sender {
                r.push(self.allowed[i].matcher.clone());
            }
            proof {
                let head = self.allowed@.subrange(0, i + 1);
                assert(head.drop_last() =~= self.allowed@.subrange(0, i as int));
                assert(head.last() == self.allowed@[i as int]);
                assert(r@.map_values(|m: String| m@) =~= matchers_of(head, sender@));
            }
            i += 1;
        }
        assert(self.allowed@.subrange(0, self.allowed@.len() as int) =~= self.allowed@);
        r
    }

    /// Adds the record (`addr`, `matcher`), whose structural value is
    /// `pattern`. Only the owner may add records.
    pub fn add_authorization(
        &mut self,
        caller: &String,
        addr: String,
        matcher: String,
        pattern: Value,
    ) -> (r: Result<(), ContractError>)
        ensures
            final(self).config == old(self).config,
            caller@ != old(self).config.dao@ ==> (r matches Err(ContractError::Unauthorized { .. }))
                && final(self).allowed@ == old(self).allowed@,
            caller@ == old(self).config.dao@ ==> r is Ok && final(self).allowed@ == old(
                self,
            ).allowed@.push(Authorization { addr, matcher, pattern }),
    {
        if *caller != self.config.dao {
            return Err(unauthorized("Only the dao can add authorizations"));
        }
        self.allowed.push(Authorization { addr, matcher, pattern });
        Ok(())
    }

    /// Removes the first record of `addr` whose text is `matcher`. Only the
    /// owner may remove records.
    #[verifier::loop_isolation(false)]
    pub fn remove_authorization(&mut self, caller: &String, addr: &String, matcher: &String) -> (r:
        Result<(), ContractError>)
        ensures
            final(self).config == old(self).config,
            caller@ != old(self).config.dao@ ==> (r matches Err(ContractError::Unauthorized { .. }))
                && final(self).allowed@ == old(self).allowed@,
            caller@ == old(self).config.dao@ && !(exists|i: int|
                is_first_record(old(self).allowed@, addr@, matcher@, i)) ==> (r matches Err(
                ContractError::NotFound {},
            )) && final(self).allowed@ == old(self).allowed@,
            caller@ == old(self).config.dao@ && (exists|i: int|
                is_first_record(old(self).allowed@, addr@, matcher@, i)) ==> r is Ok && exists|i: int|
                is_first_record(old(self).allowed@, addr@, matcher@, i) && final(self).allowed@ == old(
                    self,
                ).allowed@.remove(i),
    {
        if *caller != self.config.dao {
            return Err(unauthorized("Only the dao can remove authorizations"));
        }
        let mut i: usize = 0;
        while i < self.allowed.len()
            invariant
                0 <= i <= self.allowed@.len(),
                self.config == old(self).config,
                self.allowed@ == old(self).allowed@,
                forall|j: int|
                    0 <= j < i ==> !((#[trigger] self.allowed@[j]).addr@ == addr@
                        && self.allowed@[j].matcher@ == matcher@),
            decreases self.allowed@.len() - i,
        {
            if self.allowed[i].addr == *addr && self.allowed[i].matcher == *matcher {
                assert(is_first_record(self.allowed@, addr@, matcher@, i as int));
                self.allowed.remove(i);
                return Ok(());
            }
            i += 1;
        }
        Err(ContractError::NotFound {})
    }
}

/// A sender without records gets the filter's default: an `Allow` filter
/// denies every batch of theirs, a `Reject` filter allows every batch.
pub proof fn lemma_no_records_gives_default(
    kind: Kind,
    records: Seq<Authorization>,
    ops: Seq<Value>,
    sender: Seq<char>,
)
    requires
        !has_records(records, sender),
    ensures
        filter_decision(kind, records, ops, sender) == (kind is Reject),
        kind is Allow ==> !filter_decision(kind, records, ops, sender),
        kind is Reject ==> filter_decision(kind, records, ops, sender),
{
}

/// Removing entry `i` of `records` and appending `added`, which has the
/// account and the pattern of entry `i`, keeps the same (account, pattern)
/// pairs, so it keeps every decision.
proof fn lemma_swap_keeps_decision(
    kind: Kind,
    records: Seq<Authorization>,
    added: Authorization,
    i: int,
    ops: Seq<Value>,
    sender: Seq<char>,
)
    requires
        0 <= i < records.len(),
        records[i].addr@ == added.addr@,
        records[i].pattern == added.pattern,
    ensures
        filter_decision(kind, records.push(added).remove(i), ops, sender) == filter_decision(
            kind,
            records,
            ops,
            sender,
        ),
{
    let after = records.push(added).remove(i);
    let n = records.len();
    assert(after.len() == n);
    assert(has_records(after, sender) == has_records(records, sender)) by {
        if has_records(records, sender) {
            let m = choose|m: int| 0 <= m < n && (#[trigger] records[m]).addr@ == sender;
            let k = if m < i {
                m
            } else if m == i {
                n - 1
            } else {
                m - 1
            };
            assert(after[k].addr@ == sender);
        }
        if has_records(after, sender) {
            let k = choose|k: int| 0 <= k < n && (#[trigger] after[k]).addr@ == sender;
            let m = if k < i {
                k
            } else if k + 1 < n {
                k + 1
            } else {
                i
            };
            assert(records[m].addr@ == sender);
        }
    }
    assert forall|op: Value| op_matched(after, op, sender) == op_matched(records, op, sender) by {
        if op_matched(records, op, sender) {
            let m = choose|m: int|
                0 <= m < n && (#[trigger] records[m]).addr@ == sender && pattern_matches(
                    op,
                    records[m].pattern,
                );
            let k = if m < i {
                m
            } else if m == i {
                n - 1
            } else {
                m - 1
            };
            assert(after[k].addr@ == sender && pattern_matches(op, after[k].pattern));
        }
        if op_matched(after, op, sender) {
            let k = choose|k: int|
                0 <= k < n && (#[trigger] after[k]).addr@ == sender && pattern_matches(
                    op,
                    after[k].pattern,
                );
            let m = if k < i {
                k
            } else if k + 1 < n {
                k + 1
            } else {
                i
            };
            assert(records[m].addr@ == sender && pattern_matches(op, records[m].pattern));
        }
    }
    assert(batch_matched(after, ops, sender) == batch_matched(records, ops, sender));
}

/// The (account, text) pair of each record.
pub open spec fn record_keys(records: Seq<Authorization>) -> Seq<(Seq<char>, Seq<char>)> {
    records.map_values(|a: Authorization| (a.addr@, a.matcher@))
}

/// Adding a record and then removing it (by its account and text) gives
/// back the same records, counted as (account, text) pairs.
pub proof fn lemma_add_then_remove_restores_records(
    records: Seq<Authorization>,
    added: Authorization,
    i: int,
)
    requires
        is_first_record(records.push(added), added.addr@, added.matcher@, i),
    ensures
        record_keys(records.push(added).remove(i)).to_multiset() == record_keys(
            records,
        ).to_multiset(),
{
    broadcast use vstd::seq_lib::group_to_multiset_ensures;

    let t = records.push(added);
    let keys = record_keys(records);
    let tk = record_keys(t);
    let a = (added.addr@, added.matcher@);
    assert(tk =~= keys.push(a));
    assert(record_keys(t.remove(i)) =~= tk.remove(i));
    assert(tk[i] == a);
    assert(tk.remove(i).to_multiset() =~= keys.to_multiset().insert(a).remove(a));
    assert(keys.to_multiset().insert(a).remove(a) =~= keys.to_multiset());
}

/// Adding a record and then removing it (by its account and text) restores
/// the decision on every batch and sender, given that one text always
/// stands for one pattern: any earlier record of the account with the same
/// text has the same pattern.
pub proof fn lemma_add_then_remove_restores_decision(
    kind: Kind,
    records: Seq<Authorization>,
    added: Authorization,
    i: int,
    ops: Seq<Value>,
    sender: Seq<char>,
)
    requires
        is_first_record(records.push(added), added.addr@, added.matcher@, i),
        forall|j: int|
            0 <= j < records.len() && (#[trigger] records[j]).addr@ == added.addr@
                && records[j].matcher@ == added.matcher@ ==> records[j].pattern == added.pattern,
    ensures
        filter_decision(kind, records.push(added).remove(i), ops, sender) == filter_decision(
            kind,
            records,
            ops,
            sender,
        ),
{
    if i == records.len() {
        assert(records.push(added).remove(i) =~= records);
    } else {
        assert(records.push(added)[i] == records[i]);
        lemma_swap_keeps_decision(kind, records, added, i, ops, sender);
    }
}

} // verus!
