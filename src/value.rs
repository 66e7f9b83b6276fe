use vstd::prelude::*;

verus! {

/// A dynamically typed structural value: the canonical form of an operation
/// or of a matcher pattern.
///
/// Objects are lists of entries; a well-formed value ([`value_wf`]) has
/// unique keys in every object, and the order of entries carries no
/// meaning.
#[derive(Debug)]
pub enum Value {
    Null,
    Bool(bool),
    U128(u128),
    Number(u64),
    String(String),
    Array(Vec<Value>),
    Object(Vec<(String, Value)>),
}

/// Two scalar values are equal: same variant, same payload.
pub open spec fn scalar_eq(v: Value, p: Value) -> bool {
    match (p, v) {
        (Value::Null, Value::Null) => true,
        (Value::Bool(a), Value::Bool(b)) => a == b,
        (Value::U128(a), Value::U128(b)) => a == b,
        (Value::Number(a), Value::Number(b)) => a == b,
        (Value::String(a), Value::String(b)) => a@ == b@,
        _ => false,
    }
}

/// The one-directional partial match of an observed value `v` against a
/// pattern `p`.
///
/// - An empty object pattern matches anything.
/// - A non-empty object pattern matches an object that has every key of the
///   pattern, with a value that matches the pattern's value for that key;
///   keys of `v` that the pattern does not name are ignored.
/// - An array pattern matches an array of the same length whose elements
///   match position by position.
/// - Any other pattern matches an equal scalar.
pub open spec fn pattern_matches(v: Value, p: Value) -> bool
    decreases p,
{
    match p {
        Value::Object(pm) => pm@.len() == 0 || match v {
            Value::Object(vm) => forall|i: int|
                0 <= i < pm@.len() ==> has_matching_entry(vm@, #[trigger] pm@[i]),
            _ => false,
        },
        Value::Array(pa) => match v {
            Value::Array(va) => va@.len() == pa@.len() && forall|i: int|
                #![trigger pa@[i]]
                0 <= i < pa@.len() ==> pattern_matches(va@[i], pa@[i]),
            _ => false,
        },
        _ => scalar_eq(v, p),
    }
}

/// Some entry of `vm` has the key of `entry` and a value that matches
/// `entry`'s value.
pub open spec fn has_matching_entry(vm: Seq<(String, Value)>, entry: (String, Value)) -> bool
    decreases entry,
{
    exists|j: int|
        #![trigger vm[j]]
        0 <= j < vm.len() && vm[j].0@ == entry.0@ && pattern_matches(vm[j].1, entry.1)
}

/// Every object in `v`, at every level, has unique keys.
pub open spec fn value_wf(v: Value) -> bool
    decreases v,
{
    match v {
        Value::Array(x) => forall|i: int| 0 <= i < x@.len() ==> value_wf(#[trigger] x@[i]),
        Value::Object(x) => (forall|i: int, j: int|
            0 <= i < j < x@.len() ==> (#[trigger] x@[i]).0@ != (#[trigger] x@[j]).0@) && forall|
            i: int,
        | 0 <= i < x@.len() ==> value_wf((#[trigger] x@[i]).1),
        _ => true,
    }
}

/// In an object with unique keys, an entry of the pattern is met exactly
/// when the one entry with its key matches.
pub proof fn lemma_unique_key_lookup(vm: Seq<(String, Value)>, j: int, entry: (String, Value))
    requires
        forall|a: int, b: int| 0 <= a < b < vm.len() ==> (#[trigger] vm[a]).0@ != (#[trigger] vm[b]).0@,
        0 <= j < vm.len(),
        vm[j].0@ == entry.0@,
    ensures
        has_matching_entry(vm, entry) == pattern_matches(vm[j].1, entry.1),
{
    if has_matching_entry(vm, entry) {
        let l = choose|l: int|
            0 <= l < vm.len() && (#[trigger] vm[l]).0@ == entry.0@ && pattern_matches(vm[l].1, entry.1);
        if l < j {
            assert(vm[l].0@ != vm[j].0@);
        } else if j < l {
            assert(vm[j].0@ != vm[l].0@);
        }
    }
}

/// Compares two scalars; any value that is not a scalar of `p`'s variant
/// compares unequal.
fn scalar_equal(v: &Value, p: &Value) -> (r: bool)
    ensures
        r == scalar_eq(*v, *p),
{
    match (p, v) {
        (Value::Null, Value::Null) => true,
        (Value::Bool(a), Value::Bool(b)) => *a == *b,
        (Value::U128(a), Value::U128(b)) => *a == *b,
        (Value::Number(a), Value::Number(b)) => *a == *b,
        (Value::String(a), Value::String(b)) => *a == *b,
        _ => false,
    }
}

/// Whether `msg` matches the pattern `authorization` (see [`pattern_matches`]).
///
/// Values are well formed when their objects have unique keys
/// ([`value_wf`]); matching asks no such thing of its inputs. An object
/// pattern's entry is met when some entry of `msg` with that key matches,
/// which on a well-formed `msg` is the one entry with that key
/// ([`lemma_unique_key_lookup`]).
#[verifier::loop_isolation(false)]
pub fn deep_partial_match(msg: &Value, authorization: &Value) -> (r: bool)
    ensures
        r == pattern_matches(*msg, *authorization),
    decreases authorization,
{
    match authorization {
        Value::Object(auth_map) => {
            if auth_map.len() == 0 {
                return true;
            }
            match msg {
                Value::Object(msg_map) => {
                    let mut i: usize = 0;
                    while i < auth_map.len()
                        invariant
                            0 <= i <= auth_map@.len(),
                            *authorization == Value::Object(*auth_map),
                            *msg == Value::Object(*msg_map),
                            forall|k: int|
                                0 <= k < i ==> has_matching_entry(msg_map@, #[trigger] auth_map@[k]),
                        decreases auth_map@.len() - i,
                    {
                        let key = &auth_map[i].0;
                        let pattern = &auth_map[i].1;
                        let mut found = false;
                        let mut j: usize = 0;
                        while j < msg_map.len() && !found
                            invariant
                                0 <= j <= msg_map@.len(),
                                i < auth_map@.len(),
                                *authorization == Value::Object(*auth_map),
                                *key == auth_map@[i as int].0,
                                *pattern == auth_map@[i as int].1,
                                found ==> has_matching_entry(msg_map@, auth_map@[i as int]),
                                !found ==> forall|l: int|
                                    #![trigger msg_map@[l]]
                                    0 <= l < j ==> !(msg_map@[l].0@ == key@
                                        && pattern_matches(msg_map@[l].1, *pattern)),
                            decreases msg_map@.len() - j,
                        {
                            if msg_map[j].0 == *key {
                                proof {
                                    let entry = auth_map@[i as int];
                                    assert(decreases_to!(*authorization => (*authorization)->Object_0));
                                    assert(decreases_to!(*auth_map => auth_map@));
                                    assert(decreases_to!(auth_map@ => entry));
                                    assert(decreases_to!(entry => entry.1));
                                }
                                if deep_partial_match(&msg_map[j].1, pattern) {
                                    found = true;
                                }
                            }
                            j += 1;
                        }
                        if !found {
                            assert(!has_matching_entry(msg_map@, auth_map@[i as int]));
                            return false;
                        }
                        i += 1;
                    }
                    true
                },
                _ => false,
            }
        },
        Value::Array(auth_array) => {
            match msg {
                Value::Array(msg_array) => {
                    if msg_array.len() != auth_array.len() {
                        return false;
                    }
                    let mut i: usize = 0;
                    while i < auth_array.len()
                        invariant
                            0 <= i <= auth_array@.len(),
                            msg_array@.len() == auth_array@.len(),
                            *authorization == Value::Array(*auth_array),
                            *msg == Value::Array(*msg_array),
                            forall|k: int|
                                #![trigger auth_array@[k]]
                                0 <= k < i ==> pattern_matches(msg_array@[k], auth_array@[k]),
                        decreases auth_array@.len() - i,
                    {
                        proof {
                            assert(decreases_to!(*authorization => (*authorization)->Array_0));
                            assert(decreases_to!(*auth_array => auth_array@));
                            assert(decreases_to!(auth_array@ => auth_array@[i as int]));
                        }
                        if !deep_partial_match(&msg_array[i], &auth_array[i]) {
                            return false;
                        }
                        i += 1;
                    }
                    true
                },
                _ => false,
            }
        },
        _ => scalar_equal(msg, authorization),
    }
}

/// `a` and `b` are the same value: same variants, same scalars, same keys
/// in the same order, all the way down.
pub open spec fn same_value(a: Value, b: Value) -> bool
    decreases a,
{
    match a {
        Value::Array(x) => match b {
            Value::Array(y) => x@.len() == y@.len() && forall|i: int|
                0 <= i < x@.len() ==> same_value(#[trigger] x@[i], y@[i]),
            _ => false,
        },
        Value::Object(x) => match b {
            Value::Object(y) => x@.len() == y@.len() && forall|i: int|
                0 <= i < x@.len() ==> (#[trigger] x@[i]).0@ == y@[i].0@ && same_value(x@[i].1, y@[i].1),
            _ => false,
        },
        _ => scalar_eq(b, a),
    }
}

/// The lists `a` and `b` hold the same values, in order.
pub open spec fn same_values(a: Seq<Value>, b: Seq<Value>) -> bool {
    a.len() == b.len() && forall|i: int| 0 <= i < a.len() ==> same_value(#[trigger] a[i], b[i])
}

/// A copy of `v`.
pub fn copy_value(v: &Value) -> (r: Value)
    ensures
        same_value(r, *v),
    decreases v,
{
    match v {
        Value::Null => Value::Null,
        Value::Bool(b) => Value::Bool(*b),
        Value::U128(n) => Value::U128(*n),
        Value::Number(n) => Value::Number(*n),
        Value::String(s) => Value::String(s.clone()),
        Value::Array(items) => {
            let mut out: Vec<Value> = Vec::new();
            let mut i: usize = 0;
            while i < items.len()
                invariant
                    0 <= i <= items@.len(),
                    *v == Value::Array(*items),
                    out@.len() == i,
                    forall|k: int| 0 <= k < i ==> same_value(#[trigger] out@[k], items@[k]),
                decreases items@.len() - i,
            {
                proof {
                    assert(decreases_to!(*v => (*v)->Array_0));
                    assert(decreases_to!(*items => items@));
                    assert(decreases_to!(items@ => items@[i as int]));
                }
                let c = copy_value(&items[i]);
                out.push(c);
                i += 1;
            }
            let r = Value::Array(out);
            assert(forall|k: int| 0 <= k < out@.len() ==> same_value(#[trigger] out@[k], items@[k]));
            r
        },
        Value::Object(entries) => {
            let mut out: Vec<(String, Value)> = Vec::new();
            let mut i: usize = 0;
            while i < entries.len()
                invariant
                    0 <= i <= entries@.len(),
                    *v == Value::Object(*entries),
                    out@.len() == i,
                    forall|k: int|
                        0 <= k < i ==> (#[trigger] out@[k]).0@ == entries@[k].0@ && same_value(
                            out@[k].1,
                            entries@[k].1,
                        ),
                decreases entries@.len() - i,
            {
                proof {
                    let entry = entries@[i as int];
                    assert(decreases_to!(*v => (*v)->Object_0));
                    assert(decreases_to!(*entries => entries@));
                    assert(decreases_to!(entries@ => entry));
                    assert(decreases_to!(entry => entry.1));
                }
                let k = entries[i].0.clone();
                let c = copy_value(&entries[i].1);
                out.push((k, c));
                i += 1;
            }
            Value::Object(out)
        },
    }
}

/// A copy of each of `vs`, in order.
pub fn copy_values(vs: &Vec<Value>) -> (r: Vec<Value>)
    ensures
        same_values(r@, vs@),
{
    let mut out: Vec<Value> = Vec::new();
    let mut i: usize = 0;
    while i < vs.len()
        invariant
            0 <= i <= vs@.len(),
            out@.len() == i,
            forall|k: int| 0 <= k < i ==> same_value(#[trigger] out@[k], vs@[k]),
        decreases vs@.len() - i,
    {
        out.push(copy_value(&vs[i]));
        i += 1;
    }
    out
}

/// A value that is neither an array nor an object.
pub open spec fn is_scalar(v: Value) -> bool {
    !(v is Array) && !(v is Object)
}

/// An empty object in a pattern is a wildcard: every value matches it,
/// whatever its variant.
pub proof fn lemma_empty_object_matches_anything(v: Value, p: Value)
    requires
        p is Object,
        p->Object_0@.len() == 0,
    ensures
        pattern_matches(v, p),
{
}

/// An entry `(k, {})` of an object pattern asks only that the observed
/// object have the key `k`: the value under `k` may be anything.
pub proof fn lemma_wildcard_entry_needs_only_the_key(vm: Seq<(String, Value)>, entry: (String, Value))
    requires
        entry.1 is Object,
        entry.1->Object_0@.len() == 0,
    ensures
        has_matching_entry(vm, entry) == exists|j: int| 0 <= j < vm.len() && (#[trigger] vm[j]).0@ == entry.0@,
{
    if exists|j: int| 0 <= j < vm.len() && (#[trigger] vm[j]).0@ == entry.0@ {
        let j = choose|j: int| 0 <= j < vm.len() && (#[trigger] vm[j]).0@ == entry.0@;
        lemma_empty_object_matches_anything(vm[j].1, entry.1);
    }
}

/// `v1` and `v2` differ at most where the pattern `p` does not look: under
/// its empty objects (wildcards), at keys that it does not name, and past
/// the end of its arrays. Everywhere else they are the same value.
pub open spec fn agree_under(v1: Value, v2: Value, p: Value) -> bool
    decreases p,
{
    match p {
        Value::Object(pm) => pm@.len() == 0 || match v1 {
            Value::Object(m1) => match v2 {
                Value::Object(m2) => m1@.len() == m2@.len() && forall|j: int|
                    0 <= j < m1@.len() ==> (#[trigger] m1@[j]).0@ == m2@[j].0@ && forall|i: int|
                        0 <= i < pm@.len() && (#[trigger] pm@[i]).0@ == m1@[j].0@ ==> agree_under(
                            m1@[j].1,
                            m2@[j].1,
                            pm@[i].1,
                        ),
                _ => false,
            },
            _ => !(v2 is Object),
        },
        Value::Array(pa) => match v1 {
            Value::Array(a1) => match v2 {
                Value::Array(a2) => a1@.len() == a2@.len() && forall|i: int|
                    0 <= i < a1@.len() && i < pa@.len() ==> agree_under(
                        #[trigger] a1@[i],
                        a2@[i],
                        pa@[i],
                    ),
                _ => false,
            },
            _ => !(v2 is Array),
        },
        _ => same_value(v1, v2),
    }
}

/// What stands at a wildcard never matters: two values that differ only
/// where the pattern `p` has an empty object (or does not look at all),
/// whatever the variants there, both match `p` or both do not.
pub proof fn lemma_wildcards_do_not_matter(v1: Value, v2: Value, p: Value)
    requires
        agree_under(v1, v2, p),
    ensures
        pattern_matches(v1, p) == pattern_matches(v2, p),
    decreases p,
{
    match p {
        Value::Object(pm) => {
            if pm@.len() > 0 && v1 is Object && v2 is Object {
                let m1 = v1->Object_0@;
                let m2 = v2->Object_0@;
                assert forall|i: int| 0 <= i < pm@.len() implies has_matching_entry(
                    m1,
                    #[trigger] pm@[i],
                ) == has_matching_entry(m2, pm@[i]) by {
                    let entry = pm@[i];
                    assert(decreases_to!(p => p->Object_0));
                    assert(decreases_to!(p->Object_0 => pm@));
                    assert(decreases_to!(pm@ => entry));
                    assert(decreases_to!(entry => entry.1));
                    if has_matching_entry(m1, entry) {
                        let j = choose|j: int|
                            0 <= j < m1.len() && (#[trigger] m1[j]).0@ == entry.0@ && pattern_matches(
                                m1[j].1,
                                entry.1,
                            );
                        lemma_wildcards_do_not_matter(m1[j].1, m2[j].1, entry.1);
                        assert(m2[j].0@ == entry.0@);
                    }
                    if has_matching_entry(m2, entry) {
                        let j = choose|j: int|
                            0 <= j < m2.len() && (#[trigger] m2[j]).0@ == entry.0@ && pattern_matches(
                                m2[j].1,
                                entry.1,
                            );
                        assert(m1[j].0@ == entry.0@);
                        lemma_wildcards_do_not_matter(m1[j].1, m2[j].1, entry.1);
                    }
                }
            }
        },
        Value::Array(pa) => {
            if v1 is Array && v2 is Array {
                let a1 = v1->Array_0@;
                let a2 = v2->Array_0@;
                assert forall|i: int| 0 <= i < a1.len() && i < pa@.len() implies pattern_matches(
                    #[trigger] a1[i],
                    pa@[i],
                ) == pattern_matches(a2[i], pa@[i]) by {
                    assert(decreases_to!(p => p->Array_0));
                    assert(decreases_to!(p->Array_0 => pa@));
                    assert(decreases_to!(pa@ => pa@[i]));
                    lemma_wildcards_do_not_matter(a1[i], a2[i], pa@[i]);
                }
            }
        },
        _ => {},
    }
}

/// Matching is directional. With `a = {k: {}}` and `b = {k: s}` for a
/// string `s`, `b` matches the pattern `a` but `a` does not match the
/// pattern `b`.
pub proof fn lemma_matching_is_not_symmetric(a: Value, b: Value)
    requires
        a is Object,
        b is Object,
        a->Object_0@.len() == 1,
        b->Object_0@.len() == 1,
        a->Object_0@[0].0@ == b->Object_0@[0].0@,
        a->Object_0@[0].1 is Object,
        a->Object_0@[0].1->Object_0@.len() == 0,
        b->Object_0@[0].1 is String,
    ensures
        pattern_matches(b, a),
        !pattern_matches(a, b),
{
    let am = a->Object_0@;
    let bm = b->Object_0@;
    lemma_empty_object_matches_anything(bm[0].1, am[0].1);
    assert(has_matching_entry(bm, am[0]));
    assert(!pattern_matches(am[0].1, bm[0].1));
    assert(!has_matching_entry(am, bm[0]));
}

/// An array pattern matches exactly the arrays of its length whose elements
/// match its elements position by position; where its elements are
/// scalars, that is element-wise equality in order.
pub proof fn lemma_array_matching(v: Value, p: Value)
    requires
        p is Array,
    ensures
        pattern_matches(v, p) == (v is Array && v->Array_0@.len() == p->Array_0@.len() && forall|i: int|
            0 <= i < p->Array_0@.len() ==> pattern_matches(v->Array_0@[i], #[trigger] p->Array_0@[i])),
        (forall|i: int| 0 <= i < p->Array_0@.len() ==> is_scalar(#[trigger] p->Array_0@[i]))
            ==> pattern_matches(v, p) == (v is Array && v->Array_0@.len() == p->Array_0@.len()
            && forall|i: int|
            0 <= i < p->Array_0@.len() ==> scalar_eq(v->Array_0@[i], #[trigger] p->Array_0@[i])),
{
    let pa = p->Array_0@;
    if forall|i: int| 0 <= i < pa.len() ==> is_scalar(#[trigger] pa[i]) {
        if v is Array {
            let va = v->Array_0@;
            assert forall|i: int| 0 <= i < pa.len() && i < va.len() implies pattern_matches(va[i], #[trigger] pa[i])
                == scalar_eq(va[i], pa[i]) by {
                assert(is_scalar(pa[i]));
            }
        }
    }
}

} // verus!
