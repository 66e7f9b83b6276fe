use vstd::prelude::*;

verus! {

/// A set of account identifiers, kept as a list without repeats in the
/// order the accounts were added.
pub struct AddressSet {
    pub addrs: Vec<String>,
}

impl AddressSet {
    /// No account appears twice.
    pub open spec fn wf(&self) -> bool {
        forall|i: int, j: int|
            0 <= i < j < self.addrs@.len() ==> (#[trigger] self.addrs@[i])@ != (#[trigger] self.addrs@[j])@
    }

    /// `a` is a member.
    pub open spec fn has(&self, a: Seq<char>) -> bool {
        exists|i: int| 0 <= i < self.addrs@.len() && (#[trigger] self.addrs@[i])@ == a
    }

    /// The members as a set.
    pub open spec fn members(&self) -> Set<Seq<char>> {
        Set::new(|a: Seq<char>| self.has(a))
    }

    /// The empty set.
    pub fn new() -> (r: AddressSet)
        ensures
            r.wf(),
            r.addrs@.len() == 0,
            r.members() == Set::<Seq<char>>::empty(),
    {
        let r = AddressSet { addrs: Vec::new() };
        assert(r.members() =~= Set::<Seq<char>>::empty());
        r
    }

    /// The set of the accounts in `addrs`, each once, in order of first
    /// appearance.
    pub fn from_list(addrs: Vec<String>) -> (r: AddressSet)
        ensures
            r.wf(),
            forall|a: Seq<char>|
                r.has(a) <==> exists|i: int| 0 <= i < addrs@.len() && (#[trigger] addrs@[i])@ == a,
    {
        let mut r = AddressSet::new();
        let mut i: usize = 0;
        while i < addrs.len()
            invariant
                0 <= i <= addrs@.len(),
                r.wf(),
                forall|a: Seq<char>|
                    r.has(a) <==> exists|k: int| 0 <= k < i && (#[trigger] addrs@[k])@ == a,
            decreases addrs@.len() - i,
        {
            let a = addrs[i].clone();
            r.insert(a);
            proof {
                assert forall|b: Seq<char>|
                    r.has(b) <==> exists|k: int| 0 <= k < i + 1 && (#[trigger] addrs@[k])@ == b by {
                    if b == addrs@[i as int]@ {
                        assert(addrs@[i as int]@ == b);
                    }
                }
            }
            i += 1;
        }
        r
    }

    /// Whether no account appears twice.
    pub fn is_wf(&self) -> (r: bool)
        ensures
            r == self.wf(),
    {
        let n = self.addrs.len();
        let mut j: usize = 0;
        while j < n
            invariant
                0 <= j <= n,
                n == self.addrs@.len(),
                forall|a: int, b: int|
                    0 <= a < b < j ==> (#[trigger] self.addrs@[a])@ != (#[trigger] self.addrs@[b])@,
            decreases n - j,
        {
            let mut i: usize = 0;
            while i < j
                invariant
                    0 <= i <= j < n,
                    n == self.addrs@.len(),
                    forall|a: int, b: int|
                        0 <= a < b < j ==> (#[trigger] self.addrs@[a])@ != (#[trigger] self.addrs@[b])@,
                    forall|a: int| 0 <= a < i ==> (#[trigger] self.addrs@[a])@ != self.addrs@[j as int]@,
                decreases j - i,
            {
                if self.addrs[i] == self.addrs[j] {
                    return false;
                }
                i += 1;
            }
            j += 1;
        }
        true
    }

    /// Whether `a` is a member.
    pub fn contains(&self, a: &String) -> (r: bool)
        ensures
            r == self.has(a@),
    {
        let mut i: usize = 0;
        while i < self.addrs.len()
            invariant
                0 <= i <= self.addrs@.len(),
                forall|k: int| 0 <= k < i ==> (#[trigger] self.addrs@[k])@ != a@,
            decreases self.addrs@.len() - i,
        {
            if self.addrs[i] == *a {
                return true;
            }
            i += 1;
        }
        false
    }

    /// Adds `a`; a member already there stays where it is.
    pub fn insert(&mut self, a: String)
        requires
            old(self).wf(),
        ensures
            final(self).wf(),
            old(self).has(a@) ==> final(self).addrs@ == old(self).addrs@,
            !old(self).has(a@) ==> final(self).addrs@ == old(self).addrs@.push(a),
            forall|b: Seq<char>| final(self).has(b) <==> (old(self).has(b) || b == a@),
            final(self).members() == old(self).members().insert(a@),
    {
        if !self.contains(&a) {
            self.addrs.push(a);
            proof {
                let n = old(self).addrs@.len();
                assert(self.addrs@[n as int]@ == a@);
                assert forall|b: Seq<char>| self.has(b) <==> (old(self).has(b) || b == a@) by {
                    if old(self).has(b) {
                        let k = choose|k: int| 0 <= k < n && (#[trigger] old(self).addrs@[k])@ == b;
                        assert(self.addrs@[k] == old(self).addrs@[k]);
                    }
                    if self.has(b) && b != a@ {
                        let k = choose|k: int| 0 <= k < n + 1 && (#[trigger] self.addrs@[k])@ == b;
                        assert(old(self).addrs@[k] == self.addrs@[k]);
                    }
                }
            }
        } else {
            proof {
                assert forall|b: Seq<char>| self.has(b) <==> (old(self).has(b) || b == a@) by {}
            }
        }
        assert(self.members() =~= old(self).members().insert(a@));
    }

    /// Removes `a`, keeping the order of the others; tells whether it was a
    /// member.
    pub fn remove(&mut self, a: &String) -> (r: bool)
        requires
            old(self).wf(),
        ensures
            final(self).wf(),
            r == old(self).has(a@),
            !r ==> final(self).addrs@ == old(self).addrs@,
            r ==> exists|i: int|
                0 <= i < old(self).addrs@.len() && (#[trigger] old(self).addrs@[i])@ == a@
                    && final(self).addrs@ == old(self).addrs@.remove(i),
            forall|b: Seq<char>| final(self).has(b) <==> (old(self).has(b) && b != a@),
            final(self).members() == old(self).members().remove(a@),
    {
        let mut i: usize = 0;
        while i < self.addrs.len()
            invariant
                0 <= i <= self.addrs@.len(),
                self.addrs@ == old(self).addrs@,
                old(self).wf(),
                forall|k: int| 0 <= k < i ==> (#[trigger] self.addrs@[k])@ != a@,
            decreases self.addrs@.len() - i,
        {
            if self.addrs[i] == *a {
                self.addrs.remove(i);
                proof {
                    let old_addrs = old(self).addrs@;
                    let n = old_addrs.len();
                    assert(old_addrs[i as int]@ == a@);
                    assert(self.addrs@ == old_addrs.remove(i as int));
                    assert forall|b: Seq<char>| self.has(b) <==> (old(self).has(b) && b != a@) by {
                        if old(self).has(b) && b != a@ {
                            let k = choose|k: int| 0 <= k < n && (#[trigger] old_addrs[k])@ == b;
                            if k < i {
                                assert(self.addrs@[k] == old_addrs[k]);
                            } else {
                                assert(self.addrs@[k - 1] == old_addrs[k]);
                            }
                        }
                        if self.has(b) {
                            let k = choose|k: int| 0 <= k < n - 1 && (#[trigger] self.addrs@[k])@ == b;
                            if k < i {
                                assert(self.addrs@[k] == old_addrs[k]);
                            } else {
                                assert(self.addrs@[k] == old_addrs[k + 1]);
                            }
                        }
                    }
                    assert forall|p: int, q: int|
                        0 <= p < q < self.addrs@.len() implies (#[trigger] self.addrs@[p])@ != (
                        #[trigger] self.addrs@[q])@ by {
                        let p0 = if p < i {
                            p
                        } else {
                            p + 1
                        };
                        let q0 = if q < i {
                            q
                        } else {
                            q + 1
                        };
                        assert(self.addrs@[p] == old_addrs[p0]);
                        assert(self.addrs@[q] == old_addrs[q0]);
                    }
                    assert(self.members() =~= old(self).members().remove(a@));
                }
                return true;
            }
            i += 1;
        }
        assert(self.members() =~= old(self).members().remove(a@));
        false
    }

    /// The members, in order.
    pub fn to_vec(&self) -> (r: Vec<String>)
        ensures
            r@ == self.addrs@,
    {
        let mut r: Vec<String> = Vec::new();
        let mut i: usize = 0;
        while i < self.addrs.len()
            invariant
                0 <= i <= self.addrs@.len(),
                r@ == self.addrs@.subrange(0, i as int),
            decreases self.addrs@.len() - i,
        {
            r.push(self.addrs[i].clone());
            assert(r@ =~= self.addrs@.subrange(0, i + 1));
            i += 1;
        }
        assert(r@ =~= self.addrs@);
        r
    }
}

} // verus!
