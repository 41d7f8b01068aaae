//! A small verified key/value table for token bookkeeping: an association
//! list from `u128` keys to `u128` amounts, where an absent key stands for a
//! zero amount. Beside the lookup it tracks the mathematical total of all
//! stored amounts, which lets the token ledger tie its supply to its balances.

use vstd::prelude::*;

verus! {

/// Amount stored under `k`, zero when `k` is absent.
pub open spec fn spec_lookup(s: Seq<(u128, u128)>, k: u128) -> u128
    decreases s.len(),
{
    if s.len() == 0 {
        0
    } else if s.first().0 == k {
        s.first().1
    } else {
        spec_lookup(s.drop_first(), k)
    }
}

/// Sum of every stored amount, as a mathematical integer.
pub open spec fn spec_total(s: Seq<(u128, u128)>) -> int
    decreases s.len(),
{
    if s.len() == 0 {
        0
    } else {
        s.first().1 + spec_total(s.drop_first())
    }
}

/// No key occurs twice.
pub open spec fn distinct_keys(s: Seq<(u128, u128)>) -> bool {
    forall|i: int, j: int| 0 <= i < j < s.len() ==> s[i].0 != s[j].0
}

/// The amount under any one key never exceeds the total of all amounts.
pub proof fn lemma_lookup_le_total(s: Seq<(u128, u128)>, k: u128)
    ensures
        spec_lookup(s, k) <= spec_total(s),
        0 <= spec_total(s),
    decreases s.len(),
{
    if s.len() > 0 {
        lemma_lookup_le_total(s.drop_first(), k);
    }
}

/// Overwriting the entry at `i`, the first one that holds `k`, changes the
/// lookup of `k` alone and moves the total by the difference.
proof fn lemma_update(s: Seq<(u128, u128)>, i: int, k: u128, v: u128)
    requires
        0 <= i < s.len(),
        s[i].0 == k,
        forall|j: int| 0 <= j < i ==> s[j].0 != k,
    ensures
        spec_lookup(s, k) == s[i].1,
        spec_lookup(s.update(i, (k, v)), k) == v,
        forall|k2: u128| k2 != k ==> spec_lookup(s.update(i, (k, v)), k2) == spec_lookup(s, k2),
        spec_total(s.update(i, (k, v))) == spec_total(s) - s[i].1 + v,
    decreases i,
{
    let s2 = s.update(i, (k, v));
    if i == 0 {
        assert(s2.drop_first() =~= s.drop_first());
        assert forall|k2: u128| k2 != k implies spec_lookup(s2, k2) == spec_lookup(s, k2) by {
            assert(spec_lookup(s2, k2) == spec_lookup(s2.drop_first(), k2));
            assert(spec_lookup(s, k2) == spec_lookup(s.drop_first(), k2));
        }
    } else {
        assert(s2.first() == s.first());
        assert(s2.drop_first() =~= s.drop_first().update(i - 1, (k, v)));
        lemma_update(s.drop_first(), i - 1, k, v);
        assert forall|k2: u128| k2 != k implies spec_lookup(s2, k2) == spec_lookup(s, k2) by {
            if s.first().0 != k2 {
                assert(spec_lookup(s2, k2) == spec_lookup(s2.drop_first(), k2));
                assert(spec_lookup(s, k2) == spec_lookup(s.drop_first(), k2));
            }
        }
    }
}

/// Appending an entry for a key that is absent sets the lookup of that key,
/// leaves every other lookup alone, and adds the new amount to the total.
proof fn lemma_push(s: Seq<(u128, u128)>, k: u128, v: u128)
    requires
        forall|j: int| 0 <= j < s.len() ==> s[j].0 != k,
    ensures
        spec_lookup(s, k) == 0,
        spec_lookup(s.push((k, v)), k) == v,
        forall|k2: u128| k2 != k ==> spec_lookup(s.push((k, v)), k2) == spec_lookup(s, k2),
        spec_total(s.push((k, v))) == spec_total(s) + v,
    decreases s.len(),
{
    let s2 = s.push((k, v));
    if s.len() == 0 {
        assert(s2.drop_first() =~= s);
    } else {
        assert(s2.first() == s.first());
        assert(s2.drop_first() =~= s.drop_first().push((k, v)));
        lemma_push(s.drop_first(), k, v);
        assert forall|k2: u128| k2 != k implies spec_lookup(s2, k2) == spec_lookup(s, k2) by {
            if s.first().0 != k2 {
                assert(spec_lookup(s2, k2) == spec_lookup(s2.drop_first(), k2));
                assert(spec_lookup(s, k2) == spec_lookup(s.drop_first(), k2));
            }
        }
    }
}

/// Association list from keys to amounts; an absent key holds zero.
pub struct AmountTable {
    pub entries: Vec<(u128, u128)>,
}

impl AmountTable {
    pub open spec fn wf(self) -> bool {
        distinct_keys(self.entries@)
    }

    pub open spec fn spec_get(self, k: u128) -> u128 {
        spec_lookup(self.entries@, k)
    }

    pub open spec fn total(self) -> int {
        spec_total(self.entries@)
    }

    pub fn new() -> (t: AmountTable)
        ensures
            t.wf(),
            t.entries@.len() == 0,
            t.total() == 0,
            forall|k: u128| t.spec_get(k) == 0,
    {
        AmountTable { entries: Vec::new() }
    }

    pub fn get(&self, k: u128) -> (v: u128)
        ensures
            v == self.spec_get(k),
    {
        let n: usize = self.entries.len();
        let mut i: usize = 0;
        proof {
            assert(self.entries@.subrange(0, n as int) =~= self.entries@);
        }
        while i < n
            invariant
                n == self.entries@.len(),
                0 <= i <= n,
                spec_lookup(self.entries@.subrange(i as int, n as int), k) == self.spec_get(k),
            decreases n - i,
        {
            let (key, value) = self.entries[i];
            proof {
                let rest = self.entries@.subrange(i as int, n as int);
                assert(rest.first() == self.entries@[i as int]);
                assert(rest.drop_first() =~= self.entries@.subrange(i + 1, n as int));
            }
            if key == k {
                return value;
            }
            i = i + 1;
        }
        proof {
            assert(self.entries@.subrange(n as int, n as int).len() == 0);
        }
        0
    }

    pub fn set(&mut self, k: u128, v: u128)
        requires
            old(self).wf(),
        ensures
            final(self).wf(),
            final(self).spec_get(k) == v,
            forall|k2: u128| k2 != k ==> final(self).spec_get(k2) == old(self).spec_get(k2),
            final(self).total() == old(self).total() - old(self).spec_get(k) + v,
    {
        let n: usize = self.entries.len();
        let mut i: usize = 0;
        while i < n
            invariant
                self.entries@ == old(self).entries@,
                distinct_keys(self.entries@),
                n == self.entries@.len(),
                0 <= i <= n,
                forall|j: int| 0 <= j < i ==> self.entries@[j].0 != k,
            decreases n - i,
        {
            let (key, _) = self.entries[i];
            if key == k {
                proof {
                    lemma_update(self.entries@, i as int, k, v);
                    let s2 = self.entries@.update(i as int, (k, v));
                    assert forall|a: int, b: int| 0 <= a < b < s2.len() implies s2[a].0 != s2[b].0 by {
                        assert(self.entries@[a].0 != self.entries@[b].0);
                    }
                }
                self.entries[i] = (k, v);
                return;
            }
            i = i + 1;
        }
        proof {
            lemma_push(self.entries@, k, v);
            let s2 = self.entries@.push((k, v));
            assert forall|a: int, b: int| 0 <= a < b < s2.len() implies s2[a].0 != s2[b].0 by {
                if b < self.entries@.len() {
                    assert(self.entries@[a].0 != self.entries@[b].0);
                } else {
                    assert(self.entries@[a].0 != k);
                }
            }
        }
        self.entries.push((k, v));
    }
}

} // verus!
