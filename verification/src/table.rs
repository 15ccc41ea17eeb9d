use vstd::prelude::*;

use crate::ids::Uid;

verus! {

// The transaction table of one connection: every transaction id whose call
// is still awaiting its reply, each mapped to the sink that reply must be
// delivered to. The table is owned by exactly one connection event loop;
// an entry is removed exactly once, together with delivering or discarding
// its reply.
/// The association a sequence of entries denotes, later entries winning.
pub open spec fn map_of<S>(s: Seq<(Uid, S)>) -> Map<Uid, S>
    decreases s.len(),
{
    if s.len() == 0 {
        Map::empty()
    } else {
        map_of(s.drop_last()).insert(s.last().0, s.last().1)
    }
}

/// Every transaction pending in `m` appears among `pairs`: no waiting
/// caller is passed over.
pub open spec fn all_pending_covered<S>(m: Map<Uid, S>, pairs: Seq<(Uid, S)>) -> bool {
    forall|k: Uid|
        #[trigger] m.contains_key(k) ==> exists|i: int| 0 <= i < pairs.len() && pairs[i].0 == k
}

/// No transaction id occurs twice among the entries.
pub open spec fn keys_unique<S>(s: Seq<(Uid, S)>) -> bool {
    forall|i: int, j: int| 0 <= i < j < s.len() ==> s[i].0 != s[j].0
}

proof fn lemma_map_of_contains<S>(s: Seq<(Uid, S)>, k: Uid)
    ensures
        map_of(s).contains_key(k) <==> exists|i: int| 0 <= i < s.len() && s[i].0 == k,
    decreases s.len(),
{
    if s.len() > 0 {
        lemma_map_of_contains(s.drop_last(), k);
        if s.last().0 == k {
            assert(s[s.len() - 1].0 == k);
        } else if map_of(s).contains_key(k) {
            let i = choose|i: int| 0 <= i < s.drop_last().len() && s.drop_last()[i].0 == k;
            assert(s[i].0 == k);
        } else {
            assert forall|i: int| 0 <= i < s.len() implies s[i].0 != k by {
                if i < s.len() - 1 {
                    assert(s.drop_last()[i].0 == s[i].0);
                }
            }
        }
    }
}

proof fn lemma_map_of_get<S>(s: Seq<(Uid, S)>, i: int)
    requires
        keys_unique(s),
        0 <= i < s.len(),
    ensures
        map_of(s).contains_key(s[i].0),
        map_of(s)[s[i].0] == s[i].1,
    decreases s.len(),
{
    if i == s.len() - 1 {
        assert(map_of(s).contains_key(s.last().0));
    } else {
        assert(s.drop_last()[i] == s[i]);
        lemma_map_of_get(s.drop_last(), i);
        assert(s[i].0 != s.last().0);
    }
}

proof fn lemma_map_of_len<S>(s: Seq<(Uid, S)>)
    requires
        keys_unique(s),
    ensures
        map_of(s).dom().finite(),
        map_of(s).dom().len() == s.len(),
    decreases s.len(),
{
    if s.len() > 0 {
        lemma_map_of_len(s.drop_last());
        lemma_map_of_contains(s.drop_last(), s.last().0);
        assert forall|i: int| 0 <= i < s.drop_last().len() implies s.drop_last()[i].0
            != s.last().0 by {
            assert(s.drop_last()[i] == s[i]);
        }
        assert(!map_of(s.drop_last()).contains_key(s.last().0));
        assert(map_of(s).dom() =~= map_of(s.drop_last()).dom().insert(s.last().0));
    }
}

proof fn lemma_map_of_remove_idx<S>(s: Seq<(Uid, S)>, i: int)
    requires
        keys_unique(s),
        0 <= i < s.len(),
    ensures
        map_of(s.remove(i)) =~= map_of(s).remove(s[i].0),
        keys_unique(s.remove(i)),
    decreases s.len(),
{
    let k = s[i].0;
    assert(keys_unique(s.remove(i))) by {
        assert forall|a: int, b: int| 0 <= a < b < s.remove(i).len() implies s.remove(i)[a].0
            != s.remove(i)[b].0 by {
            let a2 = if a < i { a } else { a + 1 };
            let b2 = if b < i { b } else { b + 1 };
            assert(s.remove(i)[a] == s[a2] && s.remove(i)[b] == s[b2]);
        }
    }
    if i == s.len() - 1 {
        assert(s.remove(i) =~= s.drop_last());
        lemma_map_of_contains(s.drop_last(), k);
        assert forall|j: int| 0 <= j < s.drop_last().len() implies s.drop_last()[j].0 != k by {
            assert(s.drop_last()[j] == s[j]);
        }
        assert(!map_of(s.drop_last()).contains_key(k));
        assert(map_of(s.drop_last()) =~= map_of(s.drop_last()).insert(k, s[i].1).remove(k));
    } else {
        assert(s.drop_last()[i] == s[i]);
        lemma_map_of_remove_idx(s.drop_last(), i);
        assert(s.remove(i).drop_last() =~= s.drop_last().remove(i));
        assert(s.remove(i).last() == s.last());
        assert(map_of(s.remove(i)) == map_of(s.drop_last().remove(i)).insert(
            s.last().0,
            s.last().1,
        ));
        assert(s.last().0 != k);
        assert(map_of(s.drop_last().remove(i)).insert(s.last().0, s.last().1) =~= map_of(
            s.drop_last(),
        ).remove(k).insert(s.last().0, s.last().1));
        assert(map_of(s.drop_last()).remove(k).insert(s.last().0, s.last().1) =~= map_of(
            s.drop_last(),
        ).insert(s.last().0, s.last().1).remove(k));
    }
}

/// The per-connection table of pending transactions.
pub struct TxnTable<S> {
    entries: Vec<(Uid, S)>,
}

impl<S> TxnTable<S> {
    /// The pending transactions, as a map from id to reply sink.
    pub closed spec fn txns(&self) -> Map<Uid, S> {
        map_of(self.entries@)
    }

    /// Internal well-formedness: one entry per pending transaction id.
    pub closed spec fn wf(&self) -> bool {
        keys_unique(self.entries@)
    }

    pub fn new() -> (t: TxnTable<S>)
        ensures
            t.wf(),
            t.txns() == Map::<Uid, S>::empty(),
    {
        TxnTable { entries: Vec::new() }
    }

    /// Index of the entry for `txn`, if one is pending.
    fn find(&self, txn: &Uid) -> (r: Option<usize>)
        requires
            self.wf(),
        ensures
            match r {
                Some(i) => i < self.entries@.len() && self.entries@[i as int].0 == *txn,
                None => !self.txns().contains_key(*txn),
            },
    {
        let n = self.entries.len();
        let mut i: usize = 0;
        while i < n
            invariant
                n == self.entries@.len(),
                i <= n,
                forall|j: int| 0 <= j < i ==> self.entries@[j].0 != *txn,
            decreases n - i,
        {
            let e = &self.entries[i];
            if e.0.hi == txn.hi && e.0.lo == txn.lo {
                return Some(i);
            }
            i = i + 1;
        }
        proof {
            lemma_map_of_contains(self.entries@, *txn);
        }
        None
    }

    /// Whether a reply for `txn` is still awaited.
    pub fn contains(&self, txn: &Uid) -> (r: bool)
        requires
            self.wf(),
        ensures
            r == self.txns().contains_key(*txn),
    {
        match self.find(txn) {
            Some(i) => {
                proof {
                    lemma_map_of_get(self.entries@, i as int);
                }
                true
            },
            None => false,
        }
    }

    /// Records that `txn` awaits a reply bound for `sink`. A sink already
    /// recorded under the same id is replaced.
    pub fn register(&mut self, txn: Uid, sink: S)
        requires
            old(self).wf(),
        ensures
            final(self).wf(),
            final(self).txns() == old(self).txns().insert(txn, sink),
    {
        let ghost before = self.entries@;
        match self.find(&txn) {
            Some(i) => {
                proof {
                    lemma_map_of_remove_idx(before, i as int);
                }
                self.entries.remove(i);
                self.entries.push((txn, sink));
                proof {
                    lemma_map_of_contains(before.remove(i as int), txn);
                    assert(keys_unique(self.entries@)) by {
                        assert forall|a: int, b: int|
                            0 <= a < b < self.entries@.len() implies self.entries@[a].0
                            != self.entries@[b].0 by {
                            if b == self.entries@.len() - 1 {
                                assert(!map_of(before.remove(i as int)).contains_key(txn));
                                assert(self.entries@[a] == before.remove(i as int)[a]);
                            }
                        }
                    }
                    assert(self.entries@.drop_last() =~= before.remove(i as int));
                    assert(self.txns() == map_of(before.remove(i as int)).insert(txn, sink));
                    assert(map_of(before.remove(i as int)).insert(txn, sink) =~= map_of(
                        before,
                    ).insert(txn, sink));
                }
            },
            None => {
                proof {
                    lemma_map_of_contains(before, txn);
                }
                self.entries.push((txn, sink));
                proof {
                    assert(keys_unique(self.entries@)) by {
                        assert forall|a: int, b: int|
                            0 <= a < b < self.entries@.len() implies self.entries@[a].0
                            != self.entries@[b].0 by {
                            if b == self.entries@.len() - 1 {
                                assert(before[a] == self.entries@[a]);
                            }
                        }
                    }
                    assert(self.entries@.drop_last() =~= before);
                }
            },
        }
    }

    /// Takes the sink awaiting `txn`, if one is pending; the entry is
    /// consumed exactly once.
    pub fn take(&mut self, txn: &Uid) -> (r: Option<S>)
        requires
            old(self).wf(),
        ensures
            final(self).wf(),
            match r {
                Some(sink) => old(self).txns().contains_key(*txn) && sink == old(self).txns()[*txn]
                    && final(self).txns() == old(self).txns().remove(*txn),
                None => !old(self).txns().contains_key(*txn) && final(self).txns() == old(
                    self,
                ).txns(),
            },
    {
        match self.find(txn) {
            Some(i) => {
                proof {
                    lemma_map_of_get(self.entries@, i as int);
                    lemma_map_of_remove_idx(self.entries@, i as int);
                }
                let pair = self.entries.remove(i);
                Some(pair.1)
            },
            None => None,
        }
    }

    /// Number of pending transactions.
    pub fn pending(&self) -> (n: usize)
        requires
            self.wf(),
        ensures
            n == self.txns().dom().len(),
    {
        proof {
            lemma_map_of_len(self.entries@);
        }
        self.entries.len()
    }

    /// Empties the table, handing back every pending transaction with its
    /// sink: when a connection terminates, every waiting caller is
    /// notified, none is left hanging, and nothing but the pending sinks
    /// is handed out.
    #[verifier::rlimit(60)]
    pub fn drain(&mut self) -> (pairs: Vec<(Uid, S)>)
        requires
            old(self).wf(),
        ensures
            final(self).wf(),
            final(self).txns() == Map::<Uid, S>::empty(),
            pairs@.len() == old(self).txns().dom().len(),
            forall|i: int|
                0 <= i < pairs@.len() ==> old(self).txns().contains_key(
                    #[trigger] pairs@[i].0,
                ) && old(self).txns()[pairs@[i].0] == pairs@[i].1,
            forall|i: int, j: int| 0 <= i < j < pairs@.len() ==> pairs@[i].0 != pairs@[j].0,
            all_pending_covered(old(self).txns(), pairs@),
    {
        let ghost before = self.entries@;
        proof {
            lemma_map_of_len(before);
        }
        let n = self.entries.len();
        let mut pairs: Vec<(Uid, S)> = Vec::new();
        while self.entries.len() > 0
            invariant
                keys_unique(before),
                n == before.len(),
                self.entries@.len() + pairs@.len() == n,
                self.entries@ == before.subrange(0, self.entries@.len() as int),
                forall|m: int|
                    0 <= m < pairs@.len() ==> #[trigger] pairs@[m] == before[n - 1 - m],
            decreases self.entries@.len(),
        {
            match self.entries.pop() {
                Some(pair) => {
                    assert(self.entries@ =~= before.subrange(0, self.entries@.len() as int));
                    pairs.push(pair);
                },
                None => {
                    assert(false);
                },
            }
        }
        proof {
            assert(self.entries@ =~= Seq::<(Uid, S)>::empty());
            let ghost m = map_of(before);
            let ghost out = pairs@;
            assert forall|i: int| 0 <= i < out.len() implies m.contains_key(#[trigger] out[i].0)
                && m[out[i].0] == out[i].1 by {
                lemma_map_of_get(before, n - 1 - i);
            }
            assert(all_pending_covered(m, out)) by {
                assert forall|k: Uid| #[trigger] m.contains_key(k) implies exists|i: int|
                    0 <= i < out.len() && out[i].0 == k by {
                    lemma_map_of_contains(before, k);
                    let j = choose|j: int| 0 <= j < before.len() && before[j].0 == k;
                    assert(0 <= n - 1 - j < out.len() && out[n - 1 - j].0 == k);
                }
            }
            assert(m == old(self).txns());
        }
        pairs
    }
}

} // verus!
