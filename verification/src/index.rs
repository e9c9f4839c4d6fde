use vstd::prelude::*;

verus! {

/// The pairs of a listing, each path read as its character sequence.
pub open spec fn pair_views(entries: Seq<(i64, String)>) -> Seq<(i64, Seq<char>)> {
    entries.map_values(|p: (i64, String)| (p.0, p.1@))
}

/// The mapping that a sequence of (timestamp, path) pairs builds up when
/// its pairs are entered in order: on equal timestamps the later pair wins.
pub open spec fn map_of(pairs: Seq<(i64, Seq<char>)>) -> Map<i64, Seq<char>>
    decreases pairs.len(),
{
    if pairs.len() == 0 {
        Map::empty()
    } else {
        map_of(pairs.drop_last()).insert(pairs.last().0, pairs.last().1)
    }
}

/// The path of the last pair of `pairs` that carries timestamp `k` (the
/// empty sequence where no pair does).
pub open spec fn last_path_for(pairs: Seq<(i64, Seq<char>)>, k: i64) -> Seq<char>
    decreases pairs.len(),
{
    if pairs.len() == 0 {
        Seq::empty()
    } else if pairs.last().0 == k {
        pairs.last().1
    } else {
        last_path_for(pairs.drop_last(), k)
    }
}

/// An ordered mapping from deletion timestamp to original path: the
/// in-memory picture of the trash for one run, oldest entry first.
pub struct DeletionIndex {
    entries: Vec<(i64, String)>,
}

impl DeletionIndex {
    /// The entries in their stored order.
    pub closed spec fn view(&self) -> Seq<(i64, Seq<char>)> {
        pair_views(self.entries@)
    }

    /// Timestamps strictly increase along the stored order: the index is
    /// sorted ascending and holds each timestamp at most once.
    pub open spec fn wf(&self) -> bool {
        forall|i: int, j: int|
            0 <= i < j < self@.len() ==> (#[trigger] self@[i]).0 < (#[trigger] self@[j]).0
    }

    /// The index read as a mapping from timestamp to path.
    pub open spec fn as_map(&self) -> Map<i64, Seq<char>> {
        map_of(self@)
    }

    /// An empty index.
    pub fn new() -> (r: Self)
        ensures
            r.wf(),
            r@ == Seq::<(i64, Seq<char>)>::empty(),
            r.as_map() == Map::<i64, Seq<char>>::empty(),
    {
        let r = DeletionIndex { entries: Vec::new() };
        proof {
            assert(r@ =~= Seq::<(i64, Seq<char>)>::empty());
        }
        r
    }

    /// The number of entries.
    pub fn len(&self) -> (r: usize)
        ensures
            r == self@.len(),
    {
        self.entries.len()
    }

    /// The entry at position `i` of the ascending order.
    pub fn entry_at(&self, i: usize) -> (r: (i64, String))
        requires
            i < self@.len(),
        ensures
            r.0 == self@[i as int].0,
            r.1@ == self@[i as int].1,
    {
        let ts: i64 = self.entries[i].0;
        let path: String = self.entries[i].1.clone();
        (ts, path)
    }

    /// Enter one (timestamp, path) pair, keeping the ascending order; a
    /// pair with an already-present timestamp replaces the stored path.
    pub fn insert(&mut self, ts: i64, path: String)
        requires
            old(self).wf(),
        ensures
            final(self).wf(),
            final(self).as_map() == old(self).as_map().insert(ts, path@),
    {
        let ghost s = self@;
        let mut i: usize = 0;
        while i < self.entries.len() && self.entries[i].0 < ts
            invariant
                *self == *old(self),
                i <= self@.len(),
                forall|j: int| 0 <= j < i ==> (#[trigger] self@[j]).0 < ts,
            decreases self@.len() - i,
        {
            i = i + 1;
        }
        if i < self.entries.len() && self.entries[i].0 == ts {
            self.entries.set(i, (ts, path));
            proof {
                assert(self@ =~= s.update(i as int, (ts, path@)));
                assert(forall|j: int| 0 <= j < s.len() && j != i ==> (#[trigger] s[j]).0 != ts) by {
                    assert(forall|j: int| i < j < s.len() ==> s[i as int].0 < (#[trigger] s[j]).0);
                }
                lemma_map_of_update(s, i as int, ts, path@);
                assert(forall|j: int| 0 <= j < self@.len() ==> (#[trigger] self@[j]).0 == s[j].0);
            }
        } else {
            self.entries.insert(i, (ts, path));
            proof {
                assert(self@ =~= s.insert(i as int, (ts, path@)));
                assert(forall|j: int| 0 <= j < s.len() ==> (#[trigger] s[j]).0 != ts) by {
                    assert(forall|j: int| i <= j < s.len() ==> s[i as int].0 <= (#[trigger] s[j]).0);
                }
                lemma_map_of_insert(s, i as int, ts, path@);
                let t = self@;
                assert forall|a: int, b: int| 0 <= a < b < t.len() implies (#[trigger] t[a]).0
                    < (#[trigger] t[b]).0 by {
                    if a < i && b < i {
                        assert(t[a] == s[a] && t[b] == s[b]);
                    } else if a < i && b == i {
                        assert(t[a] == s[a] && t[b].0 == ts);
                    } else if a < i && b > i {
                        assert(t[a] == s[a] && t[b] == s[b - 1]);
                    } else if a == i && b > i {
                        assert(t[a].0 == ts && t[b] == s[b - 1]);
                        assert(i <= b - 1 < s.len());
                        assert(s[i as int].0 <= s[b - 1].0 && s[b - 1].0 != ts);
                    } else {
                        assert(t[a] == s[a - 1] && t[b] == s[b - 1]);
                    }
                }
            }
        }
    }
}

/// Replacing the one pair that holds key `k` acts on the mapping as an
/// insert of the new path at `k`.
proof fn lemma_map_of_update(s: Seq<(i64, Seq<char>)>, i: int, k: i64, v: Seq<char>)
    requires
        0 <= i < s.len(),
        s[i].0 == k,
        forall|j: int| 0 <= j < s.len() && j != i ==> (#[trigger] s[j]).0 != k,
    ensures
        map_of(s.update(i, (k, v))) == map_of(s).insert(k, v),
    decreases s.len(),
{
    let t = s.update(i, (k, v));
    if i == s.len() - 1 {
        assert(t.drop_last() =~= s.drop_last());
        assert(t.last() == (k, v));
        assert(map_of(s).insert(k, v) =~= map_of(s.drop_last()).insert(k, v));
        assert(map_of(t) == map_of(s.drop_last()).insert(k, v));
    } else {
        assert(t.drop_last() =~= s.drop_last().update(i, (k, v)));
        assert(t.last() == s.last());
        assert(forall|j: int|
            0 <= j < s.drop_last().len() && j != i ==> (#[trigger] s.drop_last()[j]).0 != k);
        lemma_map_of_update(s.drop_last(), i, k, v);
        assert(s.last().0 != k);
        assert(map_of(s.drop_last()).insert(k, v).insert(s.last().0, s.last().1) =~= map_of(
            s.drop_last(),
        ).insert(s.last().0, s.last().1).insert(k, v));
        assert(map_of(t) =~= map_of(s).insert(k, v));
    }
}

/// Placing a pair with a fresh key `k` anywhere in the order acts on the
/// mapping as an insert of its path at `k`.
proof fn lemma_map_of_insert(s: Seq<(i64, Seq<char>)>, i: int, k: i64, v: Seq<char>)
    requires
        0 <= i <= s.len(),
        forall|j: int| 0 <= j < s.len() ==> (#[trigger] s[j]).0 != k,
    ensures
        map_of(s.insert(i, (k, v))) == map_of(s).insert(k, v),
    decreases s.len(),
{
    let t = s.insert(i, (k, v));
    if i == s.len() {
        assert(t.drop_last() =~= s);
        assert(t.last() == (k, v));
        assert(map_of(t) == map_of(s).insert(k, v));
    } else {
        assert(t.last() == s.last());
        assert(t.drop_last() =~= s.drop_last().insert(i, (k, v)));
        assert(forall|j: int|
            0 <= j < s.drop_last().len() ==> (#[trigger] s.drop_last()[j]).0 != k);
        lemma_map_of_insert(s.drop_last(), i, k, v);
        assert(s.last().0 != k);
        assert(map_of(s.drop_last()).insert(k, v).insert(s.last().0, s.last().1) =~= map_of(
            s.drop_last(),
        ).insert(s.last().0, s.last().1).insert(k, v));
        assert(map_of(t) =~= map_of(s).insert(k, v));
    }
}

/// Building an index from a listing's pairs, entered in order.
pub fn build_index(pairs: &Vec<(i64, String)>) -> (r: DeletionIndex)
    ensures
        r.wf(),
        r.as_map() == map_of(pair_views(pairs@)),
{
    let ghost all = pair_views(pairs@);
    let mut idx = DeletionIndex::new();
    let mut j: usize = 0;
    while j < pairs.len()
        invariant
            j <= pairs@.len(),
            all == pair_views(pairs@),
            idx.wf(),
            idx.as_map() == map_of(all.take(j as int)),
        decreases pairs@.len() - j,
    {
        let ts: i64 = pairs[j].0;
        let path: String = pairs[j].1.clone();
        idx.insert(ts, path);
        proof {
            assert(all.take(j + 1).drop_last() =~= all.take(j as int));
            assert(all.take(j + 1).last() == all[j as int]);
        }
        j = j + 1;
    }
    proof {
        assert(all.take(all.len() as int) =~= all);
    }
    idx
}

/// The deletion index of a listing holds exactly one entry per distinct
/// timestamp among the listing's pairs — no more and no fewer — and on
/// duplicate timestamps the path of the later pair wins.
pub proof fn lemma_index_last_write_wins(pairs: Seq<(i64, Seq<char>)>)
    ensures
        forall|k: i64|
            #[trigger] map_of(pairs).dom().contains(k) <==> exists|i: int|
                0 <= i < pairs.len() && (#[trigger] pairs[i]).0 == k,
        forall|k: i64|
            #[trigger] map_of(pairs).dom().contains(k) ==> map_of(pairs)[k] == last_path_for(
                pairs,
                k,
            ),
    decreases pairs.len(),
{
    if pairs.len() == 0 {
    } else {
        let s = pairs.drop_last();
        lemma_index_last_write_wins(s);
        assert forall|k: i64| #[trigger] map_of(pairs).dom().contains(k) implies exists|i: int|
            0 <= i < pairs.len() && (#[trigger] pairs[i]).0 == k by {
            if k == pairs.last().0 {
                assert(pairs[pairs.len() - 1].0 == k);
            } else {
                assert(map_of(s).dom().contains(k));
                let i = choose|i: int| 0 <= i < s.len() && (#[trigger] s[i]).0 == k;
                assert(pairs[i].0 == k);
            }
        }
        assert forall|k: i64|
            exists|i: int| 0 <= i < pairs.len() && (#[trigger] pairs[i]).0 == k implies #[trigger]
            map_of(pairs).dom().contains(k) by {
            let i = choose|i: int| 0 <= i < pairs.len() && (#[trigger] pairs[i]).0 == k;
            if i == pairs.len() - 1 {
                assert(map_of(pairs).dom().contains(k));
            } else {
                assert(s[i].0 == k);
                assert(map_of(s).dom().contains(k));
            }
        }
        assert forall|k: i64| #[trigger] map_of(pairs).dom().contains(k) implies map_of(pairs)[k]
            == last_path_for(pairs, k) by {
            if k != pairs.last().0 {
                assert(map_of(pairs)[k] == map_of(s)[k]);
            }
        }
    }
}

} // verus!
