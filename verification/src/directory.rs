use vstd::prelude::*;

use crate::message::RingId;

verus! {

/// What the directory records per ring: the opaque token naming the relay
/// actor's mailbox, and the ring's configured chunk count (duplicated here so
/// client-supplied chunk indices can be validated without crossing into the
/// actor).
#[derive(Clone, Copy, PartialEq, Eq, Debug, Structural)]
pub struct RingMeta {
    pub mailbox: u64,
    pub chunk_num: u64,
}

/// The map an entry list denotes: a later entry for the same ring overrides
/// an earlier one.
pub open spec fn as_map(s: Seq<(u64, RingMeta)>) -> Map<u64, RingMeta>
    decreases s.len(),
{
    if s.len() == 0 {
        Map::empty()
    } else {
        as_map(s.drop_last()).insert(s.last().0, s.last().1)
    }
}

/// A ring identifier occurs at most once in the list.
pub open spec fn unique_keys(s: Seq<(u64, RingMeta)>) -> bool {
    forall|i: int, j: int| 0 <= i < j < s.len() ==> s[i].0 != s[j].0
}

pub proof fn lemma_as_map_contains(s: Seq<(u64, RingMeta)>, k: u64)
    ensures
        as_map(s).contains_key(k) <==> exists|i: int| 0 <= i < s.len() && s[i].0 == k,
    decreases s.len(),
{
    if s.len() > 0 {
        lemma_as_map_contains(s.drop_last(), k);
        if s.last().0 == k {
            assert(s[s.len() - 1].0 == k);
        } else if as_map(s.drop_last()).contains_key(k) {
            let i = choose|i: int| 0 <= i < s.drop_last().len() && s.drop_last()[i].0 == k;
            assert(s[i].0 == k);
        } else if exists|i: int| 0 <= i < s.len() && s[i].0 == k {
            let i = choose|i: int| 0 <= i < s.len() && s[i].0 == k;
            assert(s.drop_last()[i].0 == k);
        }
    }
}

pub proof fn lemma_as_map_index(s: Seq<(u64, RingMeta)>, j: int)
    requires
        unique_keys(s),
        0 <= j < s.len(),
    ensures
        as_map(s).contains_key(s[j].0),
        as_map(s)[s[j].0] == s[j].1,
    decreases s.len(),
{
    if j == s.len() - 1 {
    } else {
        lemma_as_map_index(s.drop_last(), j);
        assert(s.drop_last()[j] == s[j]);
        assert(s[j].0 != s.last().0);
    }
}

pub proof fn lemma_as_map_remove(s: Seq<(u64, RingMeta)>, j: int)
    requires
        unique_keys(s),
        0 <= j < s.len(),
    ensures
        as_map(s.remove(j)) == as_map(s).remove(s[j].0),
    decreases s.len(),
{
    if j == s.len() - 1 {
        assert(s.remove(j) =~= s.drop_last());
        lemma_as_map_contains(s.drop_last(), s[j].0);
        assert(forall|i: int| 0 <= i < s.drop_last().len() ==> s.drop_last()[i] == s[i]);
        assert(!as_map(s.drop_last()).contains_key(s[j].0));
        assert(as_map(s.drop_last()).insert(s[j].0, s[j].1).remove(s[j].0) =~= as_map(
            s.drop_last(),
        ));
    } else {
        let t = s.remove(j);
        assert(t.len() == s.len() - 1);
        assert(t.last() == s.last());
        assert(t.drop_last() =~= s.drop_last().remove(j));
        assert(forall|a: int, b: int|
            0 <= a < b < s.drop_last().len() ==> s.drop_last()[a].0 != s.drop_last()[b].0);
        lemma_as_map_remove(s.drop_last(), j);
        assert(s.drop_last()[j] == s[j]);
        assert(as_map(t) == as_map(s.drop_last()).remove(s[j].0).insert(s.last().0, s.last().1));
        assert(s[j].0 != s.last().0);
        assert(as_map(s.drop_last()).remove(s[j].0).insert(s.last().0, s.last().1) =~= as_map(
            s.drop_last(),
        ).insert(s.last().0, s.last().1).remove(s[j].0));
    }
}

/// The process-local directory: which rings this node hosts, and for each,
/// its mailbox token and chunk count. One relay actor exists per entry.
pub struct Directory {
    pub entries: Vec<(u64, RingMeta)>,
}

impl View for Directory {
    type V = Map<u64, RingMeta>;

    open spec fn view(&self) -> Map<u64, RingMeta> {
        as_map(self.entries@)
    }
}

impl Directory {
    /// The directory's internal bookkeeping is intact.
    pub open spec fn wf(&self) -> bool {
        unique_keys(self.entries@)
    }

    /// An empty directory: no ring is hosted.
    pub fn new() -> (d: Directory)
        ensures
            d.wf(),
            d@ == Map::<u64, RingMeta>::empty(),
            d.entries@.len() == 0,
    {
        Directory { entries: Vec::new() }
    }

    /// The position of `ring_id`'s entry, if one exists.
    fn find(&self, ring_id: u64) -> (r: Option<usize>)
        ensures
            match r {
                Some(j) => j < self.entries@.len() && self.entries@[j as int].0 == ring_id,
                None => forall|i: int| 0 <= i < self.entries@.len() ==> self.entries@[i].0 != ring_id,
            },
    {
        let mut i: usize = 0;
        while i < self.entries.len()
            invariant
                i <= self.entries@.len(),
                forall|j: int| 0 <= j < i ==> self.entries@[j].0 != ring_id,
            decreases self.entries@.len() - i,
        {
            if self.entries[i].0 == ring_id {
                return Some(i);
            }
            i += 1;
        }
        None
    }

    /// Record `meta` for `ring_id`, replacing any earlier record.
    pub fn insert(&mut self, ring_id: RingId, meta: RingMeta)
        requires
            old(self).wf(),
        ensures
            final(self).wf(),
            final(self)@ == old(self)@.insert(ring_id.0, meta),
    {
        match self.find(ring_id.0) {
            Some(j) => {
                proof {
                    lemma_as_map_remove(self.entries@, j as int);
                }
                self.entries.remove(j);
                proof {
                    assert(forall|i: int|
                        0 <= i < self.entries@.len() ==> self.entries@[i].0 != ring_id.0);
                }
            }
            None => {}
        }
        let ghost mid = self.entries@;
        self.entries.push((ring_id.0, meta));
        proof {
            assert(self.entries@.drop_last() =~= mid);
            assert(as_map(mid).insert(ring_id.0, meta) =~= old(self)@.insert(ring_id.0, meta));
        }
    }

    /// The record for `ring_id`: `Some` exactly when this node hosts the ring.
    pub fn get(&self, ring_id: RingId) -> (r: Option<RingMeta>)
        requires
            self.wf(),
        ensures
            match r {
                Some(meta) => self@.contains_key(ring_id.0) && meta == self@[ring_id.0],
                None => !self@.contains_key(ring_id.0),
            },
    {
        proof {
            lemma_as_map_contains(self.entries@, ring_id.0);
        }
        match self.find(ring_id.0) {
            Some(j) => {
                proof {
                    lemma_as_map_index(self.entries@, j as int);
                }
                Some(self.entries[j].1)
            }
            None => None,
        }
    }

    /// Every hosted ring with its chunk count, for discovery by peers: one
    /// pair per directory record.
    pub fn rings(&self) -> (r: Vec<(RingId, u64)>)
        requires
            self.wf(),
        ensures
            r@.len() == self.entries@.len(),
            forall|i: int| #![trigger r@[i]] 0 <= i < r@.len() ==> {
                &&& self@.contains_key(r@[i].0.0)
                &&& self@[r@[i].0.0].chunk_num == r@[i].1
            },
            forall|k: u64| #[trigger] self@.contains_key(k) ==> exists|i: int|
                0 <= i < r@.len() && r@[i].0.0 == k,
    {
        let mut r: Vec<(RingId, u64)> = Vec::new();
        let mut i: usize = 0;
        while i < self.entries.len()
            invariant
                self.wf(),
                i <= self.entries@.len(),
                r@.len() == i,
                forall|j: int| #![trigger r@[j]] 0 <= j < i ==> {
                    &&& r@[j].0.0 == self.entries@[j].0
                    &&& r@[j].1 == self.entries@[j].1.chunk_num
                },
            decreases self.entries@.len() - i,
        {
            proof {
                lemma_as_map_index(self.entries@, i as int);
            }
            let e = self.entries[i];
            r.push((RingId(e.0), e.1.chunk_num));
            i += 1;
        }
        proof {
            assert forall|j: int| 0 <= j < r@.len() implies {
                &&& self@.contains_key(#[trigger] r@[j].0.0)
                &&& self@[r@[j].0.0].chunk_num == r@[j].1
            } by {
                lemma_as_map_index(self.entries@, j);
            }
            assert forall|k: u64| self@.contains_key(k) implies exists|i2: int|
                0 <= i2 < r@.len() && r@[i2].0.0 == k by {
                lemma_as_map_contains(self.entries@, k);
                let j = choose|j: int| 0 <= j < self.entries@.len() && self.entries@[j].0 == k;
                assert(r@[j].0.0 == k);
            }
        }
        r
    }

    /// The mailbox token of every hosted ring, for the shutdown signal: one
    /// token per directory record.
    pub fn mailboxes(&self) -> (r: Vec<u64>)
        requires
            self.wf(),
        ensures
            r@.len() == self.entries@.len(),
            forall|k: u64| #[trigger] self@.contains_key(k) ==> exists|i: int|
                0 <= i < r@.len() && r@[i] == self@[k].mailbox,
    {
        let mut r: Vec<u64> = Vec::new();
        let mut i: usize = 0;
        while i < self.entries.len()
            invariant
                self.wf(),
                i <= self.entries@.len(),
                r@.len() == i,
                forall|j: int| 0 <= j < i ==> r@[j] == self.entries@[j].1.mailbox,
            decreases self.entries@.len() - i,
        {
            let e = self.entries[i];
            r.push(e.1.mailbox);
            i += 1;
        }
        proof {
            assert forall|k: u64| self@.contains_key(k) implies exists|i2: int|
                0 <= i2 < r@.len() && r@[i2] == self@[k].mailbox by {
                lemma_as_map_contains(self.entries@, k);
                let j = choose|j: int| 0 <= j < self.entries@.len() && self.entries@[j].0 == k;
                lemma_as_map_index(self.entries@, j);
                assert(r@[j] == self@[k].mailbox);
            }
        }
        r
    }
}

} // verus!
