use vstd::prelude::*;
use vstd::seq_lib::lemma_multiset_commutative;

use crate::effect::Effect;
use crate::event::FetchResponder;
use crate::event::FetchResult;
use crate::types::Item;
use crate::types::NodeId;

verus! {

/// The pending responders that one `(item, peer)` pair has accumulated, in
/// arrival order.
pub struct PeerBucket<T: Item> {
    /// The peer nominated by these requests.
    pub peer: NodeId,
    /// The responders awaiting the outcome, first arrival first.
    pub responders: Vec<FetchResponder<T>>,
}

/// All pending responders for one item identifier, grouped by nominated
/// peer.
pub struct IdEntry<T: Item> {
    /// The identifier these requests are about.
    pub id: T::Id,
    /// One bucket per distinct nominated peer.
    pub buckets: Vec<PeerBucket<T>>,
}

/// The two-level responder table of the fetcher: item identifier, then
/// nominated peer, then the pending responders in arrival order.  The table
/// retains no empty bucket and no entry whose buckets are all gone.
pub struct ResponderTable<T: Item> {
    /// One entry per item identifier with at least one pending responder.
    pub entries: Vec<IdEntry<T>>,
}

/// The deliveries that hand `outcome` to each responder of `rs`, in order.
pub open spec fn respond_all<T: Item>(
    rs: Seq<FetchResponder<T>>,
    outcome: Option<FetchResult<T>>,
) -> Seq<Effect<T>> {
    rs.map_values(|r: FetchResponder<T>| Effect::Respond { responder: r, outcome: outcome })
}

/// Delivering an outcome to the concatenation of two responder sequences
/// yields the concatenation of the deliveries.
pub proof fn lemma_respond_all_add<T: Item>(
    a: Seq<FetchResponder<T>>,
    b: Seq<FetchResponder<T>>,
    outcome: Option<FetchResult<T>>,
)
    ensures
        respond_all(a + b, outcome) == respond_all(a, outcome) + respond_all(b, outcome),
{
    assert(respond_all(a + b, outcome) =~= respond_all(a, outcome) + respond_all(b, outcome));
}

/// Appending one element to the sequence at position `j` adds exactly that
/// occurrence to the multiset of the flattened whole.
proof fn lemma_flatten_update_push<A>(ss: Seq<Seq<A>>, j: int, x: A)
    requires
        0 <= j < ss.len(),
    ensures
        ss.update(j, ss[j].push(x)).flatten().to_multiset() == ss.flatten().to_multiset().insert(
            x,
        ),
    decreases j,
{
    broadcast use vstd::multiset::group_multiset_axioms;

    let ss2 = ss.update(j, ss[j].push(x));
    assert(ss.flatten() == ss.first() + ss.drop_first().flatten());
    assert(ss2.flatten() == ss2.first() + ss2.drop_first().flatten());
    if j == 0 {
        assert(ss2.drop_first() =~= ss.drop_first());
        assert(ss2.first() == ss.first().push(x));
        lemma_multiset_commutative(ss.first().push(x), ss.drop_first().flatten());
        lemma_multiset_commutative(ss.first(), ss.drop_first().flatten());
        ss.first().to_multiset_ensures();
        assert(ss2.flatten().to_multiset() =~= ss.flatten().to_multiset().insert(x));
    } else {
        lemma_flatten_update_push(ss.drop_first(), j - 1, x);
        assert(ss2.drop_first() =~= ss.drop_first().update(j - 1, ss.drop_first()[j - 1].push(x)));
        assert(ss2.first() == ss.first());
        lemma_multiset_commutative(ss.first(), ss2.drop_first().flatten());
        lemma_multiset_commutative(ss.first(), ss.drop_first().flatten());
        assert(ss2.flatten().to_multiset() =~= ss.flatten().to_multiset().insert(x));
    }
}

/// Appending a fresh one-element bucket adds exactly that occurrence to the
/// multiset of the flattened whole.
proof fn lemma_flatten_push_singleton<A>(ss: Seq<Seq<A>>, x: A)
    ensures
        ss.push(seq![x]).flatten().to_multiset() == ss.flatten().to_multiset().insert(x),
{
    broadcast use vstd::multiset::group_multiset_axioms;

    ss.lemma_flatten_push(seq![x]);
    assert(ss.flatten() + seq![x] =~= ss.flatten().push(x));
    ss.flatten().to_multiset_ensures();
}

impl<T: Item> PeerBucket<T> {
    /// A bucket is well formed when it still holds at least one responder.
    pub open spec fn wf(self) -> bool {
        self.responders@.len() > 0
    }

    /// Consumes this bucket, delivering `outcome` to each of its responders
    /// in arrival order.
    pub fn drain(self, outcome: &Option<FetchResult<T>>) -> (effects: Vec<Effect<T>>)
        ensures
            effects@ == respond_all(self.responders@, *outcome),
    {
        let mut responders = self.responders;
        let ghost orig: Seq<FetchResponder<T>> = responders@;
        let mut effects: Vec<Effect<T>> = Vec::new();
        while responders.len() > 0
            invariant
                orig == effects@.map_values(
                    |e: Effect<T>| spec_responder_of(e),
                ) + responders@,
                effects@ == respond_all(
                    orig.take(effects@.len() as int),
                    *outcome,
                ),
                orig.skip(effects@.len() as int) == responders@,
            decreases responders@.len(),
        {
            let r = responders.remove(0);
            effects.push(Effect::Respond { responder: r, outcome: clone_outcome(outcome) });
            proof {
                assert(effects@ =~= respond_all(orig.take(effects@.len() as int), *outcome));
                assert(orig.skip(effects@.len() as int) =~= responders@);
                assert(orig =~= effects@.map_values(|e: Effect<T>| spec_responder_of(e))
                    + responders@);
            }
        }
        proof {
            assert(orig.take(effects@.len() as int) =~= orig);
        }
        effects
    }
}

/// The responder inside a delivery effect; meaningful only for `Respond`.
pub open spec fn spec_responder_of<T: Item>(e: Effect<T>) -> FetchResponder<T> {
    match e {
        Effect::Respond { responder, outcome } => responder,
        _ => arbitrary(),
    }
}

/// Clones an outcome so that each responder receives its own copy.
fn clone_outcome<T: Item>(outcome: &Option<FetchResult<T>>) -> (c: Option<FetchResult<T>>)
    ensures
        c == *outcome,
{
    match outcome {
        Some(result) => Some(result.clone()),
        None => None,
    }
}

impl<T: Item> IdEntry<T> {
    /// Whether a bucket for `peer` is present.
    pub open spec fn has_bucket(self, peer: NodeId) -> bool {
        exists|j: int| 0 <= j < self.buckets@.len() && self.buckets@[j].peer == peer
    }

    /// The position of the bucket for `peer`, where one is present.
    pub open spec fn bucket_index(self, peer: NodeId) -> int {
        choose|j: int| 0 <= j < self.buckets@.len() && self.buckets@[j].peer == peer
    }

    /// The responders pending for `peer` under this entry, in arrival
    /// order; empty where no bucket is present.
    pub open spec fn bucket(self, peer: NodeId) -> Seq<FetchResponder<T>> {
        if self.has_bucket(peer) {
            self.buckets@[self.bucket_index(peer)].responders@
        } else {
            Seq::empty()
        }
    }

    /// Every responder pending under this entry, bucket by bucket in stored
    /// order, each bucket in arrival order.
    pub open spec fn all(self) -> Seq<FetchResponder<T>> {
        self.buckets@.map_values(|b: PeerBucket<T>| b.responders@).flatten()
    }

    /// An entry is well formed when its buckets name pairwise distinct peers
    /// and none of them is empty.
    pub open spec fn wf(self) -> bool {
        &&& forall|j1: int, j2: int|
            0 <= j1 < j2 < self.buckets@.len() ==> #[trigger] self.buckets@[j1].peer
                != #[trigger] self.buckets@[j2].peer
        &&& forall|j: int| 0 <= j < self.buckets@.len() ==> (#[trigger] self.buckets@[j]).wf()
    }

    /// After this entry changed only at bucket position `j` (same peer),
    /// every other peer reads unchanged.
    proof fn lemma_frame_update(pre: Self, post: Self, j: int, p2: NodeId)
        requires
            pre.wf(),
            post.wf(),
            0 <= j < pre.buckets@.len(),
            post.buckets@.len() == pre.buckets@.len(),
            post.buckets@ == pre.buckets@.update(j, post.buckets@[j]),
            post.buckets@[j].peer == pre.buckets@[j].peer,
            p2 != pre.buckets@[j].peer,
        ensures
            post.bucket(p2) == pre.bucket(p2),
            post.has_bucket(p2) <==> pre.has_bucket(p2),
    {
        if pre.has_bucket(p2) {
            let k = pre.bucket_index(p2);
            pre.lemma_bucket_index_of(p2, k);
            assert(post.buckets@[k] == pre.buckets@[k]);
            post.lemma_bucket_index_of(p2, k);
        } else if post.has_bucket(p2) {
            let k = post.bucket_index(p2);
            assert(0 <= k < post.buckets@.len());
            assert(pre.buckets@[k].peer == p2);
        }
    }

    /// After this entry grew only by a bucket at the end, every other peer
    /// reads unchanged.
    proof fn lemma_frame_grow(pre: Self, post: Self, p2: NodeId)
        requires
            pre.wf(),
            post.wf(),
            post.buckets@.len() == pre.buckets@.len() + 1,
            post.buckets@ == pre.buckets@.push(post.buckets@[pre.buckets@.len() as int]),
            p2 != post.buckets@[pre.buckets@.len() as int].peer,
        ensures
            post.bucket(p2) == pre.bucket(p2),
            post.has_bucket(p2) <==> pre.has_bucket(p2),
    {
        if pre.has_bucket(p2) {
            let k = pre.bucket_index(p2);
            pre.lemma_bucket_index_of(p2, k);
            assert(post.buckets@[k] == pre.buckets@[k]);
            post.lemma_bucket_index_of(p2, k);
        } else if post.has_bucket(p2) {
            let k = post.bucket_index(p2);
            assert(0 <= k < post.buckets@.len());
            assert(k < pre.buckets@.len());
            assert(pre.buckets@[k].peer == p2);
        }
    }

    /// After the bucket at position `j` was removed from this entry, every
    /// other peer reads unchanged.
    proof fn lemma_frame_remove(pre: Self, post: Self, j: int, p2: NodeId)
        requires
            pre.wf(),
            post.wf(),
            0 <= j < pre.buckets@.len(),
            post.buckets@ == pre.buckets@.remove(j),
            p2 != pre.buckets@[j].peer,
        ensures
            post.bucket(p2) == pre.bucket(p2),
            post.has_bucket(p2) <==> pre.has_bucket(p2),
    {
        if pre.has_bucket(p2) {
            let k = pre.bucket_index(p2);
            pre.lemma_bucket_index_of(p2, k);
            if k < j {
                assert(post.buckets@[k] == pre.buckets@[k]);
                post.lemma_bucket_index_of(p2, k);
            } else {
                assert(k > j);
                assert(post.buckets@[k - 1] == pre.buckets@[k]);
                post.lemma_bucket_index_of(p2, k - 1);
            }
        } else if post.has_bucket(p2) {
            let k = post.bucket_index(p2);
            assert(0 <= k < post.buckets@.len());
            if k < j {
                assert(pre.buckets@[k].peer == p2);
            } else {
                assert(pre.buckets@[k + 1].peer == p2);
            }
            assert(pre.has_bucket(p2));
        }
    }

    /// A position holding `peer` is the position that `bucket_index` names.
    pub proof fn lemma_bucket_index_of(self, peer: NodeId, j: int)
        requires
            self.wf(),
            0 <= j < self.buckets@.len(),
            self.buckets@[j].peer == peer,
        ensures
            self.has_bucket(peer),
            self.bucket_index(peer) == j,
            self.bucket(peer) == self.buckets@[j].responders@,
    {
        assert(self.has_bucket(peer));
        let k = self.bucket_index(peer);
        if k != j {
            if k < j {
                assert(self.buckets@[k].peer != self.buckets@[j].peer);
            } else {
                assert(self.buckets@[j].peer != self.buckets@[k].peer);
            }
            assert(false);
        }
    }

    /// Finds the position of the bucket for `peer`, where one is present.
    fn find_bucket(&self, peer: &NodeId) -> (r: Option<usize>)
        ensures
            match r {
                Some(j) => j < self.buckets@.len() && self.buckets@[j as int].peer == *peer,
                None => !self.has_bucket(*peer),
            },
    {
        let mut j: usize = 0;
        while j < self.buckets.len()
            invariant
                j <= self.buckets@.len(),
                forall|k: int| 0 <= k < j ==> self.buckets@[k].peer != *peer,
            decreases self.buckets@.len() - j,
        {
            if self.buckets[j].peer == *peer {
                return Some(j);
            }
            j = j + 1;
        }
        None
    }

    /// Appends a responder to the bucket for `peer`, creating the bucket
    /// where none is present yet.
    pub fn push_responder(&mut self, peer: NodeId, responder: FetchResponder<T>)
        requires
            old(self).wf(),
        ensures
            final(self).wf(),
            final(self).id == old(self).id,
            final(self).buckets@.len() >= 1,
            final(self).all().to_multiset() == old(self).all().to_multiset().insert(responder),
            final(self).bucket(peer) == old(self).bucket(peer).push(responder),
            forall|p2: NodeId|
                p2 != peer ==> #[trigger] final(self).bucket(p2) == old(self).bucket(p2),
            forall|p2: NodeId|
                p2 != peer ==> (#[trigger] final(self).has_bucket(p2) <==> old(self).has_bucket(
                    p2,
                )),
            final(self).has_bucket(peer),
    {
        let ghost pre = *self;
        match self.find_bucket(&peer) {
            Some(j) => {
                proof {
                    pre.lemma_bucket_index_of(peer, j as int);
                }
                let bucket = &mut self.buckets[j];
                bucket.responders.push(responder);
                proof {
                    assert(self.buckets@ =~= pre.buckets@.update(
                        j as int,
                        self.buckets@[j as int],
                    ));
                    self.lemma_bucket_index_of(peer, j as int);
                    assert(self.bucket(peer) =~= pre.bucket(peer).push(responder));
                    assert forall|p2: NodeId| p2 != peer implies #[trigger] self.bucket(p2)
                        == pre.bucket(p2) by {
                        Self::lemma_frame_update(pre, *self, j as int, p2);
                    }
                    assert forall|p2: NodeId| p2 != peer implies (#[trigger] self.has_bucket(p2)
                        <==> pre.has_bucket(p2)) by {
                        Self::lemma_frame_update(pre, *self, j as int, p2);
                    }
                    let f = |b: PeerBucket<T>| b.responders@;
                    let ss = pre.buckets@.map_values(f);
                    assert(self.buckets@.map_values(f) =~= ss.update(
                        j as int,
                        ss[j as int].push(responder),
                    ));
                    lemma_flatten_update_push(ss, j as int, responder);
                }
            },
            None => {
                let mut responders: Vec<FetchResponder<T>> = Vec::new();
                responders.push(responder);
                self.buckets.push(PeerBucket { peer, responders });
                proof {
                    let j = pre.buckets@.len() as int;
                    assert(self.buckets@[j].peer == peer);
                    assert(self.buckets@ =~= pre.buckets@.push(self.buckets@[j]));
                    self.lemma_bucket_index_of(peer, j);
                    assert(self.bucket(peer) =~= pre.bucket(peer).push(responder));
                    assert forall|p2: NodeId| p2 != peer implies #[trigger] self.bucket(p2)
                        == pre.bucket(p2) by {
                        Self::lemma_frame_grow(pre, *self, p2);
                    }
                    assert forall|p2: NodeId| p2 != peer implies (#[trigger] self.has_bucket(p2)
                        <==> pre.has_bucket(p2)) by {
                        Self::lemma_frame_grow(pre, *self, p2);
                    }
                    let f = |b: PeerBucket<T>| b.responders@;
                    let ss = pre.buckets@.map_values(f);
                    assert(self.buckets@.map_values(f) =~= ss.push(seq![responder]));
                    lemma_flatten_push_singleton(ss, responder);
                }
            },
        }
    }

    /// Removes and returns the bucket for `peer`, where one is present.
    pub fn remove_bucket(&mut self, peer: &NodeId) -> (removed: Option<PeerBucket<T>>)
        requires
            old(self).wf(),
        ensures
            final(self).wf(),
            final(self).id == old(self).id,
            match removed {
                Some(bucket) => {
                    &&& old(self).has_bucket(*peer)
                    &&& bucket.peer == *peer
                    &&& bucket.responders@ == old(self).bucket(*peer)
                    &&& !final(self).has_bucket(*peer)
                    &&& final(self).buckets@.len() == old(self).buckets@.len() - 1
                    &&& forall|p2: NodeId|
                        p2 != *peer ==> #[trigger] final(self).bucket(p2) == old(self).bucket(p2)
                    &&& forall|p2: NodeId|
                        p2 != *peer ==> (#[trigger] final(self).has_bucket(p2) <==> old(
                            self,
                        ).has_bucket(p2))
                },
                None => {
                    &&& !old(self).has_bucket(*peer)
                    &&& *final(self) == *old(self)
                },
            },
    {
        let ghost pre = *self;
        match self.find_bucket(peer) {
            Some(j) => {
                proof {
                    pre.lemma_bucket_index_of(*peer, j as int);
                }
                let bucket = self.buckets.remove(j);
                proof {
                    assert forall|p2: NodeId| p2 != *peer implies #[trigger] self.bucket(p2)
                        == pre.bucket(p2) by {
                        Self::lemma_frame_remove(pre, *self, j as int, p2);
                    }
                    assert forall|p2: NodeId| p2 != *peer implies (#[trigger] self.has_bucket(p2)
                        <==> pre.has_bucket(p2)) by {
                        Self::lemma_frame_remove(pre, *self, j as int, p2);
                    }
                    if self.has_bucket(*peer) {
                        let k = self.bucket_index(*peer);
                        if k < j as int {
                            assert(pre.buckets@[k].peer == *peer);
                            pre.lemma_bucket_index_of(*peer, k);
                        } else {
                            assert(pre.buckets@[k + 1].peer == *peer);
                            pre.lemma_bucket_index_of(*peer, k + 1);
                        }
                        assert(false);
                    }
                }
                Some(bucket)
            },
            None => None,
        }
    }

    /// Consumes this entry, delivering `outcome` to every responder of every
    /// bucket, buckets in stored order, each bucket in arrival order.
    pub fn drain(self, outcome: &Option<FetchResult<T>>) -> (effects: Vec<Effect<T>>)
        ensures
            effects@ == respond_all(self.all(), *outcome),
    {
        let ghost whole = self;
        let mut buckets = self.buckets;
        let mut effects: Vec<Effect<T>> = Vec::new();
        proof {
            assert(whole.all() =~= buckets@.map_values(
                |b: PeerBucket<T>| b.responders@,
            ).flatten());
        }
        while buckets.len() > 0
            invariant
                respond_all(whole.all(), *outcome) =~= effects@ + respond_all(
                    buckets@.map_values(|b: PeerBucket<T>| b.responders@).flatten(),
                    *outcome,
                ),
            decreases buckets@.len(),
        {
            let ghost before = buckets@;
            let bucket = buckets.remove(0);
            let ghost bucket_resp = bucket.responders@;
            let mut more = bucket.drain(outcome);
            proof {
                let f = |b: PeerBucket<T>| b.responders@;
                assert(before.map_values(f).drop_first() =~= buckets@.map_values(f));
                assert(before.map_values(f).first() == bucket_resp);
                assert(before.map_values(f).flatten() == bucket_resp + buckets@.map_values(
                    f,
                ).flatten());
                lemma_respond_all_add(bucket_resp, buckets@.map_values(f).flatten(), *outcome);
            }
            effects.append(&mut more);
            proof {
                assert(respond_all(whole.all(), *outcome) =~= effects@ + respond_all(
                    buckets@.map_values(|b: PeerBucket<T>| b.responders@).flatten(),
                    *outcome,
                ));
            }
        }
        proof {
            let f = |b: PeerBucket<T>| b.responders@;
            assert(buckets@.map_values(f).flatten() =~= Seq::<FetchResponder<T>>::empty());
            assert(respond_all(Seq::<FetchResponder<T>>::empty(), *outcome) =~= Seq::<
                Effect<T>,
            >::empty());
            assert(effects@ =~= respond_all(whole.all(), *outcome));
        }
        effects
    }
}

impl<T: Item> ResponderTable<T> {
    /// Whether an entry for `id` is present.
    pub open spec fn has_entry(self, id: T::Id) -> bool {
        exists|i: int| 0 <= i < self.entries@.len() && self.entries@[i].id == id
    }

    /// The position of the entry for `id`, where one is present.
    pub open spec fn entry_index(self, id: T::Id) -> int {
        choose|i: int| 0 <= i < self.entries@.len() && self.entries@[i].id == id
    }

    /// The entry for `id`, where one is present.
    pub open spec fn entry(self, id: T::Id) -> IdEntry<T> {
        self.entries@[self.entry_index(id)]
    }

    /// The responders pending for `id` that nominated `peer`, in arrival
    /// order; empty where none are pending.
    pub open spec fn responders_for(self, id: T::Id, peer: NodeId) -> Seq<FetchResponder<T>> {
        if self.has_entry(id) {
            self.entry(id).bucket(peer)
        } else {
            Seq::empty()
        }
    }

    /// Every responder pending for `id`, across all peer buckets.
    pub open spec fn all_for(self, id: T::Id) -> Seq<FetchResponder<T>> {
        if self.has_entry(id) {
            self.entry(id).all()
        } else {
            Seq::empty()
        }
    }

    /// The table is well formed when its entries carry pairwise distinct
    /// identifiers and each entry is well formed and still has a bucket.
    pub open spec fn wf(self) -> bool {
        &&& forall|i1: int, i2: int|
            0 <= i1 < i2 < self.entries@.len() ==> #[trigger] self.entries@[i1].id
                != #[trigger] self.entries@[i2].id
        &&& forall|i: int|
            0 <= i < self.entries@.len() ==> (#[trigger] self.entries@[i]).wf()
                && self.entries@[i].buckets@.len() > 0
    }

    /// A position holding `id` is the position that `entry_index` names.
    pub proof fn lemma_entry_index_of(self, id: T::Id, i: int)
        requires
            self.wf(),
            0 <= i < self.entries@.len(),
            self.entries@[i].id == id,
        ensures
            self.has_entry(id),
            self.entry_index(id) == i,
            self.entry(id) == self.entries@[i],
    {
        assert(self.has_entry(id));
        let k = self.entry_index(id);
        if k != i {
            if k < i {
                assert(self.entries@[k].id != self.entries@[i].id);
            } else {
                assert(self.entries@[i].id != self.entries@[k].id);
            }
            assert(false);
        }
    }

    /// Creates an empty table.
    pub fn new() -> (table: Self)
        ensures
            table.wf(),
            table.entries@.len() == 0,
    {
        ResponderTable { entries: Vec::new() }
    }

    /// Whether the table holds no pending responder at all.
    pub fn is_empty(&self) -> (r: bool)
        ensures
            r <==> self.entries@.len() == 0,
    {
        self.entries.len() == 0
    }

    /// Whether any responder is pending for `id`.
    pub fn contains(&self, id: &T::Id) -> (r: bool)
        ensures
            r <==> self.has_entry(*id),
    {
        match self.find_entry(id) {
            Some(i) => {
                proof {
                    assert(self.has_entry(*id));
                }
                true
            },
            None => false,
        }
    }

    /// How many responders are pending for `(id, peer)`.
    pub fn pending_for(&self, id: &T::Id, peer: &NodeId) -> (count: usize)
        requires
            self.wf(),
        ensures
            count == self.responders_for(*id, *peer).len(),
    {
        match self.find_entry(id) {
            Some(i) => {
                proof {
                    self.lemma_entry_index_of(*id, i as int);
                }
                let entry = &self.entries[i];
                match entry.find_bucket(peer) {
                    Some(j) => {
                        proof {
                            entry.lemma_bucket_index_of(*peer, j as int);
                        }
                        entry.buckets[j].responders.len()
                    },
                    None => 0,
                }
            },
            None => 0,
        }
    }

    /// Finds the position of the entry for `id`, where one is present.
    fn find_entry(&self, id: &T::Id) -> (r: Option<usize>)
        ensures
            match r {
                Some(i) => i < self.entries@.len() && self.entries@[i as int].id == *id,
                None => !self.has_entry(*id),
            },
    {
        let mut i: usize = 0;
        while i < self.entries.len()
            invariant
                i <= self.entries@.len(),
                forall|k: int| 0 <= k < i ==> self.entries@[k].id != *id,
            decreases self.entries@.len() - i,
        {
            if T::id_eq(&self.entries[i].id, id) {
                return Some(i);
            }
            i = i + 1;
        }
        None
    }

    /// Appends a responder for `(id, peer)`, creating the entry and the
    /// bucket where they are not present yet.
    pub fn push(&mut self, id: T::Id, peer: NodeId, responder: FetchResponder<T>)
        requires
            old(self).wf(),
        ensures
            final(self).wf(),
            appended(*old(self), *final(self), id, peer, responder),
    {
        let ghost pre = *self;
        match self.find_entry(&id) {
            Some(i) => {
                proof {
                    pre.lemma_entry_index_of(id, i as int);
                }
                let entry = &mut self.entries[i];
                entry.push_responder(peer, responder);
                proof {
                    assert(self.entries@ =~= pre.entries@.update(i as int, self.entries@[i as int]));
                    self.lemma_entry_index_of(id, i as int);
                    assert(pre.all_for(id) == pre.entries@[i as int].all());
                    assert(self.all_for(id) == self.entries@[i as int].all());
                    assert forall|id2: T::Id, p2: NodeId| !(id2 == id && p2 == peer)
                        implies #[trigger] self.responders_for(id2, p2) == pre.responders_for(
                        id2,
                        p2,
                    ) by {
                        if id2 == id {
                            assert(self.entry(id2).bucket(p2) == pre.entry(id2).bucket(p2));
                        } else {
                            table_frame_outside(pre, *self, i as int, id2, p2);
                        }
                    }
                    assert forall|id2: T::Id| id2 != id implies (#[trigger] self.has_entry(id2)
                        <==> pre.has_entry(id2)) by {
                        table_frame_has_entry(pre, *self, i as int, id2);
                    }
                }
            },
            None => {
                let mut responders: Vec<FetchResponder<T>> = Vec::new();
                responders.push(responder);
                let mut buckets: Vec<PeerBucket<T>> = Vec::new();
                buckets.push(PeerBucket { peer, responders });
                let entry = IdEntry { id, buckets };
                proof {
                    assert(entry.wf());
                }
                self.entries.push(entry);
                proof {
                    let i = pre.entries@.len() as int;
                    assert(self.entries@[i].id == id);
                    self.lemma_entry_index_of(id, i);
                    entry.lemma_bucket_index_of(peer, 0);
                    assert(self.responders_for(id, peer) =~= pre.responders_for(id, peer).push(
                        responder,
                    ));
                    let f = |b: PeerBucket<T>| b.responders@;
                    assert(entry.buckets@.map_values(f).len() == 1);
                    entry.buckets@.map_values(f).lemma_flatten_singleton();
                    assert(self.all_for(id) == entry.all());
                    assert(entry.all() =~= pre.all_for(id).push(responder));
                    pre.all_for(id).to_multiset_ensures();
                    assert forall|id2: T::Id, p2: NodeId| !(id2 == id && p2 == peer)
                        implies #[trigger] self.responders_for(id2, p2) == pre.responders_for(
                        id2,
                        p2,
                    ) by {
                        if id2 == id {
                            assert(entry.bucket(p2) =~= Seq::<FetchResponder<T>>::empty());
                            assert(!pre.has_entry(id2));
                        } else {
                            if pre.has_entry(id2) {
                                let k = pre.entry_index(id2);
                                pre.lemma_entry_index_of(id2, k);
                                self.lemma_entry_index_of(id2, k);
                            } else if self.has_entry(id2) {
                                let k = self.entry_index(id2);
                                assert(0 <= k < self.entries@.len());
                                if k < i {
                                    assert(pre.has_entry(id2));
                                }
                            }
                        }
                    }
                    assert forall|id2: T::Id| id2 != id implies (#[trigger] self.has_entry(id2)
                        <==> pre.has_entry(id2)) by {
                        if pre.has_entry(id2) {
                            let k = pre.entry_index(id2);
                            pre.lemma_entry_index_of(id2, k);
                            assert(self.entries@[k].id == id2);
                        } else if self.has_entry(id2) {
                            let k = self.entry_index(id2);
                            if k < i {
                                assert(pre.entries@[k].id == id2);
                            }
                        }
                    }
                }
            },
        }
    }

    /// Removes and returns the whole entry for `id`, where one is present.
    pub fn remove_id(&mut self, id: &T::Id) -> (removed: Option<IdEntry<T>>)
        requires
            old(self).wf(),
        ensures
            final(self).wf(),
            match removed {
                Some(entry) => {
                    &&& old(self).has_entry(*id)
                    &&& entry == old(self).entry(*id)
                    &&& entry.id == *id
                    &&& entry.wf()
                    &&& entry.buckets@.len() > 0
                    &&& !final(self).has_entry(*id)
                    &&& forall|id2: T::Id|
                        id2 != *id ==> (#[trigger] final(self).has_entry(id2) <==> old(
                            self,
                        ).has_entry(id2))
                    &&& forall|id2: T::Id, p2: NodeId|
                        id2 != *id ==> #[trigger] final(self).responders_for(id2, p2) == old(
                            self,
                        ).responders_for(id2, p2)
                },
                None => {
                    &&& !old(self).has_entry(*id)
                    &&& *final(self) == *old(self)
                },
            },
    {
        let ghost pre = *self;
        match self.find_entry(id) {
            Some(i) => {
                proof {
                    pre.lemma_entry_index_of(*id, i as int);
                }
                let entry = self.entries.remove(i);
                proof {
                    if self.has_entry(*id) {
                        let k = self.entry_index(*id);
                        if k < i as int {
                            pre.lemma_entry_index_of(*id, k);
                        } else {
                            pre.lemma_entry_index_of(*id, k + 1);
                        }
                        assert(false);
                    }
                    assert forall|id2: T::Id| id2 != *id implies (#[trigger] self.has_entry(id2)
                        <==> pre.has_entry(id2)) by {
                        table_unremove_has_entry(pre, *self, i as int, id2);
                    }
                    assert forall|id2: T::Id, p2: NodeId| id2 != *id
                        implies #[trigger] self.responders_for(id2, p2) == pre.responders_for(
                        id2,
                        p2,
                    ) by {
                        table_unremove_has_entry(pre, *self, i as int, id2);
                        if pre.has_entry(id2) {
                            let k = pre.entry_index(id2);
                            pre.lemma_entry_index_of(id2, k);
                            if k < i as int {
                                self.lemma_entry_index_of(id2, k);
                            } else {
                                assert(self.entries@[k - 1] == pre.entries@[k]);
                                self.lemma_entry_index_of(id2, k - 1);
                            }
                        }
                    }
                }
                Some(entry)
            },
            None => None,
        }
    }

    /// Inserts a whole entry whose identifier is not yet present.
    pub fn insert_entry(&mut self, entry: IdEntry<T>)
        requires
            old(self).wf(),
            !old(self).has_entry(entry.id),
            entry.wf(),
            entry.buckets@.len() > 0,
        ensures
            final(self).wf(),
            final(self).has_entry(entry.id),
            final(self).entry(entry.id) == entry,
            forall|id2: T::Id|
                id2 != entry.id ==> (#[trigger] final(self).has_entry(id2) <==> old(
                    self,
                ).has_entry(id2)),
            forall|id2: T::Id, p2: NodeId|
                id2 != entry.id ==> #[trigger] final(self).responders_for(id2, p2) == old(
                    self,
                ).responders_for(id2, p2),
    {
        let ghost pre = *self;
        let ghost eid = entry.id;
        self.entries.push(entry);
        proof {
            let i = pre.entries@.len() as int;
            assert(self.entries@[i].id == eid);
            assert forall|i1: int, i2: int| 0 <= i1 < i2 < self.entries@.len()
                implies #[trigger] self.entries@[i1].id != #[trigger] self.entries@[i2].id by {
                if i2 == i {
                    if self.entries@[i1].id == eid {
                        pre.lemma_entry_index_of(eid, i1);
                        assert(pre.has_entry(eid));
                    }
                }
            }
            self.lemma_entry_index_of(eid, i);
            assert forall|id2: T::Id| id2 != eid implies (#[trigger] self.has_entry(id2)
                <==> pre.has_entry(id2)) by {
                if pre.has_entry(id2) {
                    let k = pre.entry_index(id2);
                    pre.lemma_entry_index_of(id2, k);
                    assert(self.entries@[k].id == id2);
                } else if self.has_entry(id2) {
                    let k = self.entry_index(id2);
                    if k < i {
                        assert(pre.entries@[k].id == id2);
                    }
                }
            }
            assert forall|id2: T::Id, p2: NodeId| id2 != eid implies #[trigger] self.responders_for(
                id2,
                p2,
            ) == pre.responders_for(id2, p2) by {
                if pre.has_entry(id2) {
                    let k = pre.entry_index(id2);
                    pre.lemma_entry_index_of(id2, k);
                    self.lemma_entry_index_of(id2, k);
                }
            }
        }
    }
}

impl<T: Item> ResponderTable<T> {
    /// Resolves `(id, peer)` negatively: removes that bucket alone and hands
    /// it back for delivery.  The entry for `id` survives exactly when some
    /// other peer still has responders pending under it.
    pub fn drop_peer(&mut self, id: &T::Id, peer: &NodeId) -> (drained: Option<PeerBucket<T>>)
        requires
            old(self).wf(),
        ensures
            final(self).wf(),
            dropped_peer(*old(self), *final(self), *id, *peer),
            match drained {
                Some(bucket) => {
                    &&& bucket.responders@ == old(self).responders_for(*id, *peer)
                    &&& bucket.responders@.len() > 0
                },
                None => old(self).responders_for(*id, *peer).len() == 0,
            },
    {
        let ghost pre = *self;
        let removed = self.remove_id(id);
        match removed {
            Some(entry) => {
                let ghost mid = *self;
                let mut entry = entry;
                let ghost entry_pre = entry;
                let removed_bucket = entry.remove_bucket(peer);
                proof {
                    assert(pre.entry(*id) == entry_pre);
                    assert(pre.has_entry(*id));
                }
                if entry.buckets.len() > 0 {
                    proof {
                        assert(!entry.has_bucket(*peer));
                    }
                    self.insert_entry(entry);
                    proof {
                        let post = *self;
                        assert(post.entry(*id) == entry);
                        assert forall|id2: T::Id, p2: NodeId| !(id2 == *id && p2 == *peer)
                            implies #[trigger] post.responders_for(id2, p2)
                            == pre.responders_for(id2, p2) by {
                            if id2 == *id {
                                assert(post.responders_for(id2, p2) == entry.bucket(p2));
                                assert(entry.bucket(p2) == entry_pre.bucket(p2));
                                assert(pre.responders_for(id2, p2) == entry_pre.bucket(p2));
                            } else {
                                assert(post.responders_for(id2, p2) == mid.responders_for(
                                    id2,
                                    p2,
                                ));
                                assert(mid.responders_for(id2, p2) == pre.responders_for(
                                    id2,
                                    p2,
                                ));
                            }
                        }
                        assert forall|id2: T::Id| id2 != *id implies (#[trigger] post.has_entry(
                            id2,
                        ) <==> pre.has_entry(id2)) by {
                            assert(post.has_entry(id2) <==> mid.has_entry(id2));
                            assert(mid.has_entry(id2) <==> pre.has_entry(id2));
                        }
                        assert(post.responders_for(*id, *peer) == entry.bucket(*peer));
                        assert(post.responders_for(*id, *peer).len() == 0);
                        let p0 = entry.buckets@[0].peer;
                        entry.lemma_bucket_index_of(p0, 0);
                        assert(p0 != *peer);
                        assert(entry.bucket(p0) == entry.buckets@[0].responders@);
                        assert(entry.bucket(p0).len() > 0);
                        assert(entry_pre.bucket(p0) == entry.bucket(p0));
                        assert(pre.responders_for(*id, p0) == entry_pre.bucket(p0));
                        assert(pre.responders_for(*id, p0).len() > 0);
                        assert(exists|p2: NodeId|
                            p2 != *peer && #[trigger] pre.responders_for(*id, p2).len() > 0);
                    }
                } else {
                    proof {
                        let post = *self;
                        assert(!post.has_entry(*id));
                        assert(entry_pre.buckets@.len() == 1);
                        assert(entry_pre.has_bucket(*peer));
                        assert forall|p2: NodeId| p2 != *peer
                            implies #[trigger] pre.responders_for(*id, p2).len() == 0 by {
                            if entry_pre.has_bucket(p2) {
                                let k = entry_pre.bucket_index(p2);
                                assert(0 <= k < 1);
                                let k2 = entry_pre.bucket_index(*peer);
                                assert(0 <= k2 < 1);
                                assert(false);
                            }
                            assert(entry_pre.bucket(p2).len() == 0);
                            assert(pre.responders_for(*id, p2) == entry_pre.bucket(p2));
                        }
                        assert forall|id2: T::Id, p2: NodeId| !(id2 == *id && p2 == *peer)
                            implies #[trigger] post.responders_for(id2, p2)
                            == pre.responders_for(id2, p2) by {
                            if id2 == *id {
                                assert(post.responders_for(id2, p2) =~= Seq::<
                                    FetchResponder<T>,
                                >::empty());
                                assert(pre.responders_for(id2, p2).len() == 0);
                                assert(pre.responders_for(id2, p2) =~= Seq::<
                                    FetchResponder<T>,
                                >::empty());
                            } else {
                                assert(post.responders_for(id2, p2) == pre.responders_for(
                                    id2,
                                    p2,
                                ));
                            }
                        }
                        assert forall|id2: T::Id| id2 != *id implies (#[trigger] post.has_entry(
                            id2,
                        ) <==> pre.has_entry(id2)) by {
                            assert(post.has_entry(id2) <==> mid.has_entry(id2));
                        }
                        if exists|p2: NodeId|
                            p2 != *peer && #[trigger] pre.responders_for(*id, p2).len() > 0 {
                            let p2 = choose|p2: NodeId|
                                p2 != *peer && #[trigger] pre.responders_for(*id, p2).len() > 0;
                            assert(false);
                        }
                    }
                }
                proof {
                    match &removed_bucket {
                        Some(bucket) => {
                            assert(bucket.responders@ == entry_pre.bucket(*peer));
                            assert(pre.responders_for(*id, *peer) == entry_pre.bucket(*peer));
                            let j = entry_pre.bucket_index(*peer);
                            assert(entry_pre.buckets@[j].wf());
                        },
                        None => {
                            assert(pre.responders_for(*id, *peer) == entry_pre.bucket(*peer));
                            assert(entry_pre.bucket(*peer).len() == 0);
                        },
                    }
                }
                removed_bucket
            },
            None => {
                proof {
                    assert(!pre.has_entry(*id));
                    assert forall|p2: NodeId| #[trigger] pre.responders_for(*id, p2).len() == 0 by {
                    }
                    if exists|p2: NodeId|
                        p2 != *peer && #[trigger] pre.responders_for(*id, p2).len() > 0 {
                        let p2 = choose|p2: NodeId|
                            p2 != *peer && #[trigger] pre.responders_for(*id, p2).len() > 0;
                        assert(false);
                    }
                }
                None
            },
        }
    }
}

/// After `pre` became `post` by replacing the entry at position `i` (same
/// identifier), every other identifier reads unchanged.
proof fn table_frame_outside<T: Item>(
    pre: ResponderTable<T>,
    post: ResponderTable<T>,
    i: int,
    id2: T::Id,
    p2: NodeId,
)
    requires
        pre.wf(),
        post.wf(),
        0 <= i < pre.entries@.len(),
        post.entries@.len() == pre.entries@.len(),
        post.entries@ == pre.entries@.update(i, post.entries@[i]),
        post.entries@[i].id == pre.entries@[i].id,
        id2 != pre.entries@[i].id,
    ensures
        post.responders_for(id2, p2) == pre.responders_for(id2, p2),
{
    table_frame_has_entry(pre, post, i, id2);
    if pre.has_entry(id2) {
        let k = pre.entry_index(id2);
        pre.lemma_entry_index_of(id2, k);
        assert(k != i);
        assert(post.entries@[k] == pre.entries@[k]);
        post.lemma_entry_index_of(id2, k);
    }
}

/// After `pre` became `post` by replacing the entry at position `i` (same
/// identifier), presence of every other identifier is unchanged.
proof fn table_frame_has_entry<T: Item>(
    pre: ResponderTable<T>,
    post: ResponderTable<T>,
    i: int,
    id2: T::Id,
)
    requires
        pre.wf(),
        post.wf(),
        0 <= i < pre.entries@.len(),
        post.entries@.len() == pre.entries@.len(),
        post.entries@ == pre.entries@.update(i, post.entries@[i]),
        post.entries@[i].id == pre.entries@[i].id,
        id2 != pre.entries@[i].id,
    ensures
        post.has_entry(id2) <==> pre.has_entry(id2),
{
    if pre.has_entry(id2) {
        let k = pre.entry_index(id2);
        pre.lemma_entry_index_of(id2, k);
        assert(post.entries@[k].id == id2);
    } else if post.has_entry(id2) {
        let k = post.entry_index(id2);
        assert(0 <= k < post.entries@.len());
        assert(pre.entries@[k].id == id2);
    }
}

/// After removing the entry at position `i` of `pre`, presence of every
/// other identifier is unchanged.
proof fn table_unremove_has_entry<T: Item>(
    pre: ResponderTable<T>,
    post: ResponderTable<T>,
    i: int,
    id2: T::Id,
)
    requires
        pre.wf(),
        0 <= i < pre.entries@.len(),
        post.entries@ == pre.entries@.remove(i),
        id2 != pre.entries@[i].id,
    ensures
        post.has_entry(id2) <==> pre.has_entry(id2),
{
    if pre.has_entry(id2) {
        let k = pre.entry_index(id2);
        pre.lemma_entry_index_of(id2, k);
        if k < i {
            assert(post.entries@[k].id == id2);
        } else {
            assert(k > i);
            assert(post.entries@[k - 1].id == id2);
        }
    } else if post.has_entry(id2) {
        let k = post.entry_index(id2);
        assert(0 <= k < post.entries@.len());
        if k < i {
            assert(pre.entries@[k].id == id2);
        } else {
            assert(pre.entries@[k + 1].id == id2);
        }
        assert(pre.has_entry(id2));
    }
}

/// Relates a table to the same table with one responder appended for
/// `(id, peer)`: that bucket grew by the responder at its end, the multiset
/// of everything pending for `id` grew by exactly that occurrence, and
/// nothing else changed.
pub open spec fn appended<T: Item>(
    pre: ResponderTable<T>,
    post: ResponderTable<T>,
    id: T::Id,
    peer: NodeId,
    responder: FetchResponder<T>,
) -> bool {
    &&& post.responders_for(id, peer) == pre.responders_for(id, peer).push(responder)
    &&& post.all_for(id).to_multiset() == pre.all_for(id).to_multiset().insert(responder)
    &&& post.has_entry(id)
    &&& forall|id2: T::Id, p2: NodeId|
        !(id2 == id && p2 == peer) ==> #[trigger] post.responders_for(id2, p2)
            == pre.responders_for(id2, p2)
    &&& forall|id2: T::Id|
        id2 != id ==> (#[trigger] post.has_entry(id2) <==> pre.has_entry(id2))
}

/// Relates a table to the same table after a positive resolution for `id`:
/// the whole entry is gone, every other identifier reads unchanged.
pub open spec fn drained_all<T: Item>(
    pre: ResponderTable<T>,
    post: ResponderTable<T>,
    id: T::Id,
) -> bool {
    &&& !post.has_entry(id)
    &&& forall|id2: T::Id|
        id2 != id ==> (#[trigger] post.has_entry(id2) <==> pre.has_entry(id2))
    &&& forall|id2: T::Id, p2: NodeId|
        id2 != id ==> #[trigger] post.responders_for(id2, p2) == pre.responders_for(id2, p2)
}

/// Relates a table to the same table after a negative resolution for
/// `(id, peer)`: only that bucket is gone; the entry survives exactly when
/// another peer still has pending responders under `id`.
pub open spec fn dropped_peer<T: Item>(
    pre: ResponderTable<T>,
    post: ResponderTable<T>,
    id: T::Id,
    peer: NodeId,
) -> bool {
    &&& post.responders_for(id, peer).len() == 0
    &&& forall|id2: T::Id, p2: NodeId|
        !(id2 == id && p2 == peer) ==> #[trigger] post.responders_for(id2, p2)
            == pre.responders_for(id2, p2)
    &&& (post.has_entry(id) <==> exists|p2: NodeId|
        p2 != peer && #[trigger] pre.responders_for(id, p2).len() > 0)
    &&& forall|id2: T::Id|
        id2 != id ==> (#[trigger] post.has_entry(id2) <==> pre.has_entry(id2))
}

} // verus!
