use vstd::prelude::*;

use crate::effect::Effect;
use crate::event::FetchResponder;
use crate::event::FetchResult;
use crate::table::appended;
use crate::table::drained_all;
use crate::table::dropped_peer;
use crate::table::respond_all;
use crate::table::ResponderTable;
use crate::types::Item;
use crate::types::NodeId;

verus! {

/// Each member of a sequence of sequences appears contiguously inside the
/// flattened sequence.
proof fn lemma_flatten_subrange<A>(ss: Seq<Seq<A>>, j: int)
    requires
        0 <= j < ss.len(),
    ensures
        exists|k: int|
            0 <= k && k + ss[j].len() <= ss.flatten().len() && #[trigger] ss.flatten().subrange(
                k,
                k + ss[j].len(),
            ) == ss[j],
    decreases j,
{
    assert(ss.flatten() == ss.first() + ss.drop_first().flatten());
    if j == 0 {
        assert(ss.flatten().subrange(0, 0 + ss[0].len() as int) =~= ss[0]);
        assert(0 <= 0 && 0 + ss[0].len() <= ss.flatten().len() && ss.flatten().subrange(
            0,
            0 + ss[0].len() as int,
        ) == ss[0]);
    } else {
        lemma_flatten_subrange(ss.drop_first(), j - 1);
        let inner = ss.drop_first();
        assert(inner[j - 1] == ss[j]);
        let k0 = choose|k: int|
            0 <= k && k + inner[j - 1].len() <= inner.flatten().len()
                && #[trigger] inner.flatten().subrange(k, k + inner[j - 1].len()) == inner[j - 1];
        let k = k0 + ss[0].len();
        assert(ss.flatten().subrange(k, k + ss[j].len() as int) =~= inner.flatten().subrange(
            k0,
            k0 + ss[j].len() as int,
        ));
        assert(inner.flatten().subrange(k0, k0 + ss[j].len() as int) == inner.flatten().subrange(
            k0,
            k0 + inner[j - 1].len() as int,
        ));
        assert(0 <= k && k + ss[j].len() <= ss.flatten().len() && ss.flatten().subrange(
            k,
            k + ss[j].len() as int,
        ) == ss[j]);
    }
}

/// The responders of one `(id, peer)` bucket stand contiguously, in arrival
/// order, inside the sequence of all responders pending for `id`.
pub proof fn lemma_bucket_within_all<T: Item>(t: ResponderTable<T>, id: T::Id, peer: NodeId)
    requires
        t.wf(),
    ensures
        exists|k: int|
            0 <= k && k + t.responders_for(id, peer).len() <= t.all_for(id).len()
                && #[trigger] t.all_for(id).subrange(
                k,
                k + t.responders_for(id, peer).len() as int,
            ) == t.responders_for(id, peer),
{
    if t.has_entry(id) && t.entry(id).has_bucket(peer) {
        let entry = t.entry(id);
        let j = entry.bucket_index(peer);
        let ss = entry.buckets@.map_values(|b: crate::table::PeerBucket<T>| b.responders@);
        assert(ss[j] == entry.buckets@[j].responders@);
        lemma_flatten_subrange(ss, j);
        assert(t.all_for(id) == ss.flatten());
        assert(t.responders_for(id, peer) == ss[j]);
        let k = choose|k: int|
            0 <= k && k + ss[j].len() <= ss.flatten().len() && #[trigger] ss.flatten().subrange(
                k,
                k + ss[j].len(),
            ) == ss[j];
        assert(t.all_for(id).subrange(k, k + t.responders_for(id, peer).len() as int)
            == t.responders_for(id, peer));
    } else {
        assert(t.responders_for(id, peer) =~= Seq::<FetchResponder<T>>::empty());
        assert(t.all_for(id).subrange(0, 0 + t.responders_for(id, peer).len() as int)
            == t.responders_for(id, peer));
    }
}

/// The responder table retains no empty bucket and no entry whose buckets
/// are all gone: every identifier present in a well-formed table still has
/// at least one pending responder.
pub proof fn lemma_no_empty_entries<T: Item>(t: ResponderTable<T>, id: T::Id)
    requires
        t.wf(),
        t.has_entry(id),
    ensures
        t.all_for(id).len() > 0,
        exists|p: NodeId| #[trigger] t.responders_for(id, p).len() > 0,
{
    let entry = t.entry(id);
    let i = t.entry_index(id);
    assert(t.entries@[i].wf() && t.entries@[i].buckets@.len() > 0);
    let p0 = entry.buckets@[0].peer;
    entry.lemma_bucket_index_of(p0, 0);
    assert(t.responders_for(id, p0) == entry.buckets@[0].responders@);
    assert(entry.buckets@[0].wf());
    assert(t.responders_for(id, p0).len() > 0);
    lemma_bucket_within_all(t, id, p0);
    let k = choose|k: int|
        0 <= k && k + t.responders_for(id, p0).len() <= t.all_for(id).len()
            && #[trigger] t.all_for(id).subrange(k, k + t.responders_for(id, p0).len() as int)
            == t.responders_for(id, p0);
    assert(t.all_for(id).len() >= t.responders_for(id, p0).len());
}

/// Holds when the deliveries of `outcome` to `bucket`, in arrival order,
/// stand contiguously somewhere inside `effects`.
pub open spec fn bucket_delivered_contiguously<T: Item>(
    bucket: Seq<FetchResponder<T>>,
    outcome: Option<FetchResult<T>>,
    effects: Seq<Effect<T>>,
) -> bool {
    exists|k: int|
        0 <= k && k + bucket.len() <= effects.len() && #[trigger] effects.subrange(
            k,
            k + bucket.len() as int,
        ) == respond_all(bucket, outcome)
}

/// A positive resolution for `id` delivers the identical outcome to every
/// responder pending for `id` — across every peer bucket — exactly once
/// each, in table order with each bucket's arrival order kept, and leaves
/// the table with no responder for `id`.
pub proof fn lemma_positive_resolution_exact<T: Item>(
    pre: ResponderTable<T>,
    post: ResponderTable<T>,
    id: T::Id,
    outcome: FetchResult<T>,
    effects: Seq<Effect<T>>,
)
    requires
        pre.wf(),
        drained_all(pre, post, id),
        effects == respond_all(pre.all_for(id), Some(outcome)),
    ensures
        effects.len() == pre.all_for(id).len(),
        forall|n: int|
            0 <= n < effects.len() ==> #[trigger] effects[n] == (Effect::<T>::Respond {
                responder: pre.all_for(id)[n],
                outcome: Some(outcome),
            }),
        forall|p2: NodeId| #[trigger] post.responders_for(id, p2).len() == 0,
        forall|p2: NodeId|
            bucket_delivered_contiguously(
                #[trigger] pre.responders_for(id, p2),
                Some(outcome),
                effects,
            ),
{
    assert forall|p2: NodeId| #[trigger] post.responders_for(id, p2).len() == 0 by {
        assert(!post.has_entry(id));
    }
    assert forall|p2: NodeId|
        bucket_delivered_contiguously(
            #[trigger] pre.responders_for(id, p2),
            Some(outcome),
            effects,
        ) by {
        lemma_bucket_within_all(pre, id, p2);
        let blen = pre.responders_for(id, p2).len() as int;
        let k = choose|k: int|
            0 <= k && k + pre.responders_for(id, p2).len() <= pre.all_for(id).len()
                && #[trigger] pre.all_for(id).subrange(
                k,
                k + pre.responders_for(id, p2).len() as int,
            ) == pre.responders_for(id, p2);
        assert(effects.len() == pre.all_for(id).len());
        assert(effects.subrange(k, k + blen) =~= respond_all(
            pre.responders_for(id, p2),
            Some(outcome),
        ));
        assert(0 <= k && k + pre.responders_for(id, p2).len() <= effects.len()
            && effects.subrange(k, k + pre.responders_for(id, p2).len() as int) == respond_all(
            pre.responders_for(id, p2),
            Some(outcome),
        ));
    }
}

/// A negative resolution for `(id, peer)` delivers `None` exactly once to
/// each responder of that bucket, in arrival order, and touches no other
/// bucket of the table.
pub proof fn lemma_negative_resolution_exact<T: Item>(
    pre: ResponderTable<T>,
    post: ResponderTable<T>,
    id: T::Id,
    peer: NodeId,
    effects: Seq<Effect<T>>,
)
    requires
        pre.wf(),
        dropped_peer(pre, post, id, peer),
        effects == respond_all(pre.responders_for(id, peer), None::<FetchResult<T>>),
    ensures
        effects.len() == pre.responders_for(id, peer).len(),
        forall|n: int|
            0 <= n < effects.len() ==> #[trigger] effects[n] == (Effect::<T>::Respond {
                responder: pre.responders_for(id, peer)[n],
                outcome: None::<FetchResult<T>>,
            }),
        post.responders_for(id, peer).len() == 0,
        forall|id2: T::Id, p2: NodeId|
            !(id2 == id && p2 == peer) ==> #[trigger] post.responders_for(id2, p2)
                == pre.responders_for(id2, p2),
{
}

/// Every responder accepted is pending exactly once until resolved: a fetch
/// for `(id, peer)` appends its responder at the end of that bucket and adds
/// exactly one occurrence to the multiset of everything pending for `id`,
/// touching nothing else.  Together with `lemma_positive_resolution_exact`
/// and `lemma_negative_resolution_exact`, which deliver each pending
/// occurrence they target exactly once and remove it from the table, an
/// accepted responder is signalled exactly once in any run that resolves its
/// identifier; that a resolution eventually arrives is the reactor's duty,
/// bounded by the timeout armed on every storage miss.
pub proof fn lemma_fetch_pends_exactly_once<T: Item>(
    t0: ResponderTable<T>,
    t1: ResponderTable<T>,
    id: T::Id,
    peer: NodeId,
    responder: FetchResponder<T>,
)
    requires
        appended(t0, t1, id, peer, responder),
    ensures
        t1.responders_for(id, peer) == t0.responders_for(id, peer).push(responder),
        t1.all_for(id).to_multiset() == t0.all_for(id).to_multiset().insert(responder),
        forall|id2: T::Id, p2: NodeId|
            !(id2 == id && p2 == peer) ==> #[trigger] t1.responders_for(id2, p2)
                == t0.responders_for(id2, p2),
{
}

/// A negative resolution for `(id, peer)` is idempotent: after the first,
/// a second negative resolution for the same pair delivers nothing and
/// leaves every bucket and every entry of the table as it was.
pub proof fn lemma_signal_none_idempotent<T: Item>(
    t0: ResponderTable<T>,
    t1: ResponderTable<T>,
    t2: ResponderTable<T>,
    id: T::Id,
    peer: NodeId,
)
    requires
        dropped_peer(t0, t1, id, peer),
        dropped_peer(t1, t2, id, peer),
    ensures
        respond_all(t1.responders_for(id, peer), None::<FetchResult<T>>).len() == 0,
        forall|id2: T::Id, p2: NodeId|
            #[trigger] t2.responders_for(id2, p2) == t1.responders_for(id2, p2),
        forall|id2: T::Id| #[trigger] t2.has_entry(id2) <==> t1.has_entry(id2),
{
    assert(t1.responders_for(id, peer).len() == 0);
    assert forall|id2: T::Id, p2: NodeId| #[trigger] t2.responders_for(id2, p2)
        == t1.responders_for(id2, p2) by {
        if id2 == id && p2 == peer {
            assert(t2.responders_for(id, peer).len() == 0);
            assert(t2.responders_for(id, peer) =~= t1.responders_for(id, peer));
        }
    }
    assert forall|id2: T::Id| #[trigger] t2.has_entry(id2) <==> t1.has_entry(id2) by {
        if id2 == id {
            if t1.has_entry(id) {
                let p2 = choose|p2: NodeId|
                    p2 != peer && #[trigger] t0.responders_for(id, p2).len() > 0;
                assert(t1.responders_for(id, p2) == t0.responders_for(id, p2));
                assert(t1.responders_for(id, p2).len() > 0);
                assert(t2.has_entry(id));
            } else {
                if t2.has_entry(id) {
                    let p2 = choose|p2: NodeId|
                        p2 != peer && #[trigger] t1.responders_for(id, p2).len() > 0;
                    assert(t0.responders_for(id, p2) == t1.responders_for(id, p2));
                    assert(false);
                }
            }
        }
    }
}

/// Two fetches for the same `(id, peer)` issued back-to-back — say while
/// their storage queries are still pending — append both responders to the
/// same bucket in order, and a subsequent positive resolution delivers the
/// identical outcome to each of the two, the earlier responder first.
pub proof fn lemma_back_to_back_fetches<T: Item>(
    t0: ResponderTable<T>,
    t1: ResponderTable<T>,
    t2: ResponderTable<T>,
    t3: ResponderTable<T>,
    id: T::Id,
    peer: NodeId,
    r1: FetchResponder<T>,
    r2: FetchResponder<T>,
    outcome: FetchResult<T>,
    effects: Seq<Effect<T>>,
)
    requires
        t2.wf(),
        appended(t0, t1, id, peer, r1),
        appended(t1, t2, id, peer, r2),
        drained_all(t2, t3, id),
        effects == respond_all(t2.all_for(id), Some(outcome)),
    ensures
        t2.responders_for(id, peer) == t0.responders_for(id, peer).push(r1).push(r2),
        exists|i: int, j: int|
            0 <= i < j < effects.len() && #[trigger] effects[i] == (Effect::<T>::Respond {
                responder: r1,
                outcome: Some(outcome),
            }) && #[trigger] effects[j] == (Effect::<T>::Respond {
                responder: r2,
                outcome: Some(outcome),
            }),
{
    assert(t2.responders_for(id, peer) == t1.responders_for(id, peer).push(r2));
    assert(t1.responders_for(id, peer) == t0.responders_for(id, peer).push(r1));
    lemma_bucket_within_all(t2, id, peer);
    let blen = t2.responders_for(id, peer).len() as int;
    let k = choose|k: int|
        0 <= k && k + blen <= t2.all_for(id).len() && #[trigger] t2.all_for(id).subrange(
            k,
            k + blen,
        ) == t2.responders_for(id, peer);
    assert(blen >= 2);
    let i = k + blen - 2;
    let j = k + blen - 1;
    assert(t2.all_for(id).subrange(k, k + blen)[blen - 2] == t2.all_for(id)[i]);
    assert(t2.all_for(id).subrange(k, k + blen)[blen - 1] == t2.all_for(id)[j]);
    assert(t2.responders_for(id, peer)[blen - 2] == r1);
    assert(t2.responders_for(id, peer)[blen - 1] == r2);
    assert(effects[i] == (Effect::<T>::Respond { responder: r1, outcome: Some(outcome) }));
    assert(effects[j] == (Effect::<T>::Respond { responder: r2, outcome: Some(outcome) }));
}

} // verus!
