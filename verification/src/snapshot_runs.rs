//! What the work on a snapshot has done when it is through, whatever was answered on the way.
use vstd::prelude::*;

use crate::model::{Ask, NodeStatus, Told};
use crate::relay::TablesView;
use crate::snapshot::{
    keys_fit, lemma_next_stray, lemma_next_update, next_stray, next_update, prune_from,
    snapshot_ask, snapshot_step, update_from, SnapshotStage, SnapshotView,
};
use crate::snapshot_laws::{
    law_no_peer_is_passed_over, law_no_stray_is_passed_over, may_update,
};
use crate::text::Text;

verus! {

/// Where the work stands after the given answers.
pub open spec fn snapshot_run(
    v: SnapshotView,
    t: TablesView,
    status: NodeStatus,
    answers: Seq<Told>,
) -> (SnapshotView, TablesView, NodeStatus)
    decreases answers.len(),
{
    if answers.len() == 0 {
        (v, t, status)
    } else {
        let (w, u, s) = snapshot_run(v, t, status, answers.drop_last());
        snapshot_step(w, u, s, answers.last())
    }
}

/// What was asked for on the way.
pub open spec fn snapshot_asks(
    v: SnapshotView,
    t: TablesView,
    status: NodeStatus,
    answers: Seq<Told>,
) -> Seq<Ask>
    decreases answers.len(),
{
    if answers.len() == 0 {
        Seq::empty()
    } else {
        let front = answers.drop_last();
        snapshot_asks(v, t, status, front).push(
            snapshot_ask(snapshot_run(v, t, status, front).0),
        )
    }
}

// ---------- Updating ----------

/// A peer that has to be updated, with the addresses that the snapshot gives it.
pub open spec fn must_update(v: SnapshotView, t: TablesView, i: int) -> bool {
    &&& may_update(v, t, i)
    &&& v.peers[v.keys[i]].allowed_ips is Some
    &&& v.peers[v.keys[i]].allowed_ips->0.len() > 0
}

/// Whether a peer was asked to be updated with these addresses.
pub open spec fn updated(asks: Seq<Ask>, pubkey: Text, ips: Seq<Text>) -> bool {
    exists|k: int|
        0 <= k < asks.len() && (#[trigger] asks[k] matches Ask::UpdatePeer(u) && u.pubkey == pubkey
            && u.allowed_ips == Some(ips))
}

/// Whether the peers are still being updated.
pub open spec fn updating(v: SnapshotView) -> bool {
    v.stage is ListingKeys || v.stage is Reading || v.stage is Locating || v.stage is Comparing
        || v.stage is Updating || v.stage is Switching
}

/// Whether all of the first `n` peers that have to be updated were.
#[verifier::opaque]
spec fn all_updated(v: SnapshotView, t: TablesView, asks: Seq<Ask>, n: int) -> bool {
    forall|i: int|
        0 <= i < n && #[trigger] must_update(v, t, i) ==> updated(
            asks,
            v.keys[i],
            v.peers[v.keys[i]].allowed_ips->0,
        )
}

/// How many peers the work is through with.
spec fn peers_done(v: SnapshotView) -> int {
    match v.stage {
        SnapshotStage::ListingKeys => 0,
        SnapshotStage::Reading { i }
        | SnapshotStage::Locating { i }
        | SnapshotStage::Comparing { i }
        | SnapshotStage::Updating { i } => i as int,
        SnapshotStage::Switching { i } => i + 1,
        _ => v.keys.len() as int,
    }
}

/// What holds of the peer at hand.
spec fn at_hand(v: SnapshotView, t: TablesView) -> bool {
    match v.stage {
        SnapshotStage::Reading { i } => i < v.keys.len() && !must_update(v, t, i as int),
        SnapshotStage::Locating { i }
        | SnapshotStage::Comparing { i }
        | SnapshotStage::Updating { i } => {
            &&& i < v.keys.len()
            &&& must_update(v, t, i as int) ==> v.ips == v.peers[v.keys[i as int]].allowed_ips->0
        },
        SnapshotStage::Switching { i } => i < v.keys.len(),
        _ => true,
    }
}

spec fn same_peers(v: SnapshotView, w: SnapshotView) -> bool {
    v.keys == w.keys && v.peers == w.peers && v.local == w.local
}

/// What holds between any two steps of work that began at `v`.
spec fn on_the_way(
    v: SnapshotView,
    t: TablesView,
    w: SnapshotView,
    u: TablesView,
    asks: Seq<Ask>,
) -> bool {
    &&& same_peers(v, w)
    &&& updating(w) || w.stage is Listing || w.stage is Pruning || w.stage is Routing
        || w.stage is Done
    &&& updating(w) ==> u == t && at_hand(w, t)
    &&& all_updated(v, t, asks, peers_done(w))
}

proof fn lemma_all_updated_more(v: SnapshotView, t: TablesView, asks: Seq<Ask>, a: Ask, n: int)
    requires
        all_updated(v, t, asks, n),
    ensures
        all_updated(v, t, asks.push(a), n),
{
    reveal(all_updated);
    assert forall|i: int| 0 <= i < n && #[trigger] must_update(v, t, i) implies updated(
        asks.push(a),
        v.keys[i],
        v.peers[v.keys[i]].allowed_ips->0,
    ) by {
        let ips = v.peers[v.keys[i]].allowed_ips->0;
        let k = choose|k: int|
            0 <= k < asks.len() && (#[trigger] asks[k] matches Ask::UpdatePeer(u) && u.pubkey
                == v.keys[i] && u.allowed_ips == Some(ips));
        assert(asks.push(a)[k] == asks[k]);
    }
}

proof fn lemma_one_more(v: SnapshotView, t: TablesView, asks: Seq<Ask>, i: int)
    requires
        all_updated(v, t, asks, i),
        must_update(v, t, i) ==> updated(asks, v.keys[i], v.peers[v.keys[i]].allowed_ips->0),
    ensures
        all_updated(v, t, asks, i + 1),
{
    reveal(all_updated);
}

proof fn lemma_skip_updated(v: SnapshotView, t: TablesView, w: SnapshotView, asks: Seq<Ask>, i: int)
    requires
        keys_fit(v),
        same_peers(v, w),
        0 <= i <= v.keys.len() <= usize::MAX,
        all_updated(v, t, asks, i),
    ensures
        on_the_way(v, t, update_from(w, t, i), t, asks),
{
    lemma_next_update(w, t, i);
    let n = next_update(w, t, i);
    assert(all_updated(v, t, asks, n)) by {
        reveal(all_updated);
        assert forall|j: int| 0 <= j < n && #[trigger] must_update(v, t, j) implies updated(
            asks,
            v.keys[j],
            v.peers[v.keys[j]].allowed_ips->0,
        ) by {
            if j >= i {
                law_no_peer_is_passed_over(w, t, i, j);
            }
        }
    }
}

proof fn lemma_update_step(
    v: SnapshotView,
    t: TablesView,
    w: SnapshotView,
    u: TablesView,
    s: NodeStatus,
    told: Told,
    asks: Seq<Ask>,
)
    requires
        keys_fit(v),
        v.keys.len() <= usize::MAX,
        on_the_way(v, t, w, u, asks),
    ensures
        on_the_way(
            v,
            t,
            snapshot_step(w, u, s, told).0,
            snapshot_step(w, u, s, told).1,
            asks.push(snapshot_ask(w)),
        ),
{
    let more = asks.push(snapshot_ask(w));
    lemma_all_updated_more(v, t, asks, snapshot_ask(w), peers_done(w));
    match w.stage {
        SnapshotStage::ListingKeys => {
            let with_psk = match told {
                Told::List(Some(l)) => l,
                _ => Seq::empty(),
            };
            lemma_skip_updated(v, t, SnapshotView { with_psk, ..w }, more, 0);
        },
        SnapshotStage::Reading { i } => {
            lemma_one_more(v, t, more, i as int);
            lemma_skip_updated(v, t, w, more, i + 1);
        },
        SnapshotStage::Updating { i } => {
            if must_update(v, t, i as int) {
                assert(more[asks.len() as int] == snapshot_ask(w));
            }
            lemma_one_more(v, t, more, i as int);
            lemma_skip_updated(v, t, w, more, i + 1);
        },
        SnapshotStage::Switching { i } => {
            lemma_skip_updated(v, t, w, more, i + 1);
        },
        _ => {},
    }
}

proof fn lemma_updates(v: SnapshotView, t: TablesView, status: NodeStatus, answers: Seq<Told>)
    requires
        v.stage is ListingKeys,
        keys_fit(v),
        v.keys.len() <= usize::MAX,
    ensures
        on_the_way(
            v,
            t,
            snapshot_run(v, t, status, answers).0,
            snapshot_run(v, t, status, answers).1,
            snapshot_asks(v, t, status, answers),
        ),
    decreases answers.len(),
{
    if answers.len() == 0 {
        reveal(all_updated);
    } else {
        let front = answers.drop_last();
        lemma_updates(v, t, status, front);
        let (w, u, s) = snapshot_run(v, t, status, front);
        lemma_update_step(
            v,
            t,
            w,
            u,
            s,
            answers.last(),
            snapshot_asks(v, t, status, front),
        );
    }
}

/// Once the peers of a snapshot were gone through, every one of them that has addresses there, is
/// not this node and stands behind no relay was updated with these addresses.
pub proof fn law_every_peer_is_updated(
    v: SnapshotView,
    t: TablesView,
    status: NodeStatus,
    answers: Seq<Told>,
    i: int,
)
    requires
        v.stage is ListingKeys,
        keys_fit(v),
        v.keys.len() <= usize::MAX,
        !updating(snapshot_run(v, t, status, answers).0),
        0 <= i < v.keys.len(),
        must_update(v, t, i),
    ensures
        updated(
            snapshot_asks(v, t, status, answers),
            v.keys[i],
            v.peers[v.keys[i]].allowed_ips->0,
        ),
{
    lemma_updates(v, t, status, answers);
    reveal(all_updated);
}

// ---------- Removing ----------

/// Whether a peer was asked to be removed.
pub open spec fn removed(asks: Seq<Ask>, p: Text) -> bool {
    exists|k: int|
        0 <= k < asks.len() && #[trigger] asks[k] == (Ask::RemovePeer { pubkey: p })
}

/// A peer of the interface that the snapshot lacks and that is not this node.
pub open spec fn stray(v: SnapshotView, listed: Seq<Text>, i: int) -> bool {
    listed[i] != v.local && !v.peers.contains_key(listed[i])
}

/// Whether all strays among the first `n` peers of the interface were removed.
#[verifier::opaque]
spec fn all_removed(v: SnapshotView, listed: Seq<Text>, asks: Seq<Ask>, n: int) -> bool {
    forall|i: int| 0 <= i < n && #[trigger] stray(v, listed, i) ==> removed(asks, listed[i])
}

/// How many peers of the interface the work is through with.
spec fn strays_done(v: SnapshotView) -> int {
    match v.stage {
        SnapshotStage::Pruning { i } => i as int,
        _ => v.listed.len() as int,
    }
}

/// What holds between any two steps after the peers of the interface were told.
spec fn on_the_way_out(
    v: SnapshotView,
    listed: Seq<Text>,
    w: SnapshotView,
    asks: Seq<Ask>,
) -> bool {
    &&& w.peers == v.peers
    &&& w.local == v.local
    &&& w.listed == listed
    &&& w.stage is Pruning || w.stage is Routing || w.stage is Done
    &&& w.stage matches SnapshotStage::Pruning { i } ==> i < listed.len()
    &&& all_removed(v, listed, asks, strays_done(w))
}

proof fn lemma_all_removed_more(v: SnapshotView, listed: Seq<Text>, asks: Seq<Ask>, a: Ask, n: int)
    requires
        all_removed(v, listed, asks, n),
    ensures
        all_removed(v, listed, asks.push(a), n),
{
    reveal(all_removed);
    assert forall|i: int| 0 <= i < n && #[trigger] stray(v, listed, i) implies removed(
        asks.push(a),
        listed[i],
    ) by {
        let k = choose|k: int|
            0 <= k < asks.len() && #[trigger] asks[k] == (Ask::RemovePeer { pubkey: listed[i] });
        assert(asks.push(a)[k] == asks[k]);
    }
}

proof fn lemma_skip_removed(v: SnapshotView, w: SnapshotView, asks: Seq<Ask>, i: int)
    requires
        w.peers == v.peers,
        w.local == v.local,
        0 <= i <= w.listed.len() <= usize::MAX,
        all_removed(v, w.listed, asks, i),
    ensures
        on_the_way_out(v, w.listed, prune_from(w, i), asks),
{
    lemma_next_stray(w, i);
    let n = next_stray(w, i);
    assert(all_removed(v, w.listed, asks, n)) by {
        reveal(all_removed);
        assert forall|j: int| 0 <= j < n && #[trigger] stray(v, w.listed, j) implies removed(
            asks,
            w.listed[j],
        ) by {
            if j >= i {
                law_no_stray_is_passed_over(w, i, j);
            }
        }
    }
}

proof fn lemma_removal_step(
    v: SnapshotView,
    listed: Seq<Text>,
    w: SnapshotView,
    u: TablesView,
    s: NodeStatus,
    told: Told,
    asks: Seq<Ask>,
)
    requires
        listed.len() <= usize::MAX,
        on_the_way_out(v, listed, w, asks),
    ensures
        on_the_way_out(
            v,
            listed,
            snapshot_step(w, u, s, told).0,
            asks.push(snapshot_ask(w)),
        ),
{
    let more = asks.push(snapshot_ask(w));
    lemma_all_removed_more(v, listed, asks, snapshot_ask(w), strays_done(w));
    if let SnapshotStage::Pruning { i } = w.stage {
        assert(more[asks.len() as int] == (Ask::RemovePeer { pubkey: listed[i as int] }));
        assert(all_removed(v, listed, more, i + 1)) by {
            reveal(all_removed);
        }
        lemma_skip_removed(v, w, more, i + 1);
    }
}

proof fn lemma_removals(
    v: SnapshotView,
    t: TablesView,
    status: NodeStatus,
    listed: Seq<Text>,
    answers: Seq<Told>,
)
    requires
        v.stage is Listing,
        listed.len() <= usize::MAX,
        answers.len() > 0,
        answers[0] == Told::List(Some(listed)),
    ensures
        on_the_way_out(
            v,
            listed,
            snapshot_run(v, t, status, answers).0,
            snapshot_asks(v, t, status, answers),
        ),
    decreases answers.len(),
{
    let front = answers.drop_last();
    let (w, u, s) = snapshot_run(v, t, status, front);
    let before = snapshot_asks(v, t, status, front);
    if answers.len() == 1 {
        let asks = before.push(snapshot_ask(w));
        assert(all_removed(v, listed, asks, 0)) by {
            reveal(all_removed);
        }
        lemma_skip_removed(v, SnapshotView { listed, ..v }, asks, 0);
    } else {
        assert(front[0] == answers[0]);
        lemma_removals(v, t, status, listed, front);
        lemma_removal_step(v, listed, w, u, s, answers.last(), before);
    }
}

/// Once the peers of the interface were gone through, every one of them that the snapshot lacks was
/// removed, but for this node.
pub proof fn law_every_stray_is_removed(
    v: SnapshotView,
    t: TablesView,
    status: NodeStatus,
    listed: Seq<Text>,
    answers: Seq<Told>,
    i: int,
)
    requires
        v.stage is Listing,
        listed.len() <= usize::MAX,
        answers.len() > 0,
        answers[0] == Told::List(Some(listed)),
        snapshot_run(v, t, status, answers).0.stage !is Pruning,
        0 <= i < listed.len(),
        stray(v, listed, i),
    ensures
        removed(snapshot_asks(v, t, status, answers), listed[i]),
{
    lemma_removals(v, t, status, listed, answers);
    reveal(all_removed);
}

} // verus!
