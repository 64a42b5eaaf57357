//! What holds of the work on every snapshot, whatever is answered on the way.
use vstd::prelude::*;

use crate::model::{psk_meant, Ask, NodeStatus, RegistrationState, Told};
use crate::relay::TablesView;
use crate::snapshot::{
    clears_psk, complete, keys_fit, lemma_next_stray, lemma_next_update, next_stray, next_update,
    snapshot_ask, snapshot_start, snapshot_step, snapshot_wf, update_from, SnapshotStage,
    SnapshotView,
};
use crate::text::Text;

verus! {

/// A peer that the snapshot may change: it is in the snapshot, is not this node, and stands behind
/// no relay.
pub open spec fn may_update(v: SnapshotView, t: TablesView, i: int) -> bool {
    &&& v.peers.contains_key(v.keys[i])
    &&& v.keys[i] != v.local
    &&& !t.assigned.contains_key(v.keys[i])
}

/// What holds of the work between any two steps.
pub open spec fn in_line(v: SnapshotView, t: TablesView) -> bool {
    match v.stage {
        SnapshotStage::Reading { i } | SnapshotStage::Switching { i } => may_update(
            v,
            t,
            i as int,
        ),
        SnapshotStage::Updating { i } => may_update(v, t, i as int) && v.ips.len() > 0,
        SnapshotStage::Locating { i } | SnapshotStage::Comparing { i } => may_update(
            v,
            t,
            i as int,
        ) && v.ips.len() > 0 && v.lan && !clears_psk(v.peers[v.keys[i as int]]),
        SnapshotStage::Pruning { i } => v.listed[i as int] != v.local && !v.peers.contains_key(
            v.listed[i as int],
        ),
        _ => true,
    }
}

proof fn lemma_update_in_line(v: SnapshotView, t: TablesView, i: int)
    requires
        keys_fit(v),
        0 <= i <= v.keys.len() <= usize::MAX,
    ensures
        in_line(update_from(v, t, i), t),
{
    lemma_next_update(v, t, i);
}

/// No answer takes the work out of line.
pub proof fn law_snapshot_in_line(v: SnapshotView, t: TablesView, status: NodeStatus, told: Told)
    requires
        snapshot_wf(v),
        keys_fit(v),
        in_line(v, t),
        v.keys.len() <= usize::MAX,
        v.listed.len() <= usize::MAX,
        snapshot_step(v, t, status, told).0.listed.len() <= usize::MAX,
    ensures
        in_line(snapshot_step(v, t, status, told).0, snapshot_step(v, t, status, told).1),
        keys_fit(snapshot_step(v, t, status, told).0),
{
    match v.stage {
        SnapshotStage::ListingKeys => {
            let with_psk = match told {
                Told::List(Some(l)) => l,
                _ => Seq::empty(),
            };
            lemma_update_in_line(SnapshotView { with_psk, ..v }, t, 0);
        },
        SnapshotStage::Reading { i }
        | SnapshotStage::Updating { i }
        | SnapshotStage::Switching { i } => {
            lemma_update_in_line(v, t, i + 1);
        },
        SnapshotStage::Listing => {
            if let Told::List(Some(listed)) = told {
                lemma_next_stray(SnapshotView { listed, ..v }, 0);
            }
        },
        SnapshotStage::Pruning { i } => {
            lemma_next_stray(v, i + 1);
        },
        _ => {},
    }
}

/// The work starts in line.
pub proof fn law_snapshot_starts_in_line(v: SnapshotView, t: TablesView, status: NodeStatus)
    requires
        v.alive.len() == 0,
    ensures
        in_line(snapshot_start(v, t, status).0, snapshot_start(v, t, status).1),
{
}

/// A snapshot updates only peers that are in it, are not this node and stand behind no relay, and
/// gives none of them an empty list of addresses; it removes only peers that it lacks, and never
/// this node.
pub proof fn law_snapshot_changes_only_its_peers(v: SnapshotView, t: TablesView)
    requires
        snapshot_wf(v),
        in_line(v, t),
    ensures
        match snapshot_ask(v) {
            Ask::UpdatePeer(u) => {
                &&& v.peers.contains_key(u.pubkey)
                &&& u.pubkey != v.local
                &&& !t.assigned.contains_key(u.pubkey)
                &&& u.allowed_ips is Some
                &&& u.allowed_ips->0.len() > 0
            },
            Ask::RemovePeer { pubkey } => pubkey != v.local && !v.peers.contains_key(pubkey),
            Ask::SwitchToLan { pubkey, .. } => v.peers.contains_key(pubkey) && pubkey != v.local
                && !t.assigned.contains_key(pubkey),
            _ => true,
        },
{
}

/// The addresses that the snapshot gives a peer are those that it is updated with; only a peer that
/// the snapshot gives none keeps what it has.
pub proof fn law_snapshot_addresses_count(v: SnapshotView, t: TablesView, i: int)
    requires
        keys_fit(v),
        0 <= i <= v.keys.len() <= usize::MAX,
        next_update(v, t, i) < v.keys.len(),
        v.peers[v.keys[next_update(v, t, i)]].allowed_ips is Some,
        v.peers[v.keys[next_update(v, t, i)]].allowed_ips->0.len() > 0,
    ensures
        update_from(v, t, i).ips == v.peers[v.keys[next_update(v, t, i)]].allowed_ips->0,
{
    lemma_next_update(v, t, i);
}

/// A snapshot that lacks this node, or holds it alone, is not acted on: nothing is asked for, and
/// neither the tables nor this node's status change.
pub proof fn law_incomplete_snapshot_changes_nothing(
    v: SnapshotView,
    t: TablesView,
    status: NodeStatus,
)
    requires
        !complete(v.keys, v.peers, v.local),
    ensures
        snapshot_ask(snapshot_start(v, t, status).0) == Ask::Done,
        snapshot_start(v, t, status).0.stage is Done,
        snapshot_start(v, t, status).1 == t,
        snapshot_start(v, t, status).2 == status,
{
}

/// A complete snapshot makes this node a registered one.
pub proof fn law_complete_snapshot_registers(v: SnapshotView, t: TablesView, status: NodeStatus)
    requires
        complete(v.keys, v.peers, v.local),
    ensures
        snapshot_start(v, t, status).2.registration == RegistrationState::Registered,
        snapshot_start(v, t, status).2.configured == status.configured,
{
}

/// Only a tunnel that was installed makes this node a configured one; nothing ever makes it an
/// unconfigured or unregistered one.
pub proof fn law_only_installing_configures(
    v: SnapshotView,
    t: TablesView,
    status: NodeStatus,
    told: Told,
)
    ensures
        ({
            let s = snapshot_step(v, t, status, told).2;
            &&& s.registration == status.registration
            &&& s.configured == (status.configured || (v.stage is Installing && told == Told::Flag(
                true,
            )))
        }),
{
}

/// The endpoint of a peer that is in use over the local network survives a snapshot.
pub proof fn law_snapshot_keeps_lan_endpoint(v: SnapshotView, t: TablesView, status: NodeStatus)
    requires
        snapshot_wf(v),
        v.stage is Comparing,
    ensures
        snapshot_ask(snapshot_step(v, t, status, Told::Flag(true)).0) matches Ask::UpdatePeer(u)
            && u.endpoint == v.endpoint,
{
}

/// A preshared key is left alone where the snapshot does not speak of it, and is not cleared where
/// the peer is known to have none.
pub proof fn law_psk_is_left_alone(v: SnapshotView, i: usize)
    requires
        v.stage == (SnapshotStage::Updating { i }),
        ({
            ||| psk_meant(v.peers[v.keys[i as int]].preshared_key) is None
            ||| clears_psk(v.peers[v.keys[i as int]]) && v.with_psk.len() > 0
                && !v.with_psk.contains(v.keys[i as int])
        }),
    ensures
        snapshot_ask(v) matches Ask::UpdatePeer(u) && u.preshared_key is None,
{
}

/// A preshared key that the snapshot names is set, and one that it wants cleared is cleared where
/// the peer has one.
pub proof fn law_psk_is_followed(v: SnapshotView, i: usize)
    requires
        v.stage == (SnapshotStage::Updating { i }),
        psk_meant(v.peers[v.keys[i as int]].preshared_key) is Some,
        !clears_psk(v.peers[v.keys[i as int]]) || v.with_psk.contains(v.keys[i as int]),
    ensures
        snapshot_ask(v) matches Ask::UpdatePeer(u) && u.preshared_key == psk_meant(
            v.peers[v.keys[i as int]].preshared_key,
        ),
{
}

/// No peer that has to be updated is passed over.
pub proof fn law_no_peer_is_passed_over(v: SnapshotView, t: TablesView, i: int, j: int)
    requires
        0 <= i <= j < next_update(v, t, i),
    ensures
        v.keys[j] == v.local || t.assigned.contains_key(v.keys[j]),
    decreases v.keys.len() - i,
{
    if i < v.keys.len() && (v.keys[i] == v.local || t.assigned.contains_key(v.keys[i])) {
        if i < j {
            law_no_peer_is_passed_over(v, t, i + 1, j);
        }
    }
}

/// No peer that the snapshot lacks is passed over.
pub proof fn law_no_stray_is_passed_over(v: SnapshotView, i: int, j: int)
    requires
        0 <= i <= j < next_stray(v, i),
    ensures
        v.listed[j] == v.local || v.peers.contains_key(v.listed[j]),
    decreases v.listed.len() - i,
{
    if i < v.listed.len() && (v.listed[i] == v.local || v.peers.contains_key(v.listed[i])) {
        if i < j {
            law_no_stray_is_passed_over(v, i + 1, j);
        }
    }
}

/// A peer that leaves with a snapshot stands behind no relay afterwards.
pub proof fn law_removed_peer_is_forgotten(
    v: SnapshotView,
    t: TablesView,
    status: NodeStatus,
    told: Told,
    i: usize,
)
    requires
        v.stage == (SnapshotStage::Pruning { i }),
    ensures
        !snapshot_step(v, t, status, told).1.assigned.contains_key(v.listed[i as int]),
        forall|p: Text|
            p != v.listed[i as int] ==> (#[trigger] snapshot_step(
                v,
                t,
                status,
                told,
            ).1.assigned.contains_key(p) <==> t.assigned.contains_key(p)),
{
}

/// How far the work on a snapshot is from its end: the part of the work, and what is left of it.
pub open spec fn snapshot_left(v: SnapshotView) -> (int, int) {
    let peers = v.keys.len() as int;
    match v.stage {
        SnapshotStage::Discovering { i } => (9, v.candidates.len() - i),
        SnapshotStage::Addressing => (8, 0),
        SnapshotStage::Obfuscating => (7, 0),
        SnapshotStage::Installing => (6, 0),
        SnapshotStage::ListingKeys => (5, 0),
        SnapshotStage::Reading { i } => (4, 5 * (peers - i) + 4),
        SnapshotStage::Locating { i } => (4, 5 * (peers - i) + 3),
        SnapshotStage::Comparing { i } => (4, 5 * (peers - i) + 2),
        SnapshotStage::Updating { i } => (4, 5 * (peers - i) + 1),
        SnapshotStage::Switching { i } => (4, 5 * (peers - i)),
        SnapshotStage::Listing => (3, 0),
        SnapshotStage::Pruning { i } => (2, v.listed.len() - i),
        SnapshotStage::RoutingNew | SnapshotStage::Routing => (1, 0),
        SnapshotStage::Done | SnapshotStage::Failed => (0, 0),
    }
}

/// Every answer brings the work on a snapshot nearer to its end.
pub proof fn law_snapshot_ends(v: SnapshotView, t: TablesView, status: NodeStatus, told: Told)
    requires
        snapshot_wf(v),
        v.stage !is Done && v.stage !is Failed,
        v.keys.len() <= usize::MAX,
        v.candidates.len() <= usize::MAX,
        v.listed.len() <= usize::MAX,
    ensures
        ({
            let a = snapshot_left(snapshot_step(v, t, status, told).0);
            let b = snapshot_left(v);
            0 <= a.0 < b.0 || (a.0 == b.0 && 0 <= a.1 < b.1)
        }),
{
    match v.stage {
        SnapshotStage::ListingKeys => {
            let with_psk = match told {
                Told::List(Some(l)) => l,
                _ => Seq::empty(),
            };
            lemma_next_update(SnapshotView { with_psk, ..v }, t, 0);
        },
        SnapshotStage::Reading { i }
        | SnapshotStage::Updating { i }
        | SnapshotStage::Switching { i } => {
            lemma_next_update(v, t, i + 1);
        },
        SnapshotStage::Pruning { i } => {
            lemma_next_stray(v, i + 1);
        },
        _ => {},
    }
}

} // verus!
