//! What a snapshot leads to: which requests it makes, in terms of what it says of this node and of
//! every peer.
use vstd::prelude::*;

use crate::model::{Ask, NodeStatus, PeerView, PskView, RegistrationState, Told, UpdateView};
use crate::relay::{count, living, sorted, TablesView};
use crate::self_ips::{host_addresses, is_host_v4, is_host_v6, tunnel_addresses};
use crate::snapshot::{
    addressing, complete, discover_from, fresh, main_part, next_stray, next_update, obfuscation,
    own_ips, prune_from, snapshot_ask, snapshot_start, snapshot_step, update_from, FullSnapshot,
    SnapshotStage, SnapshotView,
};
use crate::snapshot_runs::{snapshot_asks, snapshot_run};
use crate::text::Text;

verus! {

// ---------- The addresses of this node ----------

/// Whether a text looks like an address: it holds a dot or a colon.
pub open spec fn like_address(t: Text) -> bool {
    t.contains('.') || t.contains(':')
}

/// Whether this is the first address with a dot.
pub open spec fn first_dotted(list: Seq<Text>, i: int) -> bool {
    &&& 0 <= i < list.len()
    &&& list[i].contains('.')
    &&& forall|k: int| 0 <= k < i ==> !(#[trigger] list[k]).contains('.')
}

/// Whether this is the first address with a colon, but for the one at `but`.
pub open spec fn first_coloned(list: Seq<Text>, but: int, j: int) -> bool {
    &&& 0 <= j < list.len()
    &&& j != but
    &&& list[j].contains(':')
    &&& forall|k: int| 0 <= k < j && k != but ==> !(#[trigger] list[k]).contains(':')
}

/// The tunnel gets the first address with a dot and the first other one with a colon, and each of
/// them only if there is one: one kind of address is enough.
pub proof fn law_tunnel_addresses(list: Seq<Text>)
    ensures
        ({
            let (a, b) = tunnel_addresses(list);
            &&& forall|i: int| #[trigger] first_dotted(list, i) ==> a == list[i]
            &&& (forall|i: int| 0 <= i < list.len() ==> !(#[trigger] list[i]).contains('.'))
                ==> a.len() == 0 && forall|j: int| #[trigger]
                first_coloned(list, -1, j) ==> b == list[j]
            &&& forall|i: int, j: int| #[trigger]
                first_dotted(list, i) && #[trigger] first_coloned(list, i, j) ==> b == list[j]
            &&& (exists|i: int| 0 <= i < list.len() && like_address(#[trigger] list[i]))
                <==> a.len() > 0 || b.len() > 0
        }),
{
    let (i, j) = lemma_picks(list);
    let (a, b) = tunnel_addresses(list);
    assert forall|k: int| #[trigger] first_dotted(list, k) implies a == list[k] by {
        if i < k && i >= 0 {
            assert(!list[i].contains('.'));
        }
        if i < 0 {
            assert(!list[k].contains('.'));
        }
    }
    assert forall|k: int| #[trigger] first_coloned(list, i, k) implies b == list[k] by {
        if j < k && j >= 0 {
            assert(!list[j].contains(':'));
        }
        if j < 0 {
            assert(!list[k].contains(':'));
        }
    }
    assert forall|k: int, m: int| #[trigger]
        first_dotted(list, k) && #[trigger] first_coloned(list, k, m) implies b == list[m] by {
        if i < k && i >= 0 {
            assert(!list[i].contains('.'));
        }
        if i < 0 {
            assert(!list[k].contains('.'));
        }
        assert(k == i);
    }
    if i >= 0 {
        assert(like_address(list[i]));
    }
    if j >= 0 {
        assert(like_address(list[j]));
    }
    if exists|k: int| 0 <= k < list.len() && like_address(#[trigger] list[k]) {
        let k = choose|k: int| 0 <= k < list.len() && like_address(#[trigger] list[k]);
        if i < 0 {
            assert(!list[k].contains('.'));
            if j < 0 {
                assert(!list[k].contains(':'));
            }
        }
    }
}

/// The places of the two picks, `-1` for none.
proof fn lemma_picks(list: Seq<Text>) -> (r: (int, int))
    ensures
        ({
            let (i, j) = r;
            let (a, b) = tunnel_addresses(list);
            &&& -1 <= i < list.len()
            &&& -1 <= j < list.len()
            &&& if i >= 0 {
                first_dotted(list, i) && a == list[i] && a.len() > 0
            } else {
                a.len() == 0 && forall|k: int|
                    0 <= k < list.len() ==> !(#[trigger] list[k]).contains('.')
            }
            &&& if j >= 0 {
                first_coloned(list, i, j) && b == list[j] && b.len() > 0
            } else {
                b.len() == 0 && forall|k: int|
                    0 <= k < list.len() && k != i ==> !(#[trigger] list[k]).contains(':')
            }
        }),
    decreases list.len(),
{
    if list.len() == 0 {
        (-1, -1)
    } else {
        let front = list.drop_last();
        let c = list.last();
        let n = list.len() - 1;
        let (i, j) = lemma_picks(front);
        assert forall|k: int| 0 <= k < n implies #[trigger] front[k] == list[k] by {}
        assert(list[n] == c);
        if i < 0 && c.contains('.') {
            assert forall|k: int| 0 <= k < n implies !(#[trigger] list[k]).contains('.') by {
                assert(!front[k].contains('.'));
            }
            if j < 0 {
                assert forall|k: int| 0 <= k < list.len() && k != n implies !(
                #[trigger] list[k]).contains(':') by {
                    assert(!front[k].contains(':'));
                }
            } else {
                assert forall|k: int| 0 <= k < j implies !(#[trigger] list[k]).contains(':') by {
                    assert(!front[k].contains(':'));
                }
            }
            (n, j)
        } else {
            if i >= 0 {
                assert forall|k: int| 0 <= k < i implies !(#[trigger] list[k]).contains('.') by {
                    assert(!front[k].contains('.'));
                }
            } else {
                assert forall|k: int| 0 <= k < list.len() implies !(
                #[trigger] list[k]).contains('.') by {
                    if k < n {
                        assert(!front[k].contains('.'));
                    }
                }
            }
            if j >= 0 {
                assert forall|k: int| 0 <= k < j && k != i implies !(
                #[trigger] list[k]).contains(':') by {
                    assert(!front[k].contains(':'));
                }
                (i, j)
            } else {
                assert forall|k: int| 0 <= k < n && k != i implies !(
                #[trigger] list[k]).contains(':') by {
                    assert(!front[k].contains(':'));
                }
                if c.contains(':') {
                    (i, n)
                } else {
                    assert forall|k: int| 0 <= k < list.len() && k != i implies !(
                    #[trigger] list[k]).contains(':') by {
                        if k < n {
                            assert(!front[k].contains(':'));
                        }
                    }
                    (i, -1)
                }
            }
        }
    }
}

/// Whether this is the first single IPv4 address.
pub open spec fn first_host_v4(list: Seq<Text>, i: int) -> bool {
    &&& 0 <= i < list.len()
    &&& is_host_v4(list[i])
    &&& forall|k: int| 0 <= k < i ==> !is_host_v4(#[trigger] list[k])
}

/// Whether this is the first single IPv6 address.
pub open spec fn first_host_v6(list: Seq<Text>, i: int) -> bool {
    &&& 0 <= i < list.len()
    &&& is_host_v6(list[i])
    &&& forall|k: int| 0 <= k < i ==> !is_host_v6(#[trigger] list[k])
}

proof fn lemma_host_holds_something(c: Text)
    ensures
        is_host_v4(c) || is_host_v6(c) ==> c.len() > 0,
        !(is_host_v4(c) && is_host_v6(c)),
{
    if c.len() == 0 {
        assert(crate::text::find(c, '/') == 0);
        assert(crate::text::split(c, '.') =~= seq![c]);
        assert(crate::ip::v4(c) is None);
        assert(crate::ip::gap(c) == 0);
        assert(crate::ip::v6(c) is None);
    }
}

#[verifier::opaque]
spec fn single_v4(c: Text) -> bool {
    is_host_v4(c)
}

#[verifier::opaque]
spec fn single_v6(c: Text) -> bool {
    is_host_v6(c)
}

proof fn lemma_host_step(list: Seq<Text>)
    requires
        list.len() > 0,
    ensures
        ({
            let (a, b) = host_addresses(list.drop_last());
            let c = list.last();
            &&& host_addresses(list) == (if a.len() == 0 && single_v4(c) {
                (c, b)
            } else if b.len() == 0 && single_v6(c) {
                (a, c)
            } else {
                (a, b)
            })
            &&& single_v4(c) || single_v6(c) ==> c.len() > 0
            &&& !(single_v4(c) && single_v6(c))
        }),
{
    reveal(single_v4);
    reveal(single_v6);
    lemma_host_holds_something(list.last());
}

/// The places of the two picks, `-1` for none.
proof fn lemma_host_picks(list: Seq<Text>) -> (r: (int, int))
    ensures
        ({
            let (i, j) = r;
            let (a, b) = host_addresses(list);
            &&& -1 <= i < list.len()
            &&& -1 <= j < list.len()
            &&& if i >= 0 {
                single_v4(list[i]) && a == list[i] && a.len() > 0
            } else {
                a.len() == 0
            }
            &&& if j >= 0 {
                single_v6(list[j]) && b == list[j] && b.len() > 0
            } else {
                b.len() == 0
            }
            &&& forall|k: int|
                0 <= k < list.len() && (i < 0 || k < i) ==> !single_v4(#[trigger] list[k])
            &&& forall|k: int|
                0 <= k < list.len() && (j < 0 || k < j) ==> !single_v6(#[trigger] list[k])
        }),
    decreases list.len(),
{
    if list.len() == 0 {
        (-1, -1)
    } else {
        let front = list.drop_last();
        let c = list.last();
        let n = list.len() - 1;
        let (i, j) = lemma_host_picks(front);
        lemma_host_step(list);
        assert(list[n] == c);
        assert forall|k: int| 0 <= k < n && (i < 0 || k < i) implies !single_v4(
            #[trigger] list[k],
        ) by {
            assert(front[k] == list[k]);
        }
        assert forall|k: int| 0 <= k < n && (j < 0 || k < j) implies !single_v6(
            #[trigger] list[k],
        ) by {
            assert(front[k] == list[k]);
        }
        if i < 0 && single_v4(c) {
            (n, j)
        } else if j < 0 && single_v6(c) {
            (i, n)
        } else {
            (i, j)
        }
    }
}

/// The interface gets the first single IPv4 address and the first single IPv6 address, and each of
/// them only if there is one.
pub proof fn law_host_addresses(list: Seq<Text>, i: int)
    requires
        0 <= i < list.len(),
    ensures
        first_host_v4(list, i) ==> host_addresses(list).0 == list[i],
        first_host_v6(list, i) ==> host_addresses(list).1 == list[i],
        is_host_v4(list[i]) ==> host_addresses(list).0.len() > 0,
        is_host_v6(list[i]) ==> host_addresses(list).1.len() > 0,
{
    let (k, m) = lemma_host_picks(list);
    reveal(single_v4);
    reveal(single_v6);
    if first_host_v4(list, i) {
        assert(k >= 0);
        if k < i {
            assert(!is_host_v4(list[k]));
        }
    }
    if first_host_v6(list, i) {
        assert(m >= 0);
        if m < i {
            assert(!is_host_v6(list[m]));
        }
    }
}

/// An address that the interface gets is one of those in the list, and a single one.
pub proof fn law_host_addresses_are_there(list: Seq<Text>) -> (r: (int, int))
    ensures
        host_addresses(list).0.len() > 0 ==> 0 <= r.0 < list.len() && first_host_v4(list, r.0)
            && host_addresses(list).0 == list[r.0],
        host_addresses(list).1.len() > 0 ==> 0 <= r.1 < list.len() && first_host_v6(list, r.1)
            && host_addresses(list).1 == list[r.1],
{
    let (k, m) = lemma_host_picks(list);
    if k >= 0 {
        assert(is_host_v4(list[k])) by {
            reveal(single_v4);
        }
        assert forall|j: int| 0 <= j < k implies !is_host_v4(#[trigger] list[j]) by {
            assert(!single_v4(list[j]));
            reveal(single_v4);
        }
    }
    if m >= 0 {
        assert(is_host_v6(list[m])) by {
            reveal(single_v6);
        }
        assert forall|j: int| 0 <= j < m implies !is_host_v6(#[trigger] list[j]) by {
            assert(!single_v6(list[j]));
            reveal(single_v6);
        }
    }
    (k, m)
}

// ---------- The start ----------

/// A snapshot counts as complete just if this node is in it and another peer is.
pub proof fn law_complete_snapshots(keys: Seq<Text>, peers: Map<Text, PeerView>, local: Text)
    ensures
        complete(keys, peers, local) <==> peers.contains_key(local) && keys.len() > 1,
{
}

/// A complete snapshot has every peer that is meant as a relay asked for a handshake within three
/// minutes, in turn; when all were asked for, the pool is those that were alive, in order, and the
/// work goes on with this node's addresses.
pub proof fn law_every_candidate_is_asked_for(
    v: SnapshotView,
    t: TablesView,
    status: NodeStatus,
    i: int,
    yes: bool,
)
    requires
        v.candidates.len() <= usize::MAX,
        0 <= i < v.candidates.len(),
    ensures
        ({
            let (w, u) = discover_from(v, t, status.configured, i);
            let (x, y, s) = snapshot_step(w, t, status, Told::Flag(yes));
            &&& snapshot_ask(w) == Ask::Recent { pubkey: v.candidates[i], max_age: 180 }
            &&& u == t && s == status
            &&& x.alive == v.alive.push(yes)
            &&& i + 1 < v.candidates.len() ==> snapshot_ask(x) == Ask::Recent {
                pubkey: v.candidates[i + 1],
                max_age: 180,
            }
            &&& i + 1 == v.candidates.len() ==> {
                &&& y.pool == sorted(living(v.candidates, v.alive.push(yes)))
                &&& y.load == t.load && y.assigned == t.assigned && y.fails == t.fails
                &&& x == addressing(SnapshotView { alive: v.alive.push(yes), ..w }, status.configured)
            }
        }),
{
}

/// The first thing that a complete snapshot leads to: the question for the first peer that is meant
/// as a relay, or an empty pool and this node's addresses where none is.
pub proof fn law_complete_snapshot_starts(v: SnapshotView, t: TablesView, status: NodeStatus)
    requires
        v.peers.contains_key(v.local),
        v.keys.len() > 1,
        v.alive.len() == 0,
    ensures
        ({
            let (w, u, s) = snapshot_start(v, t, status);
            &&& s.registration == RegistrationState::Registered
            &&& s.configured == status.configured
            &&& v.candidates.len() > 0 ==> snapshot_ask(w) == Ask::Recent {
                pubkey: v.candidates[0],
                max_age: 180,
            } && u == t
            &&& v.candidates.len() == 0 ==> w == addressing(v, status.configured) && u.pool.len()
                == 0
        }),
{
}

/// Before the peers are looked at, the interface is given this node's single addresses, if it has
/// any of one kind or the other; then the obfuscation settings are applied, if the obfuscating tool
/// is in use and the snapshot has any; then the tunnel is installed or brought in line. What comes
/// of the first two does not matter.
pub proof fn law_what_comes_before_the_peers(
    v: SnapshotView,
    t: TablesView,
    status: NodeStatus,
    told: Told,
    l: Seq<Text>,
)
    requires
        v.peers[v.local].allowed_ips == Some(l),
    ensures
        ({
            let w = addressing(v, status.configured);
            let (a, b) = host_addresses(l);
            let any = exists|i: int|
                0 <= i < l.len() && (is_host_v4(#[trigger] l[i]) || is_host_v6(l[i]));
            let next = snapshot_step(w, t, status, told);
            if any {
                &&& snapshot_ask(w) == Ask::ConfigureSelfIp { ipv4: a, ipv6: b }
                &&& next == (obfuscation(w, status.configured), t, status)
            } else {
                w == obfuscation(v, status.configured)
            }
        }),
        ({
            let w = obfuscation(v, status.configured);
            if v.awg && v.amnezia {
                &&& snapshot_ask(w) == Ask::ApplyAmnezia
                &&& snapshot_step(w, t, status, told) == (
                    main_part(w, status.configured),
                    t,
                    status,
                )
            } else {
                w == main_part(v, status.configured)
            }
        }),
        status.configured ==> snapshot_ask(main_part(v, status.configured)) == Ask::PeersWithPsk,
{
    let (a, b) = host_addresses(l);
    let (k, m) = law_host_addresses_are_there(l);
    if exists|i: int| 0 <= i < l.len() && (is_host_v4(#[trigger] l[i]) || is_host_v6(l[i])) {
        let i = choose|i: int|
            0 <= i < l.len() && (is_host_v4(#[trigger] l[i]) || is_host_v6(l[i]));
        law_host_addresses(l, i);
    } else {
        if a.len() > 0 {
            assert(is_host_v4(l[k]));
        }
        if b.len() > 0 {
            assert(is_host_v6(l[m]));
        }
    }
}

/// A node without a tunnel whose addresses in the snapshot hold one that looks like an address, of
/// either kind, has the tunnel installed with the first of each kind; where none does, there is
/// nothing to do.
pub proof fn law_one_address_is_enough(v: SnapshotView, l: Seq<Text>)
    requires
        v.peers[v.local].allowed_ips == Some(l),
    ensures
        ({
            let w = main_part(v, false);
            let any = exists|i: int| 0 <= i < l.len() && like_address(#[trigger] l[i]);
            if any {
                snapshot_ask(w) matches Ask::Install { ipv4, ipv6 } && (ipv4.len() > 0
                    || ipv6.len() > 0) && (ipv4, ipv6) == tunnel_addresses(l)
            } else {
                w.stage is Done
            }
        }),
{
    law_tunnel_addresses(l);
}

// ---------- The first tunnel ----------

/// Whether the tunnel was asked to be installed, with an address of one kind at least.
pub open spec fn install_asked(asks: Seq<Ask>) -> bool {
    exists|k: int|
        0 <= k < asks.len() && (#[trigger] asks[k] matches Ask::Install { ipv4, ipv6 } && (
        ipv4.len() > 0 || ipv6.len() > 0))
}

/// Whether the routes were asked to be brought into force.
pub open spec fn routes_asked(asks: Seq<Ask>) -> bool {
    exists|k: int| 0 <= k < asks.len() && #[trigger] asks[k] == Ask::ApplyRoutes
}

/// What holds between any two steps on the way to the first tunnel.
#[verifier::opaque]
spec fn to_the_tunnel(
    v: SnapshotView,
    w: SnapshotView,
    s: NodeStatus,
    asks: Seq<Ask>,
) -> bool {
    &&& w.peers == v.peers
    &&& w.local == v.local
    &&& w.awg == v.awg
    &&& w.amnezia == v.amnezia
    &&& match w.stage {
        SnapshotStage::Discovering { .. }
        | SnapshotStage::Addressing
        | SnapshotStage::Obfuscating
        | SnapshotStage::Installing => !s.configured,
        SnapshotStage::RoutingNew => s.configured && install_asked(asks),
        SnapshotStage::Done => s.configured && install_asked(asks) && routes_asked(asks),
        SnapshotStage::Failed => !s.configured && install_asked(asks),
        _ => false,
    }
}

proof fn lemma_main_installs(v: SnapshotView, w: SnapshotView, i: int)
    requires
        w.peers == v.peers,
        w.local == v.local,
        v.peers[v.local].allowed_ips is Some,
        0 <= i < v.peers[v.local].allowed_ips->0.len(),
        like_address(v.peers[v.local].allowed_ips->0[i]),
    ensures
        main_part(w, false) == (SnapshotView { stage: SnapshotStage::Installing, ..w }),
        obfuscation(w, false).stage is Obfuscating || obfuscation(w, false).stage is Installing,
        addressing(w, false).stage is Addressing || addressing(w, false).stage is Obfuscating
            || addressing(w, false).stage is Installing,
        w.stage is Installing ==> install_asked(seq![snapshot_ask(w)]),
{
    let l = v.peers[v.local].allowed_ips->0;
    law_one_address_is_enough(w, l);
    let x = main_part(w, false);
    assert(own_ips(w) == l);
    assert(snapshot_ask(x) is Install);
    if w.stage is Installing {
        assert(snapshot_ask(w) == snapshot_ask(x));
        assert(seq![snapshot_ask(w)][0] == snapshot_ask(w));
    }
}

proof fn lemma_asked_more(asks: Seq<Ask>, a: Ask)
    ensures
        install_asked(asks) || install_asked(seq![a]) ==> install_asked(asks.push(a)),
        routes_asked(asks) || a == Ask::ApplyRoutes ==> routes_asked(asks.push(a)),
{
    let more = asks.push(a);
    if install_asked(asks) {
        let k = choose|k: int|
            0 <= k < asks.len() && (#[trigger] asks[k] matches Ask::Install { ipv4, ipv6 } && (
            ipv4.len() > 0 || ipv6.len() > 0));
        assert(more[k] == asks[k]);
    }
    if install_asked(seq![a]) {
        assert(seq![a][0] == a);
        assert(more[asks.len() as int] == a);
    }
    if routes_asked(asks) {
        let k = choose|k: int| 0 <= k < asks.len() && #[trigger] asks[k] == Ask::ApplyRoutes;
        assert(more[k] == asks[k]);
    }
    if a == Ask::ApplyRoutes {
        assert(more[asks.len() as int] == a);
    }
}

proof fn lemma_tunnel_step(
    v: SnapshotView,
    w: SnapshotView,
    u: TablesView,
    s: NodeStatus,
    told: Told,
    asks: Seq<Ask>,
    i: int,
)
    requires
        to_the_tunnel(v, w, s, asks),
        v.peers[v.local].allowed_ips is Some,
        0 <= i < v.peers[v.local].allowed_ips->0.len(),
        like_address(v.peers[v.local].allowed_ips->0[i]),
    ensures
        ({
            let (x, y, z) = snapshot_step(w, u, s, told);
            to_the_tunnel(v, x, z, asks.push(snapshot_ask(w)))
        }),
{
    reveal(to_the_tunnel);
    lemma_asked_more(asks, snapshot_ask(w));
    lemma_main_installs(v, w, i);
    if let SnapshotStage::Discovering { i: k } = w.stage {
        let yes = told == Told::Flag(true);
        lemma_main_installs(v, SnapshotView { alive: w.alive.push(yes), ..w }, i);
    }
}

proof fn lemma_to_the_tunnel(
    v: SnapshotView,
    w: SnapshotView,
    t: TablesView,
    status: NodeStatus,
    answers: Seq<Told>,
    i: int,
)
    requires
        to_the_tunnel(v, w, status, Seq::empty()),
        v.peers[v.local].allowed_ips is Some,
        0 <= i < v.peers[v.local].allowed_ips->0.len(),
        like_address(v.peers[v.local].allowed_ips->0[i]),
    ensures
        to_the_tunnel(
            v,
            snapshot_run(w, t, status, answers).0,
            snapshot_run(w, t, status, answers).2,
            snapshot_asks(w, t, status, answers),
        ),
    decreases answers.len(),
{
    if answers.len() > 0 {
        let front = answers.drop_last();
        lemma_to_the_tunnel(v, w, t, status, front, i);
        let (x, y, z) = snapshot_run(w, t, status, front);
        lemma_tunnel_step(v, x, y, z, answers.last(), snapshot_asks(w, t, status, front), i);
    }
}

/// A complete snapshot on a node without a tunnel, among whose own addresses one looks like an
/// address, leads to the installation of the tunnel: once the work is over, whatever was answered,
/// the tunnel was asked to be installed with an address of one kind at least. The work failed just
/// if the tunnel could not be installed; else the routes were asked to be brought into force, and
/// this node counts as configured.
pub proof fn law_first_snapshot_installs_the_tunnel(
    v: SnapshotView,
    t: TablesView,
    status: NodeStatus,
    answers: Seq<Told>,
    i: int,
)
    requires
        v.peers.contains_key(v.local),
        v.keys.len() > 1,
        v.alive.len() == 0,
        !status.configured,
        v.peers[v.local].allowed_ips is Some,
        0 <= i < v.peers[v.local].allowed_ips->0.len(),
        like_address(v.peers[v.local].allowed_ips->0[i]),
        ({
            let (w, u, s) = snapshot_start(v, t, status);
            let end = snapshot_run(w, u, s, answers).0;
            end.stage is Done || end.stage is Failed
        }),
    ensures
        ({
            let (w, u, s) = snapshot_start(v, t, status);
            let (x, y, z) = snapshot_run(w, u, s, answers);
            let asks = snapshot_asks(w, u, s, answers);
            &&& install_asked(asks)
            &&& x.stage is Done <==> z.configured
            &&& x.stage is Done ==> routes_asked(asks)
            &&& z.registration == RegistrationState::Registered
        }),
{
    let (w, u, s) = snapshot_start(v, t, status);
    assert(to_the_tunnel(v, w, s, Seq::empty())) by {
        reveal(to_the_tunnel);
        lemma_main_installs(v, v, i);
    }
    lemma_to_the_tunnel(v, w, u, s, answers, i);
    lemma_registration_stays(w, u, s, answers);
    reveal(to_the_tunnel);
}

proof fn lemma_registration_stays(
    v: SnapshotView,
    t: TablesView,
    status: NodeStatus,
    answers: Seq<Told>,
)
    ensures
        snapshot_run(v, t, status, answers).2.registration == status.registration,
        status.configured ==> snapshot_run(v, t, status, answers).2.configured,
    decreases answers.len(),
{
    if answers.len() > 0 {
        let front = answers.drop_last();
        lemma_registration_stays(v, t, status, front);
    }
}

// ---------- The peers ----------

/// What the snapshot means for the preshared key of a peer: an absent one is left alone and a text
/// is set; null and the empty text ask for it to be cleared, which is left alone only where some
/// peers are known to have a key and this one is not among them.
pub open spec fn psk_wanted(field: PskView, with_psk: Seq<Text>, pubkey: Text) -> Option<Text> {
    let none = with_psk.len() > 0 && !with_psk.contains(pubkey);
    match field {
        PskView::Missing => None,
        PskView::Null => if none {
            None
        } else {
            Some(Seq::empty())
        },
        PskView::Key(k) => if k.len() == 0 && none {
            None
        } else {
            Some(k)
        },
    }
}

/// The update that a snapshot makes of a peer, with the given endpoint and addresses.
pub open spec fn update_wanted(
    v: SnapshotView,
    pubkey: Text,
    endpoint: Option<Text>,
    ips: Seq<Text>,
) -> UpdateView {
    UpdateView {
        pubkey,
        endpoint,
        allowed_ips: Some(ips),
        persistent_keepalive: match v.peers[pubkey].persistent_keepalive {
            Some(k) => Some(k as u64),
            None => None,
        },
        preshared_key: psk_wanted(v.peers[pubkey].preshared_key, v.with_psk, pubkey),
    }
}

/// Whether the preshared key of a peer is to be cleared.
pub open spec fn wants_clearing(field: PskView) -> bool {
    field is Null || (field is Key && field->Key_0.len() == 0)
}

/// Whether this is the next peer to update from the `i`-th on: neither this node nor one behind a
/// relay, while all between are.
pub open spec fn next_to_update(v: SnapshotView, t: TablesView, i: int, n: int) -> bool {
    &&& i <= n < v.keys.len()
    &&& v.keys[n] != v.local
    &&& !t.assigned.contains_key(v.keys[n])
    &&& forall|k: int|
        i <= k < n ==> #[trigger] v.keys[k] == v.local || t.assigned.contains_key(v.keys[k])
}

proof fn lemma_next_to_update(v: SnapshotView, t: TablesView, i: int, n: int)
    requires
        0 <= i,
        next_to_update(v, t, i, n),
    ensures
        next_update(v, t, i) == n,
    decreases n - i,
{
    if i < n {
        assert(v.keys[i] == v.local || t.assigned.contains_key(v.keys[i]));
        lemma_next_to_update(v, t, i + 1, n);
    }
}

/// A peer that the snapshot gives addresses is updated with these and with every other field of the
/// snapshot. Where local networks are used and no key is to be cleared, its current endpoint is
/// asked for before, and if it has one, whether that is in use over the local network: just then it
/// is kept in place of the snapshot's.
pub proof fn law_peer_with_addresses_is_updated(
    v: SnapshotView,
    t: TablesView,
    status: NodeStatus,
    i: int,
    n: int,
    ips: Seq<Text>,
    current: Text,
)
    requires
        0 <= i,
        v.keys.len() <= usize::MAX,
        next_to_update(v, t, i, n),
        v.peers[v.keys[n]].allowed_ips == Some(ips),
        ips.len() > 0,
    ensures
        updates_peer(v, update_from(v, t, i), t, status, n, ips, current),
{
    lemma_next_to_update(v, t, i, n);
    lemma_updates_peer(v, update_from(v, t, i), t, status, n, ips, current);
}

/// How a peer is updated with the given addresses, from `w` on.
pub open spec fn updates_peer(
    v: SnapshotView,
    w: SnapshotView,
    t: TablesView,
    status: NodeStatus,
    n: int,
    ips: Seq<Text>,
    current: Text,
) -> bool {
    let p = v.keys[n];
    let plain = Ask::UpdatePeer(update_wanted(v, p, v.peers[p].endpoint, ips));
    let kept = Ask::UpdatePeer(update_wanted(v, p, Some(current), ips));
    if v.lan && !wants_clearing(v.peers[p].preshared_key) {
        let unknown = snapshot_step(w, t, status, Told::Text(None)).0;
        let known = snapshot_step(w, t, status, Told::Text(Some(current))).0;
        &&& snapshot_ask(w) == Ask::Endpoint { pubkey: p }
        &&& snapshot_ask(unknown) == plain
        &&& snapshot_ask(known) == Ask::LanActive { pubkey: p, endpoint: current }
        &&& snapshot_ask(snapshot_step(known, t, status, Told::Flag(true)).0) == kept
        &&& snapshot_ask(snapshot_step(known, t, status, Told::Flag(false)).0) == plain
    } else {
        snapshot_ask(w) == plain
    }
}

proof fn lemma_updates_peer(
    v: SnapshotView,
    w: SnapshotView,
    t: TablesView,
    status: NodeStatus,
    n: int,
    ips: Seq<Text>,
    current: Text,
)
    requires
        0 <= n < v.keys.len() <= usize::MAX,
        w == crate::snapshot::update_with(v, n, ips),
    ensures
        updates_peer(v, w, t, status, n, ips, current),
{
    let p = v.keys[n];
    let field = v.peers[p].preshared_key;
    if field is Key && field->Key_0.len() == 0 {
        assert(field->Key_0 =~= Seq::<char>::empty());
    }
}

/// A peer that the snapshot gives no addresses is asked for those it has, and updated with these in
/// the same way; only where it has none, or they are not known, it is left alone and the work goes on
/// with the next peer.
pub proof fn law_peer_without_addresses_keeps_its_own(
    v: SnapshotView,
    t: TablesView,
    status: NodeStatus,
    i: int,
    n: int,
    ips: Seq<Text>,
    current: Text,
)
    requires
        0 <= i,
        v.keys.len() <= usize::MAX,
        next_to_update(v, t, i, n),
        v.peers[v.keys[n]].allowed_ips is None || v.peers[v.keys[n]].allowed_ips->0.len() == 0,
    ensures
        ({
            let w = update_from(v, t, i);
            let some = snapshot_step(w, t, status, Told::List(Some(ips)));
            let none = snapshot_step(w, t, status, Told::List(None));
            &&& snapshot_ask(w) == Ask::AllowedIps { pubkey: v.keys[n] }
            &&& none == (update_from(w, t, n + 1), t, status)
            &&& ips.len() == 0 ==> some == (update_from(w, t, n + 1), t, status)
            &&& ips.len() > 0 ==> updates_peer(v, some.0, t, status, n, ips, current)
        }),
{
    lemma_next_to_update(v, t, i, n);
    let w = update_from(v, t, i);
    if ips.len() > 0 {
        let x = snapshot_step(w, t, status, Told::List(Some(ips))).0;
        lemma_updates_peer(w, x, t, status, n, ips, current);
        assert(updates_peer(w, x, t, status, n, ips, current) == updates_peer(
            v,
            x,
            t,
            status,
            n,
            ips,
            current,
        ));
    }
}

/// After its update a peer is tried over the local network at all the places that it reported, if it
/// reported any, whether the update was made or not; then the work goes on with the next peer.
pub proof fn law_updated_peer_is_tried_nearby(
    v: SnapshotView,
    t: TablesView,
    status: NodeStatus,
    told: Told,
    again: Told,
    i: usize,
)
    requires
        v.stage == (SnapshotStage::Updating { i }),
        i < v.keys.len(),
    ensures
        ({
            let p = v.peers[v.keys[i as int]];
            let (w, u, s) = snapshot_step(v, t, status, told);
            &&& u == t && s == status
            &&& match p.local_ips {
                Some(l) => if l.len() > 0 {
                    &&& snapshot_ask(w) == Ask::SwitchToLan {
                        pubkey: v.keys[i as int],
                        endpoints: l,
                    }
                    &&& snapshot_step(w, t, status, again) == (
                        update_from(w, t, i + 1),
                        t,
                        status,
                    )
                } else {
                    w == update_from(v, t, i + 1)
                },
                None => w == update_from(v, t, i + 1),
            }
        }),
{
}

/// The peers with a preshared key are taken as they are listed, and the work goes on with the first
/// peer; where they cannot be listed, none is known to have one.
pub proof fn law_listed_keys_are_taken(
    v: SnapshotView,
    t: TablesView,
    status: NodeStatus,
    l: Seq<Text>,
)
    requires
        v.stage is ListingKeys,
    ensures
        ({
            let w = SnapshotView { with_psk: l, ..v };
            snapshot_step(v, t, status, Told::List(Some(l))) == (update_from(w, t, 0), t, status)
        }),
        ({
            let w = SnapshotView { with_psk: Seq::empty(), ..v };
            snapshot_step(v, t, status, Told::List(None)) == (update_from(w, t, 0), t, status)
        }),
{
}

/// When no peer is left to update, the peers of the interface are asked for. All those that are
/// listed are looked at; where they cannot be listed, the routes come next.
pub proof fn law_strays_are_looked_for(
    v: SnapshotView,
    t: TablesView,
    status: NodeStatus,
    i: int,
    listed: Seq<Text>,
)
    requires
        0 <= i <= v.keys.len() <= usize::MAX,
        forall|k: int|
            i <= k < v.keys.len() ==> #[trigger] v.keys[k] == v.local || t.assigned.contains_key(
                v.keys[k],
            ),
    ensures
        ({
            let w = update_from(v, t, i);
            &&& snapshot_ask(w) == Ask::Peers
            &&& snapshot_step(w, t, status, Told::List(Some(listed))) == (
                prune_from(SnapshotView { listed, ..w }, 0),
                t,
                status,
            )
            &&& snapshot_ask(snapshot_step(w, t, status, Told::List(None)).0) == Ask::ApplyRoutes
        }),
    decreases v.keys.len() - i,
{
    if i < v.keys.len() {
        assert(v.keys[i] == v.local || t.assigned.contains_key(v.keys[i]));
        law_strays_are_looked_for(v, t, status, i + 1, listed);
        assert(next_update(v, t, i) == next_update(v, t, i + 1));
    }
}

/// Whether this is the next peer of the interface, from the `i`-th on, that is neither this node nor
/// in the snapshot.
pub open spec fn next_to_remove(v: SnapshotView, i: int, n: int) -> bool {
    &&& i <= n < v.listed.len()
    &&& v.listed[n] != v.local
    &&& !v.peers.contains_key(v.listed[n])
    &&& forall|k: int|
        i <= k < n ==> #[trigger] v.listed[k] == v.local || v.peers.contains_key(v.listed[k])
}

/// Whether every peer of the interface from the `i`-th on is this node or in the snapshot.
pub open spec fn none_to_remove(v: SnapshotView, i: int) -> bool {
    forall|k: int|
        i <= k < v.listed.len() ==> #[trigger] v.listed[k] == v.local || v.peers.contains_key(
            v.listed[k],
        )
}

/// The next peer of the interface that is neither this node nor in the snapshot is removed; when
/// none is left, the routes are brought into force, and then the work is done.
pub proof fn law_strays_then_routes(
    v: SnapshotView,
    t: TablesView,
    status: NodeStatus,
    told: Told,
    i: int,
    n: int,
)
    requires
        0 <= i <= v.listed.len() <= usize::MAX,
    ensures
        next_to_remove(v, i, n) ==> snapshot_ask(prune_from(v, i)) == (Ask::RemovePeer {
            pubkey: v.listed[n],
        }),
        none_to_remove(v, i) ==> snapshot_ask(prune_from(v, i)) == Ask::ApplyRoutes,
        none_to_remove(v, i) ==> snapshot_step(
            prune_from(v, i),
            t,
            status,
            told,
        ).0.stage is Done,
    decreases v.listed.len() - i,
{
    if i < v.listed.len() {
        if v.listed[i] == v.local || v.peers.contains_key(v.listed[i]) {
            law_strays_then_routes(v, t, status, told, i + 1, n);
            assert(next_stray(v, i) == next_stray(v, i + 1));
        } else {
            if i < n {
                assert(!(v.listed[i] == v.local || v.peers.contains_key(v.listed[i])));
            }
        }
    }
}

/// A peer that is removed is also forgotten as one behind a relay, whatever came of its removal, and
/// the work goes on with the next one.
pub proof fn law_removed_peer_is_forgotten(
    v: SnapshotView,
    t: TablesView,
    status: NodeStatus,
    told: Told,
    i: usize,
    other: Text,
)
    requires
        v.stage == (SnapshotStage::Pruning { i }),
        i < v.listed.len(),
    ensures
        ({
            let p = v.listed[i as int];
            let (w, u, s) = snapshot_step(v, t, status, told);
            &&& w == prune_from(v, i + 1)
            &&& s == status
            &&& !u.assigned.contains_key(p)
            &&& other != p ==> (u.assigned.contains_key(other) <==> t.assigned.contains_key(other))
            &&& other != p && t.assigned.contains_key(other) ==> u.assigned[other]
                == t.assigned[other]
            &&& u.pool == t.pool
            &&& t.assigned.contains_key(p) ==> count(u.load, t.assigned[p]) < count(
                t.load,
                t.assigned[p],
            ) || count(u.load, t.assigned[p]) == 0
        }),
{
}

/// A node that the snapshot gives no addresses gets none: neither the interface nor a tunnel is set
/// up with any.
pub proof fn law_no_addresses_no_tunnel(v: SnapshotView, configured: bool)
    requires
        v.peers[v.local].allowed_ips is None || v.peers[v.local].allowed_ips->0.len() == 0,
    ensures
        addressing(v, configured) == obfuscation(v, configured),
        main_part(v, false).stage is Done,
        main_part(v, true).stage is ListingKeys,
{
    let l = own_ips(v);
    assert(l.len() == 0);
    assert(host_addresses(l).0.len() == 0 && host_addresses(l).1.len() == 0);
    assert(tunnel_addresses(l).0.len() == 0 && tunnel_addresses(l).1.len() == 0);
}

/// No answer changes what the snapshot says, whose node it is or how it is set up. What was found
/// out about relays, preshared keys and the peers of the interface changes only where it is asked
/// for, and the tables only when the relays are known or a peer was removed.
pub proof fn law_snapshot_stays_the_same(
    v: SnapshotView,
    t: TablesView,
    status: NodeStatus,
    told: Told,
)
    ensures
        ({
            let (w, u, s) = snapshot_step(v, t, status, told);
            &&& w.local == v.local && w.awg == v.awg && w.lan == v.lan && w.amnezia == v.amnezia
            &&& w.keys == v.keys && w.peers == v.peers && w.candidates == v.candidates
            &&& !(v.stage is Discovering) ==> w.alive == v.alive
            &&& !(v.stage is ListingKeys) ==> w.with_psk == v.with_psk
            &&& !(v.stage is Listing) ==> w.listed == v.listed
            &&& !(v.stage is Discovering) && !(v.stage is Pruning) ==> u == t
            &&& v.stage is Discovering ==> u.load == t.load && u.assigned == t.assigned && u.order
                == t.order && u.fails == t.fails
        }),
        ({
            let (w, u, s) = snapshot_start(v, t, status);
            &&& w.local == v.local && w.awg == v.awg && w.lan == v.lan && w.amnezia == v.amnezia
            &&& w.keys == v.keys && w.peers == v.peers && w.candidates == v.candidates
            &&& w.alive == v.alive && w.with_psk == v.with_psk && w.listed == v.listed
            &&& u.load == t.load && u.assigned == t.assigned && u.order == t.order && u.fails
                == t.fails
        }),
{
}

/// The work begins with everything that the snapshot says and with nothing found out yet; the peers
/// meant as relays are those with one of the two relay networks among their addresses.
pub proof fn law_work_begins_with_the_snapshot(
    local: Text,
    snapshot: FullSnapshot,
    awg: bool,
    lan: bool,
    relay_v4: Text,
    relay_v6: Text,
    k: Text,
)
    ensures
        ({
            let v = fresh(local, snapshot, awg, lan, relay_v4, relay_v6);
            &&& v.local == local && v.awg == awg && v.lan == lan
            &&& v.keys == snapshot.peers.keys() && v.peers == snapshot.peers@
            &&& v.amnezia <==> snapshot.amnezia is Some
            &&& v.alive.len() == 0 && v.with_psk.len() == 0 && v.ips.len() == 0 && v.listed.len()
                == 0
            &&& v.endpoint is None
            &&& v.candidates.contains(k) <==> v.keys.contains(k) && v.peers[k].allowed_ips is Some
                && (v.peers[k].allowed_ips->0.contains(relay_v4)
                || v.peers[k].allowed_ips->0.contains(relay_v6))
        }),
{
    crate::relay_care::law_candidates(
        snapshot.peers.keys(),
        snapshot.peers@,
        relay_v4,
        relay_v6,
        k,
    );
}

} // verus!
