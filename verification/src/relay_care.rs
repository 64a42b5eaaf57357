//! How relays care for peers: whose addresses are put where, when a peer is handed over and when it
//! comes back, and that nobody is passed over.
use vstd::prelude::*;

use crate::model::{Ask, PeerView, PskView, Told, UpdateView};
use crate::relay::{
    behind, better, bound, candidates, check_wf, choose_from, count, exempt, forgotten,
    is_candidate, law_sorted, living, next_peer, next_relay, probe_from, relay_ask, relay_step,
    sorted, text_le, watch_from, CheckView, Stage, TablesView,
};
use crate::relay_laws::{order_fits, reply, smooth_run};
use crate::text::Text;

verus! {

// ---------- The addresses of a peer ----------

/// The peer on whose behalf addresses are put on a relay or taken off one.
pub open spec fn cared_for(c: CheckView) -> Text {
    match c.stage {
        Stage::Releasing { k, .. }
        | Stage::Reattaching { k, .. }
        | Stage::Unhoming { k, .. } => c.moving[k as int],
        _ => c.queue[c.pos as int],
    }
}

/// The addresses that are put on a relay on behalf of a peer, or taken off one, are exactly those
/// that the last snapshot gives the peer, all of them and in their order; none where it gives none.
pub proof fn law_addresses_are_those_of_the_snapshot(
    c: CheckView,
    t: TablesView,
    peers: Map<Text, PeerView>,
    l: Seq<Text>,
)
    requires
        check_wf(c, t, peers),
    ensures
        ({
            let p = cared_for(c);
            let given = if peers.contains_key(p) && peers[p].allowed_ips == Some(l) {
                relay_ask(c, t, peers) matches Ask::AddIps { ips, .. } ==> ips == l
            } else {
                true
            };
            let taken = if peers.contains_key(p) && peers[p].allowed_ips == Some(l) {
                relay_ask(c, t, peers) matches Ask::RemoveIps { ips, .. } ==> ips == l
            } else {
                true
            };
            given && taken
        }),
        ({
            let p = cared_for(c);
            let unknown = !peers.contains_key(p) || peers[p].allowed_ips is None;
            match relay_ask(c, t, peers) {
                Ask::AddIps { ips, .. } | Ask::RemoveIps { ips, .. } => unknown ==> ips.len() == 0,
                _ => true,
            }
        }),
{
}

/// Which relay is asked for what on behalf of a peer whose addresses the snapshot gives: they are
/// put on the relay that was chosen and taken off that one again, off the relay that the peer stood
/// behind, off the one that failed, and on and off the one that takes its place.
pub proof fn law_addresses_go_to_the_right_relay(
    c: CheckView,
    t: TablesView,
    peers: Map<Text, PeerView>,
)
    requires
        check_wf(c, t, peers),
    ensures
        ({
            let ask = relay_ask(c, t, peers);
            let p = cared_for(c);
            let l = peers[p].allowed_ips->0;
            peers.contains_key(p) && peers[p].allowed_ips is Some ==> match c.stage {
                Stage::Attaching { relay } => ask == Ask::AddIps {
                    pubkey: t.pool[relay as int],
                    ips: l,
                },
                Stage::Undoing { relay } => ask == Ask::RemoveIps {
                    pubkey: t.pool[relay as int],
                    ips: l,
                },
                Stage::Withdrawing => ask == Ask::RemoveIps { pubkey: c.former, ips: l },
                Stage::Releasing { at, .. } => ask == Ask::RemoveIps {
                    pubkey: t.pool[at as int],
                    ips: l,
                },
                Stage::Reattaching { target, .. } => ask == Ask::AddIps {
                    pubkey: t.pool[target as int],
                    ips: l,
                },
                Stage::Unhoming { target, .. } => ask == Ask::RemoveIps {
                    pubkey: t.pool[target as int],
                    ips: l,
                },
                _ => !(ask is AddIps) && !(ask is RemoveIps),
            }
        }),
{
}

/// Peers and relays are asked for a handshake within three minutes, each where it is its turn.
pub proof fn law_who_is_asked_for(c: CheckView, t: TablesView, peers: Map<Text, PeerView>)
    requires
        check_wf(c, t, peers),
    ensures
        match c.stage {
            Stage::Listing => relay_ask(c, t, peers) == Ask::Handshakes,
            Stage::Probing => relay_ask(c, t, peers) == Ask::Recent {
                pubkey: c.queue[c.pos as int],
                max_age: 180,
            },
            Stage::Choosing { next, .. } | Stage::Rehoming { next, .. } => relay_ask(c, t, peers)
                == Ask::Recent { pubkey: t.pool[next as int], max_age: 180 },
            Stage::Confirming { relay } => relay_ask(c, t, peers) == Ask::Recent {
                pubkey: t.pool[relay as int],
                max_age: 180,
            },
            Stage::Watching { at } => relay_ask(c, t, peers) == Ask::Recent {
                pubkey: t.pool[at as int],
                max_age: 180,
            },
            Stage::Reconfirming { target, .. } => relay_ask(c, t, peers) == Ask::Recent {
                pubkey: t.pool[target as int],
                max_age: 180,
            },
            Stage::Detaching { .. } => relay_ask(c, t, peers) == Ask::RemovePeer {
                pubkey: c.queue[c.pos as int],
            },
            Stage::Finished => relay_ask(c, t, peers) == Ask::Done,
            _ => true,
        },
{
}

// ---------- Counting failures ----------

/// A peer that is silent has one failure more, and nobody else has; below two failures, or behind a
/// relay already, it is left at that. A peer that is heard of and stands behind no relay has none.
pub proof fn law_failures_are_counted(
    c: CheckView,
    t: TablesView,
    peers: Map<Text, PeerView>,
    other: Text,
)
    requires
        check_wf(c, t, peers),
        c.stage is Probing,
        count(t.fails, c.queue[c.pos as int]) < u32::MAX,
    ensures
        ({
            let p = c.queue[c.pos as int];
            let (d, u) = relay_step(c, t, peers, Told::Flag(false));
            &&& count(u.fails, p) == count(t.fails, p) + 1
            &&& other != p ==> count(u.fails, other) == count(t.fails, other)
            &&& u.load == t.load && u.assigned == t.assigned && u.pool == t.pool
            &&& count(t.fails, p) == 0 || t.assigned.contains_key(p) ==> d == probe_from(
                c,
                u,
                c.pos + 1,
            )
            &&& count(t.fails, p) >= 1 && !t.assigned.contains_key(p) && t.pool.len() > 0
                ==> relay_ask(d, u, peers) == Ask::Recent { pubkey: t.pool[0], max_age: 180 }
        }),
        ({
            let p = c.queue[c.pos as int];
            let (d, u) = relay_step(c, t, peers, Told::Flag(true));
            !t.assigned.contains_key(p) ==> {
                &&& count(u.fails, p) == 0
                &&& other != p ==> count(u.fails, other) == count(t.fails, other)
                &&& u.load == t.load && u.assigned == t.assigned && u.pool == t.pool
                &&& d == probe_from(c, u, c.pos + 1)
            }
        }),
{
}

// ---------- Nobody is passed over ----------

/// Whether this is the first peer from the `i`-th on that is neither a relay nor this node.
pub open spec fn first_to_check(c: CheckView, t: TablesView, i: int, j: int) -> bool {
    &&& i <= j < c.queue.len()
    &&& !t.pool.contains(c.queue[j])
    &&& c.queue[j] != c.local
    &&& forall|k: int|
        i <= k < j ==> t.pool.contains(#[trigger] c.queue[k]) || c.queue[k] == c.local
}

/// Going on with the peers means going on with the next one that is neither a relay nor this node,
/// and with the first relay only where none is left.
pub proof fn law_no_peer_goes_unchecked(c: CheckView, t: TablesView, i: int, j: int)
    requires
        0 <= i <= c.queue.len() <= usize::MAX,
    ensures
        first_to_check(c, t, i, j) ==> probe_from(c, t, i).stage is Probing && probe_from(
            c,
            t,
            i,
        ).pos == j && probe_from(c, t, i).queue == c.queue,
        (forall|k: int|
            i <= k < c.queue.len() ==> t.pool.contains(#[trigger] c.queue[k]) || c.queue[k]
                == c.local) ==> probe_from(c, t, i) == watch_from(c, t, 0),
    decreases c.queue.len() - i,
{
    if i < c.queue.len() && exempt(c, t, i) {
        law_no_peer_goes_unchecked(c, t, i + 1, j);
        assert(next_peer(c, t, i) == next_peer(c, t, i + 1));
        if first_to_check(c, t, i, j) {
            assert(j != i);
        }
    } else if i < c.queue.len() {
        if first_to_check(c, t, i, j) && i < j {
            assert(t.pool.contains(c.queue[i]) || c.queue[i] == c.local);
        }
        if forall|k: int|
            i <= k < c.queue.len() ==> t.pool.contains(#[trigger] c.queue[k]) || c.queue[k]
                == c.local {
            assert(t.pool.contains(c.queue[i]) || c.queue[i] == c.local);
        }
    }
}

/// A check takes all the keys that are listed, from the first on; where they cannot be listed it is
/// over.
pub proof fn law_all_listed_keys_are_taken(
    c: CheckView,
    t: TablesView,
    peers: Map<Text, PeerView>,
    keys: Seq<Text>,
)
    requires
        c.stage is Listing,
    ensures
        relay_step(c, t, peers, Told::List(Some(keys))) == (
            probe_from(CheckView { queue: keys, ..c }, t, 0),
            t,
        ),
        relay_step(c, t, peers, Told::List(None)).0.stage is Finished,
        relay_step(c, t, peers, Told::List(None)).1 == t,
{
}

/// Every relay is watched in its turn, and the check is over only after the last one.
pub proof fn law_every_relay_is_watched(c: CheckView, t: TablesView, at: int)
    requires
        0 <= at <= t.pool.len() <= usize::MAX,
    ensures
        at < t.pool.len() ==> watch_from(c, t, at).stage == (Stage::Watching { at: at as usize }),
        at == t.pool.len() ==> watch_from(c, t, at).stage is Finished,
{
}

/// A relay that is alive is left as it is, and the next one is watched. Of one that failed, all the
/// peers behind it have to move.
pub proof fn law_watched_relay(
    c: CheckView,
    t: TablesView,
    peers: Map<Text, PeerView>,
    at: usize,
    p: Text,
)
    requires
        check_wf(c, t, peers),
        c.stage == (Stage::Watching { at }),
        order_fits(t),
        t.pool.len() <= usize::MAX,
    ensures
        relay_step(c, t, peers, Told::Flag(true)) == (watch_from(c, t, at + 1), t),
        relay_step(c, t, peers, Told::Flag(false)).0.moving.contains(p) <==> t.assigned.contains_key(
            p,
        ) && t.assigned[p] == t.pool[at as int],
{
    let relay = t.pool[at as int];
    let f = crate::relay::stands_behind(t, relay);
    let m = behind(t, relay);
    lemma_filter_holds(t.order, f, p);
    assert(t.order.contains(p) <==> t.assigned.contains_key(p));
    assert(relay_step(c, t, peers, Told::Flag(false)).0.moving == m);
}

proof fn lemma_filter_holds(s: Seq<Text>, f: spec_fn(Text) -> bool, x: Text)
    ensures
        s.filter(f).contains(x) <==> s.contains(x) && f(x),
{
    if s.filter(f).contains(x) {
        let i = choose|i: int| 0 <= i < s.filter(f).len() && s.filter(f)[i] == x;
        s.lemma_filter_pred(f, i);
        s.lemma_filter_contains_rev(f, x);
    }
    if s.contains(x) && f(x) {
        s.lemma_filter_contains(f, choose|i: int| 0 <= i < s.len() && s[i] == x);
    }
}

// ---------- Handing a peer over ----------

proof fn lemma_next_is_here(pool: Seq<Text>, i: int)
    requires
        0 <= i <= pool.len(),
    ensures
        next_relay(pool, None, i) == i,
{
}

/// The search for a relay, from the `i`-th on, ends with one that is alive.
proof fn lemma_choosing(
    c: CheckView,
    t: TablesView,
    peers: Map<Text, PeerView>,
    alive: Set<Text>,
    best: Option<usize>,
    i: int,
    w: int,
) -> (r: (nat, usize))
    requires
        t.pool.len() <= usize::MAX,
        0 <= i <= t.pool.len(),
        peers.contains_key(c.queue[c.pos as int]),
        peers[c.queue[c.pos as int]].allowed_ips is Some,
        peers[c.queue[c.pos as int]].allowed_ips->0.len() > 0,
        best is Some ==> best->0 < t.pool.len() && alive.contains(t.pool[best->0 as int]),
        best is None ==> i <= w < t.pool.len() && alive.contains(t.pool[w]),
    ensures
        r.1 < t.pool.len(),
        alive.contains(t.pool[r.1 as int]),
        smooth_run(choose_from(c, t, peers, best, i), t, peers, alive, r.0) == (
            CheckView { stage: Stage::Attaching { relay: r.1 }, ..c },
            t,
        ),
    decreases t.pool.len() - i,
{
    lemma_next_is_here(t.pool, i);
    if i < t.pool.len() {
        let next = i as usize;
        let d = CheckView { stage: Stage::Choosing { next, best }, ..c };
        let told = reply(relay_ask(d, t, peers), alive);
        let best_now = if told == Told::Flag(true) {
            better(t, best, next)
        } else {
            best
        };
        let r = lemma_choosing(c, t, peers, alive, best_now, i + 1, w);
        assert(relay_step(d, t, peers, told) == (choose_from(c, t, peers, best_now, i + 1), t));
        assert(smooth_run(d, t, peers, alive, r.0 + 1) == smooth_run(
            choose_from(c, t, peers, best_now, i + 1),
            t,
            peers,
            alive,
            r.0,
        ));
        (r.0 + 1, r.1)
    } else {
        (0, best->0)
    }
}

proof fn lemma_runs_add(
    c: CheckView,
    t: TablesView,
    peers: Map<Text, PeerView>,
    alive: Set<Text>,
    m: nat,
    n: nat,
)
    ensures
        smooth_run(c, t, peers, alive, m + n) == smooth_run(
            smooth_run(c, t, peers, alive, m).0,
            smooth_run(c, t, peers, alive, m).1,
            peers,
            alive,
            n,
        ),
    decreases m,
{
    if m > 0 {
        let (d, u) = relay_step(c, t, peers, reply(relay_ask(c, t, peers), alive));
        lemma_runs_add(d, u, peers, alive, (m - 1) as nat, n);
        assert((m + n - 1) as nat == (m - 1) as nat + n);
    }
}

/// A peer that is silent for the second time in a row is handed to a relay, where one is alive and
/// every change succeeds: after some steps, whose number is returned, all its addresses were put on
/// a living relay of the pool, the peer was taken off the interface, it stands behind that relay,
/// which bears one peer more, its failures are forgotten, and the check goes on with the next peer.
pub proof fn law_silent_peer_is_handed_over(
    c: CheckView,
    t: TablesView,
    peers: Map<Text, PeerView>,
    alive: Set<Text>,
    w: int,
) -> (r: (nat, Text))
    requires
        check_wf(c, t, peers),
        c.stage is Probing,
        t.pool.len() <= usize::MAX,
        !t.assigned.contains_key(c.queue[c.pos as int]),
        1 <= count(t.fails, c.queue[c.pos as int]) < u32::MAX,
        peers.contains_key(c.queue[c.pos as int]),
        peers[c.queue[c.pos as int]].allowed_ips is Some,
        peers[c.queue[c.pos as int]].allowed_ips->0.len() > 0,
        !alive.contains(c.queue[c.pos as int]),
        0 <= w < t.pool.len(),
        alive.contains(t.pool[w]),
        forall|k: Text| count(t.load, k) < u32::MAX,
    ensures
        ({
            let p = c.queue[c.pos as int];
            let relay = r.1;
            let n = r.0;
            let (d, u) = smooth_run(c, t, peers, alive, n + 3);
            let put = smooth_run(c, t, peers, alive, n);
            let off = smooth_run(c, t, peers, alive, n + 2);
            &&& alive.contains(relay)
            &&& t.pool.contains(relay)
            &&& relay_ask(put.0, put.1, peers) == Ask::AddIps {
                pubkey: relay,
                ips: peers[p].allowed_ips->0,
            }
            &&& relay_ask(off.0, off.1, peers) == Ask::RemovePeer { pubkey: p }
            &&& u.assigned == t.assigned.insert(p, relay)
            &&& count(u.load, relay) == count(t.load, relay) + 1
            &&& count(u.fails, p) == 0
            &&& d == probe_from(d, u, c.pos + 1)
        }),
{
    let p = c.queue[c.pos as int];
    let (c1, t1) = relay_step(c, t, peers, Told::Flag(false));
    assert(reply(relay_ask(c, t, peers), alive) == Told::Flag(false));
    assert(c1 == choose_from(c, t1, peers, None, 0));
    let (n, relay) = lemma_choosing(c, t1, peers, alive, None, 0, w);
    let a = CheckView { stage: Stage::Attaching { relay }, ..c };
    let b = CheckView { stage: Stage::Confirming { relay }, ..c };
    let e = CheckView { stage: Stage::Detaching { relay }, ..c };
    let name = t.pool[relay as int];
    assert(smooth_run(c, t, peers, alive, n + 1) == smooth_run(c1, t1, peers, alive, n));
    assert(relay_step(a, t1, peers, reply(relay_ask(a, t1, peers), alive)) == (b, t1));
    assert(relay_step(b, t1, peers, reply(relay_ask(b, t1, peers), alive)) == (e, t1));
    let (f, u) = relay_step(e, t1, peers, reply(relay_ask(e, t1, peers), alive));
    assert(f == probe_from(e, u, c.pos + 1));
    reveal_with_fuel(smooth_run, 4);
    assert(smooth_run(a, t1, peers, alive, 2) == (e, t1));
    assert(smooth_run(a, t1, peers, alive, 3) == (f, u));
    lemma_runs_add(c, t, peers, alive, n + 1, 2);
    lemma_runs_add(c, t, peers, alive, n + 1, 3);
    lemma_probe_again(e, u, c.pos + 1);
    assert(u.assigned =~= t.assigned.insert(p, name));
    assert(count(t.load, name) < u32::MAX);
    (n + 1, name)
}

proof fn lemma_probe_again(c: CheckView, t: TablesView, i: int)
    ensures
        probe_from(probe_from(c, t, i), t, i) == probe_from(c, t, i),
{
    let d = probe_from(c, t, i);
    lemma_next_same(c, d, t, i);
}

proof fn lemma_next_same(c: CheckView, d: CheckView, t: TablesView, i: int)
    requires
        c.queue == d.queue,
        c.local == d.local,
    ensures
        next_peer(c, t, i) == next_peer(d, t, i),
    decreases c.queue.len() - i,
{
    if i < c.queue.len() && exempt(c, t, i) {
        lemma_next_same(c, d, t, i + 1);
    }
}

/// Without a relay that is alive, or without addresses, a silent peer stays where it is: once all
/// relays were asked for, the check goes on with the next peer.
pub proof fn law_no_relay_no_handover(
    c: CheckView,
    t: TablesView,
    peers: Map<Text, PeerView>,
    best: Option<usize>,
)
    ensures
        ({
            let p = c.queue[c.pos as int];
            let none = !peers.contains_key(p) || peers[p].allowed_ips is None
                || peers[p].allowed_ips->0.len() == 0;
            best is None || none ==> choose_from(c, t, peers, best, t.pool.len() as int)
                == probe_from(c, t, c.pos + 1)
        }),
{
}

/// A peer that was taken off the interface stands behind the relay that has its addresses: that
/// relay bears one peer more, no other one does, and the peer's failures are forgotten. Where
/// anything on the way fails, nothing changes in the tables.
pub proof fn law_handover_is_entered(
    c: CheckView,
    t: TablesView,
    peers: Map<Text, PeerView>,
    relay: usize,
    other: Text,
)
    requires
        check_wf(c, t, peers),
        count(t.load, t.pool[relay as int]) < u32::MAX,
    ensures
        c.stage == (Stage::Detaching { relay }) ==> {
            let p = c.queue[c.pos as int];
            let name = t.pool[relay as int];
            let u = relay_step(c, t, peers, Told::Flag(true)).1;
            &&& u.assigned == t.assigned.insert(p, name)
            &&& count(u.load, name) == count(t.load, name) + 1
            &&& other != name ==> count(u.load, other) == count(t.load, other)
            &&& count(u.fails, p) == 0
            &&& other != p ==> count(u.fails, other) == count(t.fails, other)
            &&& u.pool == t.pool
        },
        c.stage == (Stage::Attaching { relay }) && !t.assigned.contains_key(c.queue[c.pos as int])
            ==> {
            let (d, u) = relay_step(c, t, peers, Told::Flag(true));
            &&& u == t
            &&& d == (CheckView { stage: Stage::Confirming { relay }, ..c })
            &&& relay_step(c, t, peers, Told::Flag(false)) == (probe_from(c, t, c.pos + 1), t)
        },
        c.stage == (Stage::Confirming { relay }) ==> relay_step(c, t, peers, Told::Flag(true)) == (
            CheckView { stage: Stage::Detaching { relay }, ..c },
            t,
        ),
        c.stage == (Stage::Undoing { relay }) ==> relay_step(c, t, peers, Told::Flag(true)) == (
            probe_from(c, t, c.pos + 1),
            t,
        ) && relay_step(c, t, peers, Told::Flag(false)) == (probe_from(c, t, c.pos + 1), t),
{
}

// ---------- Moving on ----------

/// Whether a check went on from the `k`-th peer of the failed relay at `at` to the next one, which
/// has to be released, or after the last one to the next relay, the failed one bearing nothing.
pub open spec fn moved_on(
    c: CheckView,
    t: TablesView,
    at: usize,
    k: usize,
    after: (CheckView, TablesView),
) -> bool {
    let (d, u) = after;
    &&& u.assigned == t.assigned && u.order == t.order && u.fails == t.fails && u.pool == t.pool
    &&& d.moving == c.moving && d.queue == c.queue && d.local == c.local
    &&& if k + 1 < c.moving.len() {
        u.load == t.load && d.stage == (Stage::Releasing { at, k: (k + 1) as usize })
    } else {
        &&& u.load == t.load.remove(t.pool[at as int])
        &&& at + 1 < t.pool.len() ==> d.stage == (Stage::Watching { at: (at + 1) as usize })
        &&& at + 1 == t.pool.len() ==> d.stage is Finished
    }
}

/// A peer of a failed relay for which no other one is alive, or which the other one does not take,
/// stands behind the failed one as before, and the next peer is dealt with.
pub proof fn law_unmoved_peer_stays(
    c: CheckView,
    t: TablesView,
    peers: Map<Text, PeerView>,
    told: Told,
    at: usize,
    k: usize,
    n: usize,
)
    requires
        check_wf(c, t, peers),
        t.pool.len() <= usize::MAX,
        c.moving.len() <= usize::MAX,
    ensures
        c.stage == (Stage::Reattaching { at, k, target: n }) && told != Told::Flag(true)
            ==> moved_on(c, t, at, k, relay_step(c, t, peers, told)),
        c.stage == (Stage::Unhoming { at, k, target: n }) ==> moved_on(
            c,
            t,
            at,
            k,
            relay_step(c, t, peers, told),
        ),
        c.stage == (Stage::Rehoming { at, k, next: n, best: None }) && told != Told::Flag(true) && (
        forall|j: int| n < j < t.pool.len() ==> #[trigger] t.pool[j] == t.pool[at as int])
            ==> moved_on(c, t, at, k, relay_step(c, t, peers, told)),
        c.stage == (Stage::Releasing { at, k }) && (forall|j: int|
            0 <= j < t.pool.len() ==> #[trigger] t.pool[j] == t.pool[at as int]) ==> moved_on(
            c,
            t,
            at,
            k,
            relay_step(c, t, peers, told),
        ),
{
    if c.stage == (Stage::Rehoming { at, k, next: n, best: None }) && (forall|j: int|
        n < j < t.pool.len() ==> #[trigger] t.pool[j] == t.pool[at as int]) {
        lemma_no_other(t.pool, at as int, n + 1);
    }
    if c.stage == (Stage::Releasing { at, k }) && (forall|j: int|
        0 <= j < t.pool.len() ==> #[trigger] t.pool[j] == t.pool[at as int]) {
        lemma_no_other(t.pool, at as int, 0);
    }
}

proof fn lemma_no_other(pool: Seq<Text>, at: int, i: int)
    requires
        0 <= i <= pool.len(),
        forall|j: int| i <= j < pool.len() ==> #[trigger] pool[j] == pool[at],
    ensures
        next_relay(pool, Some(pool[at]), i) == pool.len(),
    decreases pool.len() - i,
{
    if i < pool.len() {
        assert(pool[i] == pool[at]);
        lemma_no_other(pool, at, i + 1);
    }
}

/// The relay on which the search for another one has settled so far.
pub open spec fn settled_on(c: CheckView) -> Option<usize> {
    match c.stage {
        Stage::Rehoming { best, .. } => best,
        Stage::Reattaching { target, .. } => Some(target),
        _ => None,
    }
}

/// For a peer of a failed relay the other relays are asked for in their turn. Of two that are alive
/// the one with the lighter load is taken, of equal ones the earlier; one that is not alive is
/// passed over. The failed one is not asked for.
pub proof fn law_lighter_relay_takes_over(
    c: CheckView,
    t: TablesView,
    peers: Map<Text, PeerView>,
    at: usize,
    k: usize,
    next: usize,
    best: Option<usize>,
    j: int,
)
    requires
        check_wf(c, t, peers),
        t.pool.len() <= usize::MAX,
        c.stage == (Stage::Rehoming { at, k, next, best }),
    ensures
        ({
            let (d, u) = relay_step(c, t, peers, Told::Flag(true));
            let here = count(t.load, t.pool[next as int]);
            &&& best is None ==> settled_on(d) == Some(next)
            &&& best is Some && here < count(t.load, t.pool[best->0 as int]) ==> settled_on(d)
                == Some(next)
            &&& best is Some && here >= count(t.load, t.pool[best->0 as int]) ==> settled_on(d)
                == best
            &&& u == t
            &&& d.moving == c.moving
        }),
        best is Some ==> settled_on(relay_step(c, t, peers, Told::Flag(false)).0) == best,
        next < j < t.pool.len() && t.pool[j] != t.pool[at as int] && (forall|i: int|
            next < i < j ==> #[trigger] t.pool[i] == t.pool[at as int]) ==> {
            let yes = relay_step(c, t, peers, Told::Flag(true));
            let no = relay_step(c, t, peers, Told::Flag(false));
            &&& relay_ask(yes.0, yes.1, peers) == (Ask::Recent { pubkey: t.pool[j], max_age: 180 })
            &&& relay_ask(no.0, no.1, peers) == (Ask::Recent { pubkey: t.pool[j], max_age: 180 })
        },
{
    if next < j < t.pool.len() && t.pool[j] != t.pool[at as int] && (forall|i: int|
        next < i < j ==> #[trigger] t.pool[i] == t.pool[at as int]) {
        lemma_next_other(t.pool, at as int, next + 1, j);
    }
}

proof fn lemma_next_other(pool: Seq<Text>, at: int, i: int, j: int)
    requires
        0 <= i <= j < pool.len(),
        pool[j] != pool[at],
        forall|k: int| i <= k < j ==> #[trigger] pool[k] == pool[at],
    ensures
        next_relay(pool, Some(pool[at]), i) == j,
    decreases j - i,
{
    if i < j {
        assert(pool[i] == pool[at]);
        lemma_next_other(pool, at, i + 1, j);
    }
}

/// A relay that failed is left by the first peer behind it, before another relay is looked for; the
/// other relays are asked for from the first on.
pub proof fn law_first_of_those_behind(
    c: CheckView,
    t: TablesView,
    peers: Map<Text, PeerView>,
    told: Told,
    at: usize,
    k: usize,
    j: int,
)
    requires
        check_wf(c, t, peers),
        t.pool.len() <= usize::MAX,
    ensures
        c.stage == (Stage::Watching { at }) && told != Told::Flag(true) ==> {
            let (d, u) = relay_step(c, t, peers, told);
            &&& u.assigned == t.assigned && u.order == t.order && u.fails == t.fails
            &&& d.moving.len() > 0 ==> u == t && d.stage == (Stage::Releasing { at, k: 0 })
            &&& d.moving.len() == 0 ==> u.load == t.load.remove(t.pool[at as int]) && d
                == watch_from(d, t, at + 1)
        },
        c.stage == (Stage::Releasing { at, k }) && 0 <= j < t.pool.len() && t.pool[j]
            != t.pool[at as int] && (forall|i: int|
            0 <= i < j ==> #[trigger] t.pool[i] == t.pool[at as int]) ==> {
            let (d, u) = relay_step(c, t, peers, told);
            &&& u == t
            &&& d.stage == (Stage::Rehoming { at, k, next: j as usize, best: None })
        },
{
    if c.stage == (Stage::Releasing { at, k }) && 0 <= j < t.pool.len() && t.pool[j]
        != t.pool[at as int] && (forall|i: int|
        0 <= i < j ==> #[trigger] t.pool[i] == t.pool[at as int]) {
        lemma_next_other(t.pool, at as int, 0, j);
    }
}

// ---------- What stays ----------

/// Whether a stage is about the peer at hand.
pub open spec fn about_a_peer(s: Stage) -> bool {
    s is Probing || s is Choosing || s is Attaching || s is Confirming || s is Detaching
        || s is Undoing || s is Withdrawing || s is Restoring
}

/// No answer changes the pool, whose node it is, or the keys to check. Only the peer at hand has
/// its failures changed. A peer changes its relay only where it is heard of, was taken off the
/// interface, or moves. Only a relay that is given a peer, that gives one back or that failed has
/// its load changed.
pub proof fn law_nothing_else_changes(
    c: CheckView,
    t: TablesView,
    peers: Map<Text, PeerView>,
    told: Told,
    other: Text,
)
    requires
        check_wf(c, t, peers),
    ensures
        ({
            let (d, u) = relay_step(c, t, peers, told);
            &&& u.pool == t.pool
            &&& d.local == c.local
            &&& !(c.stage is Listing) ==> d.queue == c.queue
            &&& about_a_peer(c.stage) && other != c.queue[c.pos as int] ==> count(u.fails, other)
                == count(t.fails, other)
            &&& !about_a_peer(c.stage) ==> u.fails == t.fails
            &&& !(c.stage is Probing) && !(c.stage is Detaching) && !(c.stage is Reconfirming)
                ==> u.assigned == t.assigned
            &&& told != Told::Flag(true) ==> u.assigned == t.assigned
        }),
        ({
            let u = relay_step(c, t, peers, told).1;
            match c.stage {
                Stage::Detaching { relay } => other != t.pool[relay as int] ==> count(u.load, other)
                    == count(t.load, other),
                Stage::Restoring => other != c.former ==> count(u.load, other) == count(
                    t.load,
                    other,
                ),
                Stage::Reconfirming { at, target, .. } => other != t.pool[target as int] && other
                    != t.pool[at as int] ==> count(u.load, other) == count(t.load, other),
                Stage::Watching { at }
                | Stage::Releasing { at, .. }
                | Stage::Rehoming { at, .. }
                | Stage::Reattaching { at, .. }
                | Stage::Unhoming { at, .. } => other != t.pool[at as int] ==> count(u.load, other)
                    == count(t.load, other),
                _ => u.load == t.load,
            }
        }),
{
}

// ---------- Coming back ----------

/// A peer that comes back is put on the interface with everything that the last snapshot says of
/// it: its endpoint, all its addresses, its keepalive interval, and its preshared key, of which an
/// absent one is left alone and null asks for it to be cleared.
pub proof fn law_peer_comes_back_as_the_snapshot_says(
    c: CheckView,
    t: TablesView,
    peers: Map<Text, PeerView>,
    told: Told,
)
    requires
        check_wf(c, t, peers),
        c.stage is Withdrawing,
        !t.assigned.contains_key(c.queue[c.pos as int]),
    ensures
        ({
            let p = c.queue[c.pos as int];
            let (d, u) = relay_step(c, t, peers, told);
            if peers.contains_key(p) {
                let info = peers[p];
                &&& u == t
                &&& relay_ask(d, u, peers) == Ask::UpdatePeer(
                    UpdateView {
                        pubkey: p,
                        endpoint: info.endpoint,
                        allowed_ips: info.allowed_ips,
                        persistent_keepalive: match info.persistent_keepalive {
                            Some(k) => Some(k as u64),
                            None => None,
                        },
                        preshared_key: match info.preshared_key {
                            PskView::Missing => None,
                            PskView::Null => Some(Seq::<char>::empty()),
                            PskView::Key(k) => Some(k),
                        },
                    },
                )
            } else {
                &&& d == probe_from(c, u, c.pos + 1)
                &&& u.load == t.load && u.assigned == t.assigned
                &&& count(u.fails, p) == 0
            }
        }),
{
}

/// Once a peer is back on the interface the relay that it stood behind bears one peer less, and the
/// peer's failures are forgotten; where it could not be put back, the relay's load stays. The check
/// goes on with the next peer.
pub proof fn law_relay_is_relieved(
    c: CheckView,
    t: TablesView,
    peers: Map<Text, PeerView>,
    other: Text,
)
    requires
        check_wf(c, t, peers),
        c.stage is Restoring,
    ensures
        ({
            let p = c.queue[c.pos as int];
            let (d, u) = relay_step(c, t, peers, Told::Flag(true));
            &&& count(t.load, c.former) > 0 ==> count(u.load, c.former) == count(t.load, c.former) - 1
            &&& count(t.load, c.former) == 0 ==> count(u.load, c.former) == 0
            &&& other != c.former ==> count(u.load, other) == count(t.load, other)
            &&& count(u.fails, p) == 0
            &&& u.assigned == t.assigned
            &&& d == probe_from(c, u, c.pos + 1)
        }),
        ({
            let p = c.queue[c.pos as int];
            let (d, u) = relay_step(c, t, peers, Told::Flag(false));
            &&& u.load == t.load
            &&& u.assigned == t.assigned
            &&& count(u.fails, p) == 0
            &&& d == probe_from(c, u, c.pos + 1)
        }),
{
}

/// A peer that is heard of again leaves its relay: it and only it stands behind none.
pub proof fn law_only_the_heard_peer_leaves(
    c: CheckView,
    t: TablesView,
    peers: Map<Text, PeerView>,
)
    requires
        check_wf(c, t, peers),
        c.stage is Probing,
        t.assigned.contains_key(c.queue[c.pos as int]),
    ensures
        ({
            let p = c.queue[c.pos as int];
            let (d, u) = relay_step(c, t, peers, Told::Flag(true));
            &&& u.assigned == t.assigned.remove(p)
            &&& u.load == t.load && u.fails == t.fails && u.pool == t.pool
            &&& d.former == t.assigned[p]
            &&& d.pos == c.pos && d.queue == c.queue
        }),
{
}

/// A peer that leaves the network leaves its relay, which bears one peer less, and its failures are
/// forgotten; nobody else is concerned. One that stands behind no relay leaves nothing behind.
pub proof fn law_peer_is_forgotten(t: TablesView, p: Text, other: Text)
    ensures
        ({
            let u = forgotten(t, p);
            &&& u.pool == t.pool
            &&& t.assigned.contains_key(p) ==> {
                let relay = t.assigned[p];
                &&& u.assigned == t.assigned.remove(p)
                &&& count(t.load, relay) > 0 ==> count(u.load, relay) == count(t.load, relay) - 1
                &&& count(t.load, relay) == 0 ==> count(u.load, relay) == 0
                &&& other != relay ==> count(u.load, other) == count(t.load, other)
                &&& !u.fails.contains_key(p)
                &&& other != p ==> count(u.fails, other) == count(t.fails, other)
            }
            &&& !t.assigned.contains_key(p) ==> u == t
        }),
{
}

/// A relay that is given a peer bears one more, and nothing else changes.
pub proof fn law_bound_peer(t: TablesView, p: Text, relay: Text, other: Text)
    requires
        count(t.load, relay) < u32::MAX,
    ensures
        ({
            let u = bound(t, p, relay);
            &&& u.assigned == t.assigned.insert(p, relay)
            &&& count(u.load, relay) == count(t.load, relay) + 1
            &&& other != relay ==> count(u.load, other) == count(t.load, other)
            &&& u.fails == t.fails && u.pool == t.pool
            &&& order_fits(t) ==> order_fits(u)
        }),
{
    let u = bound(t, p, relay);
    if order_fits(t) && !t.assigned.contains_key(p) {
        assert(!t.order.contains(p));
        assert forall|k: Text| #[trigger] u.order.contains(k) <==> u.assigned.contains_key(k) by {
            if u.order.contains(k) {
                let i = choose|i: int| 0 <= i < u.order.len() && u.order[i] == k;
                if i < t.order.len() {
                    assert(t.order[i] == k);
                    assert(t.order.contains(k));
                }
            }
            if u.assigned.contains_key(k) {
                if k == p {
                    assert(u.order[t.order.len() as int] == p);
                } else {
                    assert(t.order.contains(k));
                    let i = choose|i: int| 0 <= i < t.order.len() && t.order[i] == k;
                    assert(u.order[i] == k);
                }
            }
        }
        assert(u.order.no_duplicates()) by {
            assert forall|i: int, j: int|
                0 <= i < u.order.len() && 0 <= j < u.order.len() && i != j implies u.order[i]
                != u.order[j] by {
                if i < t.order.len() {
                    assert(t.order.contains(t.order[i]));
                }
                if j < t.order.len() {
                    assert(t.order.contains(t.order[j]));
                }
            }
        }
    } else if order_fits(t) {
        assert forall|k: Text| #[trigger] u.order.contains(k) <==> u.assigned.contains_key(k) by {
            assert(t.order.contains(k) <==> t.assigned.contains_key(k));
        }
    }
}

// ---------- The pool ----------

/// The peers meant as relays are exactly those of the snapshot among whose addresses one of the two
/// relay networks is.
pub proof fn law_candidates(
    keys: Seq<Text>,
    peers: Map<Text, PeerView>,
    cidr_v4: Text,
    cidr_v6: Text,
    k: Text,
)
    ensures
        candidates(keys, peers, cidr_v4, cidr_v6).contains(k) <==> keys.contains(k)
            && peers[k].allowed_ips is Some && (peers[k].allowed_ips->0.contains(cidr_v4)
            || peers[k].allowed_ips->0.contains(cidr_v6)),
        candidates(keys, peers, cidr_v4, cidr_v6).len() <= keys.len(),
{
    let f = |k: Text| is_candidate(peers[k], cidr_v4, cidr_v6);
    lemma_filter_holds(keys, f, k);
    keys.lemma_filter_len(f);
}

/// The pool is the candidates that were found alive, each as often as it was found, in order.
pub proof fn law_pool_is_the_living(all: Seq<Text>, alive: Seq<bool>, x: Text)
    requires
        all.len() == alive.len(),
    ensures
        sorted(living(all, alive)).contains(x) <==> exists|i: int|
            0 <= i < all.len() && #[trigger] alive[i] && all[i] == x,
        forall|i: int, j: int|
            0 <= i < j < sorted(living(all, alive)).len() ==> text_le(
                #[trigger] sorted(living(all, alive))[i],
                #[trigger] sorted(living(all, alive))[j],
            ),
{
    broadcast use vstd::seq_lib::group_to_multiset_ensures;

    let l = living(all, alive);
    law_sorted(l);
    lemma_living(all, alive, x);
    assert(sorted(l).contains(x) <==> sorted(l).to_multiset().count(x) > 0);
    assert(l.contains(x) <==> l.to_multiset().count(x) > 0);
}

proof fn lemma_living(all: Seq<Text>, alive: Seq<bool>, x: Text)
    requires
        all.len() == alive.len(),
    ensures
        living(all, alive).contains(x) <==> exists|i: int|
            0 <= i < all.len() && #[trigger] alive[i] && all[i] == x,
    decreases all.len(),
{
    if all.len() > 0 {
        let a = all.drop_last();
        let b = alive.drop_last();
        lemma_living(a, b, x);
        let d = living(all, alive);
        let front = living(a, b);
        if alive.last() {
            assert(d.drop_last() =~= front);
            crate::output_laws::lemma_contains_last(d, x);
        }
        if d.contains(x) {
            if front.contains(x) {
                let i = choose|i: int| 0 <= i < a.len() && #[trigger] b[i] && a[i] == x;
                assert(alive[i] && all[i] == x);
            } else {
                assert(alive[all.len() - 1] && all[all.len() - 1] == x);
            }
        }
        if exists|i: int| 0 <= i < all.len() && #[trigger] alive[i] && all[i] == x {
            let i = choose|i: int| 0 <= i < all.len() && #[trigger] alive[i] && all[i] == x;
            if i < a.len() {
                assert(b[i] && a[i] == x);
            }
        }
    }
}

/// The order of texts is that of their first difference; a text comes before those that it begins.
pub proof fn law_order_of_texts(a: Text, b: Text, n: int)
    requires
        0 <= n <= a.len(),
        n <= b.len(),
        forall|i: int| 0 <= i < n ==> a[i] == b[i],
    ensures
        n == a.len() ==> text_le(a, b),
        n == b.len() && n < a.len() ==> !text_le(a, b),
        n < a.len() && n < b.len() && a[n] != b[n] ==> (text_le(a, b) <==> a[n] < b[n]),
    decreases n,
{
    if n > 0 {
        let x = a.drop_first();
        let y = b.drop_first();
        assert(a[0] == b[0]);
        assert forall|i: int| 0 <= i < n - 1 implies x[i] == y[i] by {
            assert(a[i + 1] == b[i + 1]);
        }
        law_order_of_texts(x, y, n - 1);
        if n < a.len() {
            assert(x[n - 1] == a[n]);
        }
        if n < b.len() {
            assert(y[n - 1] == b[n]);
        }
    }
}

} // verus!
