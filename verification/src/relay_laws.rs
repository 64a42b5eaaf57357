//! What holds of every check of peers and relays, whatever is answered on the way.
use vstd::prelude::*;

use crate::model::{original_ips, Ask, PeerView, Told};
use crate::relay::{
    behind, better, bound, check_wf, count, exempt, move_from, next_peer, next_relay, probe_from,
    rehome_from, relay_ask, relay_step, stands_behind, watch_from, CheckView, RelayTables, Stage,
    TablesView, RELAY_FAIL_COUNT_MAX, RELAY_FAIL_THRESHOLD,
};
use crate::text::Text;

verus! {

/// The peer at hand of a check may be handed to a relay: it failed often enough, stands behind no
/// relay, and is neither a relay nor this node.
pub open spec fn may_bind(c: CheckView, t: TablesView) -> bool {
    &&& count(t.fails, c.queue[c.pos as int]) >= RELAY_FAIL_COUNT_MAX
    &&& !t.assigned.contains_key(c.queue[c.pos as int])
    &&& !exempt(c, t, c.pos as int)
}

/// The peers that still have to move off the failed relay at `at`, from the `k`-th on, stand behind
/// it, each once.
pub open spec fn waiting(c: CheckView, t: TablesView, at: usize, k: int) -> bool {
    &&& c.moving.no_duplicates()
    &&& forall|i: int|
        k <= i < c.moving.len() ==> {
            &&& t.assigned.contains_key(#[trigger] c.moving[i])
            &&& t.assigned[c.moving[i]] == t.pool[at as int]
        }
}

/// What holds of a check and the tables between any two steps.
pub open spec fn on_course(c: CheckView, t: TablesView) -> bool {
    match c.stage {
        Stage::Probing | Stage::Withdrawing | Stage::Restoring => !exempt(c, t, c.pos as int),
        Stage::Choosing { .. }
        | Stage::Attaching { .. }
        | Stage::Confirming { .. }
        | Stage::Detaching { .. }
        | Stage::Undoing { .. } => may_bind(c, t),
        Stage::Releasing { at, k } => waiting(c, t, at, k as int),
        Stage::Rehoming { at, k, next, best } => {
            &&& waiting(c, t, at, k as int)
            &&& t.pool[next as int] != t.pool[at as int]
            &&& best is Some ==> t.pool[best->0 as int] != t.pool[at as int]
        },
        Stage::Reattaching { at, k, target }
        | Stage::Reconfirming { at, k, target }
        | Stage::Unhoming { at, k, target } => {
            &&& waiting(c, t, at, k as int)
            &&& t.pool[target as int] != t.pool[at as int]
        },
        Stage::Listing | Stage::Watching { .. } | Stage::Finished => true,
    }
}

/// The relayed peers that are walked are those that the tables hold, each once.
pub open spec fn order_fits(t: TablesView) -> bool {
    &&& t.order.no_duplicates()
    &&& forall|k: Text| #[trigger] t.order.contains(k) <==> t.assigned.contains_key(k)
}

/// The tables of a node fit in this way.
pub proof fn law_tables_fit(t: &RelayTables)
    requires
        t.wf(),
    ensures
        order_fits(t@),
{
    t.assigned.lemma_keys();
}

proof fn lemma_next_not_exempt(c: CheckView, t: TablesView, i: int)
    requires
        0 <= i <= c.queue.len(),
    ensures
        i <= next_peer(c, t, i) <= c.queue.len(),
        next_peer(c, t, i) < c.queue.len() ==> !exempt(c, t, next_peer(c, t, i)),
    decreases c.queue.len() - i,
{
    if i < c.queue.len() && exempt(c, t, i) {
        lemma_next_not_exempt(c, t, i + 1);
    }
}

proof fn lemma_next_relay_bounds(pool: Seq<Text>, except: Option<Text>, i: int)
    requires
        0 <= i <= pool.len(),
    ensures
        i <= next_relay(pool, except, i) <= pool.len(),
        next_relay(pool, except, i) < pool.len() ==> except != Some(
            pool[next_relay(pool, except, i)],
        ),
        forall|j: int|
            i <= j < next_relay(pool, except, i) ==> except == Some(#[trigger] pool[j]),
    decreases pool.len() - i,
{
    if i < pool.len() && except == Some(pool[i]) {
        lemma_next_relay_bounds(pool, except, i + 1);
    }
}

proof fn lemma_probe_on_course(c: CheckView, t: TablesView, i: int)
    requires
        0 <= i <= c.queue.len() <= usize::MAX,
    ensures
        on_course(probe_from(c, t, i), t),
{
    lemma_next_not_exempt(c, t, i);
}

proof fn lemma_filter_keeps_once(s: Seq<Text>, f: spec_fn(Text) -> bool)
    requires
        s.no_duplicates(),
    ensures
        s.filter(f).no_duplicates(),
        forall|x: Text| #[trigger] s.filter(f).contains(x) <==> s.contains(x) && f(x),
    decreases s.len(),
{
    reveal(Seq::filter);
    if s.len() > 0 {
        let front = s.drop_last();
        lemma_filter_keeps_once(front, f);
        assert forall|x: Text| #[trigger] s.filter(f).contains(x) <==> s.contains(x) && f(x) by {
            if s.contains(x) {
                let j = s.index_of(x);
                if j < front.len() {
                    assert(front[j] == x);
                    assert(front.filter(f).contains(x) == f(x));
                    if f(x) {
                        let k = front.filter(f).index_of(x);
                        assert(s.filter(f)[k] == x);
                    }
                } else if f(x) {
                    assert(s.filter(f)[s.filter(f).len() - 1] == x);
                }
            }
            if s.filter(f).contains(x) {
                let k = s.filter(f).index_of(x);
                if k < front.filter(f).len() {
                    assert(front.filter(f)[k] == x);
                    assert(front.filter(f).contains(x));
                    assert(s[front.index_of(x)] == x);
                } else {
                    assert(s[s.len() - 1] == x);
                }
            }
        }
        if f(s.last()) {
            assert(!front.contains(s.last()));
            assert(!front.filter(f).contains(s.last()));
        }
    }
}

proof fn lemma_behind(t: TablesView, relay: Text)
    requires
        order_fits(t),
    ensures
        behind(t, relay).no_duplicates(),
        forall|p: Text| #[trigger]
            behind(t, relay).contains(p) <==> t.assigned.contains_key(p) && t.assigned[p] == relay,
        forall|i: int|
            0 <= i < behind(t, relay).len() ==> {
                &&& t.assigned.contains_key(#[trigger] behind(t, relay)[i])
                &&& t.assigned[behind(t, relay)[i]] == relay
            },
{
    lemma_filter_keeps_once(t.order, stands_behind(t, relay));
    assert forall|i: int| 0 <= i < behind(t, relay).len() implies {
        &&& t.assigned.contains_key(#[trigger] behind(t, relay)[i])
        &&& t.assigned[behind(t, relay)[i]] == relay
    } by {
        assert(behind(t, relay).contains(behind(t, relay)[i]));
    }
}

/// No answer takes a check off its course.
pub proof fn law_relay_on_course(
    c: CheckView,
    t: TablesView,
    peers: Map<Text, PeerView>,
    told: Told,
)
    requires
        check_wf(c, t, peers),
        on_course(c, t),
        order_fits(t),
        c.queue.len() <= usize::MAX,
        t.pool.len() <= usize::MAX,
        c.moving.len() <= usize::MAX,
        relay_step(c, t, peers, told).0.queue.len() <= usize::MAX,
    ensures
        on_course(relay_step(c, t, peers, told).0, relay_step(c, t, peers, told).1),
        relay_step(c, t, peers, told).1.pool == t.pool,
{
    let (d, u) = relay_step(c, t, peers, told);
    match c.stage {
        Stage::Listing => {
            if let Told::List(Some(keys)) = told {
                lemma_next_not_exempt(CheckView { queue: keys, ..c }, t, 0);
                lemma_probe_on_course(CheckView { queue: keys, ..c }, t, 0);
            }
        },
        Stage::Probing
        | Stage::Choosing { .. }
        | Stage::Attaching { .. }
        | Stage::Detaching { .. }
        | Stage::Undoing { .. }
        | Stage::Withdrawing
        | Stage::Restoring => {
            lemma_probe_on_course(c, u, c.pos + 1);
        },
        Stage::Watching { at } => {
            lemma_behind(t, t.pool[at as int]);
        },
        Stage::Releasing { at, .. } => {
            lemma_next_relay_bounds(t.pool, Some(t.pool[at as int]), 0);
        },
        Stage::Rehoming { at, next, .. } => {
            lemma_next_relay_bounds(t.pool, Some(t.pool[at as int]), next + 1);
        },
        _ => {},
    }
}

/// A peer comes to stand behind a relay only after it failed often enough, only behind a relay of
/// the pool, and only once it was taken off the interface; relays and this node never do. A peer
/// that stands behind a relay changes it only where that relay failed, and only for another relay
/// of the pool that was just found alive. No other peer changes its relay in that step.
pub proof fn law_relay_binding(c: CheckView, t: TablesView, peers: Map<Text, PeerView>, told: Told)
    requires
        check_wf(c, t, peers),
        on_course(c, t),
    ensures
        forall|p: Text| #[trigger]
            relay_step(c, t, peers, told).1.assigned.contains_key(p) ==> {
                let u = relay_step(c, t, peers, told).1;
                if !t.assigned.contains_key(p) {
                    &&& relay_ask(c, t, peers) == (Ask::RemovePeer { pubkey: p })
                    &&& told == Told::Flag(true)
                    &&& count(t.fails, p) >= RELAY_FAIL_COUNT_MAX
                    &&& t.pool.contains(u.assigned[p])
                    &&& !t.pool.contains(p)
                    &&& p != c.local
                } else if u.assigned[p] != t.assigned[p] {
                    &&& c.stage matches Stage::Reconfirming { at, k, target }
                    &&& p == c.moving[k as int]
                    &&& t.assigned[p] == t.pool[at as int]
                    &&& u.assigned[p] == t.pool[target as int]
                    &&& relay_ask(c, t, peers) == (Ask::Recent {
                        pubkey: t.pool[target as int],
                        max_age: RELAY_FAIL_THRESHOLD,
                    })
                    &&& told == Told::Flag(true)
                } else {
                    true
                }
            },
{
}

/// A peer whose addresses were put on a relay, and which then was not bound to it, has them taken
/// off that relay again, and the tables are as they were.
pub proof fn law_relay_rollback(
    c: CheckView,
    t: TablesView,
    peers: Map<Text, PeerView>,
    relay: usize,
)
    requires
        check_wf(c, t, peers),
        c.stage == (Stage::Confirming { relay }) || c.stage == (Stage::Detaching { relay }),
    ensures
        relay_step(c, t, peers, Told::Flag(false)).1 == t,
        relay_ask(relay_step(c, t, peers, Told::Flag(false)).0, t, peers) == (Ask::RemoveIps {
            pubkey: t.pool[relay as int],
            ips: original_ips(peers, c.queue[c.pos as int]),
        }),
{
}

/// A peer that is heard of again stands behind no relay afterwards, and the relay it stood behind
/// is asked to give up its addresses.
pub proof fn law_relay_release(c: CheckView, t: TablesView, peers: Map<Text, PeerView>)
    requires
        check_wf(c, t, peers),
        c.stage is Probing,
        t.assigned.contains_key(c.queue[c.pos as int]),
    ensures
        ({
            let peer = c.queue[c.pos as int];
            let (d, u) = relay_step(c, t, peers, Told::Flag(true));
            &&& !u.assigned.contains_key(peer)
            &&& relay_ask(d, u, peers) == (Ask::RemoveIps {
                pubkey: t.assigned[peer],
                ips: original_ips(peers, peer),
            })
        }),
{
}

// ---------- When a relay fails ----------

/// A peer of a failed relay whose addresses were put on another one stands behind that one once it
/// is found alive again: it bears one peer more, it keeps the addresses, and after the last peer
/// the failed relay bears none.
pub proof fn law_peer_moves_to_another_relay(
    c: CheckView,
    t: TablesView,
    peers: Map<Text, PeerView>,
    at: usize,
    k: usize,
    target: usize,
)
    requires
        check_wf(c, t, peers),
        on_course(c, t),
        c.stage == (Stage::Reconfirming { at, k, target }),
        count(t.load, t.pool[target as int]) < u32::MAX,
    ensures
        ({
            let (d, u) = relay_step(c, t, peers, Told::Flag(true));
            let relay = t.pool[target as int];
            &&& u.assigned == t.assigned.insert(c.moving[k as int], relay)
            &&& count(u.load, relay) == count(t.load, relay) + 1
            &&& k + 1 == c.moving.len() ==> !u.load.contains_key(t.pool[at as int])
            &&& u.fails == t.fails
            &&& !(relay_ask(d, u, peers) matches Ask::RemoveIps { pubkey, .. } && pubkey == relay)
        }),
{
}

/// Where the other relay is not found alive again, the addresses are taken off it, and the tables
/// are as they were.
pub proof fn law_failed_move_is_undone(
    c: CheckView,
    t: TablesView,
    peers: Map<Text, PeerView>,
    at: usize,
    k: usize,
    target: usize,
)
    requires
        check_wf(c, t, peers),
        c.stage == (Stage::Reconfirming { at, k, target }),
    ensures
        relay_step(c, t, peers, Told::Flag(false)).1 == t,
        relay_ask(relay_step(c, t, peers, Told::Flag(false)).0, t, peers) == (Ask::RemoveIps {
            pubkey: t.pool[target as int],
            ips: original_ips(peers, c.moving[k as int]),
        }),
{
}

/// What is answered where every change succeeds and just the given relays are alive.
pub open spec fn reply(ask: Ask, alive: Set<Text>) -> Told {
    match ask {
        Ask::Recent { pubkey, .. } => Told::Flag(alive.contains(pubkey)),
        _ => Told::Flag(true),
    }
}

/// Where a check stands after so many steps of that kind.
pub open spec fn smooth_run(
    c: CheckView,
    t: TablesView,
    peers: Map<Text, PeerView>,
    alive: Set<Text>,
    steps: nat,
) -> (CheckView, TablesView)
    decreases steps,
{
    if steps == 0 {
        (c, t)
    } else {
        let (d, u) = relay_step(c, t, peers, reply(relay_ask(c, t, peers), alive));
        smooth_run(d, u, peers, alive, (steps - 1) as nat)
    }
}

proof fn lemma_runs_join(
    c: CheckView,
    t: TablesView,
    peers: Map<Text, PeerView>,
    alive: Set<Text>,
    m: nat,
    n: nat,
)
    ensures
        smooth_run(c, t, peers, alive, m + n) == smooth_run(
            smooth_run(c, t, peers, alive, m).0,
            smooth_run(c, t, peers, alive, m).1,
            peers,
            alive,
            n,
        ),
    decreases m,
{
    if m > 0 {
        let (d, u) = relay_step(c, t, peers, reply(relay_ask(c, t, peers), alive));
        lemma_runs_join(d, u, peers, alive, (m - 1) as nat, n);
        assert((m + n - 1) as nat == (m - 1) as nat + n);
    }
}

/// Another relay than the one at `at` that is alive.
pub open spec fn can_replace(t: TablesView, alive: Set<Text>, at: usize, i: int) -> bool {
    &&& 0 <= i < t.pool.len()
    &&& alive.contains(t.pool[i])
    &&& t.pool[i] != t.pool[at as int]
}

proof fn lemma_rehoming(
    c: CheckView,
    t: TablesView,
    peers: Map<Text, PeerView>,
    alive: Set<Text>,
    at: usize,
    k: usize,
    best: Option<usize>,
    i: int,
    w: int,
) -> (r: (nat, usize))
    requires
        at < t.pool.len() <= usize::MAX,
        k < c.moving.len(),
        0 <= i <= t.pool.len(),
        best is Some ==> can_replace(t, alive, at, best->0 as int),
        best is None ==> i <= w && can_replace(t, alive, at, w),
    ensures
        can_replace(t, alive, at, r.1 as int),
        smooth_run(
            rehome_from(c, t, at, k, best, i).0,
            rehome_from(c, t, at, k, best, i).1,
            peers,
            alive,
            r.0,
        ) == (CheckView { stage: Stage::Reattaching { at, k, target: r.1 }, ..c }, t),
    decreases t.pool.len() - i,
{
    lemma_next_relay_bounds(t.pool, Some(t.pool[at as int]), i);
    let n = next_relay(t.pool, Some(t.pool[at as int]), i);
    if n < t.pool.len() {
        let next = n as usize;
        let d = CheckView { stage: Stage::Rehoming { at, k, next, best }, ..c };
        let told = reply(relay_ask(d, t, peers), alive);
        let better_one = if told == Told::Flag(true) {
            better(t, best, next)
        } else {
            best
        };
        let r = lemma_rehoming(c, t, peers, alive, at, k, better_one, n + 1, w);
        assert(relay_step(d, t, peers, told) == rehome_from(c, t, at, k, better_one, n + 1));
        assert(smooth_run(d, t, peers, alive, r.0 + 1) == smooth_run(
            relay_step(d, t, peers, told).0,
            relay_step(d, t, peers, told).1,
            peers,
            alive,
            r.0,
        ));
        (r.0 + 1, r.1)
    } else {
        if best is None {
            assert(t.pool[w] != t.pool[at as int]);
        }
        (0, best->0)
    }
}

proof fn lemma_peer_moves(
    c: CheckView,
    t: TablesView,
    peers: Map<Text, PeerView>,
    alive: Set<Text>,
    at: usize,
    k: usize,
    w: int,
) -> (r: (nat, usize))
    requires
        at < t.pool.len() <= usize::MAX,
        k < c.moving.len() <= usize::MAX,
        waiting(c, t, at, k as int),
        can_replace(t, alive, at, w),
    ensures
        can_replace(t, alive, at, r.1 as int),
        smooth_run(
            CheckView { stage: Stage::Releasing { at, k }, ..c },
            t,
            peers,
            alive,
            r.0,
        ) == move_from(c, bound(t, c.moving[k as int], t.pool[r.1 as int]), at, k + 1),
{
    let a = CheckView { stage: Stage::Releasing { at, k }, ..c };
    let (n, target) = lemma_rehoming(c, t, peers, alive, at, k, None, 0, w);
    let u = bound(t, c.moving[k as int], t.pool[target as int]);
    let b = CheckView { stage: Stage::Reattaching { at, k, target }, ..c };
    let d = CheckView { stage: Stage::Reconfirming { at, k, target }, ..c };
    assert(relay_step(a, t, peers, reply(relay_ask(a, t, peers), alive)) == rehome_from(
        c,
        t,
        at,
        k,
        None,
        0,
    ));
    assert(smooth_run(a, t, peers, alive, n + 1) == (b, t));
    assert(relay_step(b, t, peers, reply(relay_ask(b, t, peers), alive)) == (d, t));
    assert(relay_step(d, t, peers, reply(relay_ask(d, t, peers), alive)) == move_from(
        c,
        u,
        at,
        k + 1,
    ));
    reveal_with_fuel(smooth_run, 3);
    assert(smooth_run(b, t, peers, alive, 2) == move_from(c, u, at, k + 1));
    lemma_runs_join(a, t, peers, alive, n + 1, 2);
    (n + 3, target)
}

/// Where the peers of a failed relay end up: behind a living relay of the pool, each of them.
pub open spec fn all_moved(
    c: CheckView,
    t: TablesView,
    u: TablesView,
    alive: Set<Text>,
    k: int,
) -> bool {
    &&& forall|i: int|
        k <= i < c.moving.len() ==> {
            &&& u.assigned.contains_key(#[trigger] c.moving[i])
            &&& alive.contains(u.assigned[c.moving[i]])
            &&& t.pool.contains(u.assigned[c.moving[i]])
        }
    &&& forall|p: Text|
        !c.moving.skip(k).contains(p) ==> {
            &&& #[trigger] u.assigned.contains_key(p) <==> t.assigned.contains_key(p)
            &&& u.assigned[p] == t.assigned[p]
        }
}

proof fn lemma_peers_move(
    c: CheckView,
    t: TablesView,
    peers: Map<Text, PeerView>,
    alive: Set<Text>,
    at: usize,
    k: int,
    w: int,
) -> (steps: nat)
    requires
        at < t.pool.len() <= usize::MAX,
        0 <= k <= c.moving.len() <= usize::MAX,
        waiting(c, t, at, k),
        can_replace(t, alive, at, w),
    ensures
        ({
            let (d, u) = smooth_run(
                move_from(c, t, at, k).0,
                move_from(c, t, at, k).1,
                peers,
                alive,
                steps,
            );
            &&& d == watch_from(c, u, at + 1)
            &&& u.pool == t.pool
            &&& u.fails == t.fails
            &&& !u.load.contains_key(t.pool[at as int])
            &&& all_moved(c, t, u, alive, k)
        }),
    decreases c.moving.len() - k,
{
    if k < c.moving.len() {
        let a = CheckView { stage: Stage::Releasing { at, k: k as usize }, ..c };
        let (n, target) = lemma_peer_moves(c, t, peers, alive, at, k as usize, w);
        let v = bound(t, c.moving[k], t.pool[target as int]);
        let m = lemma_peers_move(c, v, peers, alive, at, k + 1, w);
        lemma_runs_join(a, t, peers, alive, n, m);
        let u = smooth_run(a, t, peers, alive, n + m).1;
        assert(t.pool.contains(t.pool[target as int]));
        assert(!c.moving.skip(k + 1).contains(c.moving[k])) by {
            if c.moving.skip(k + 1).contains(c.moving[k]) {
                let j = c.moving.skip(k + 1).index_of(c.moving[k]);
                assert(c.moving[k + 1 + j] == c.moving[k]);
            }
        }
        assert(u.assigned.contains_key(c.moving[k]) && u.assigned[c.moving[k]]
            == v.assigned[c.moving[k]]);
        assert forall|p: Text| !c.moving.skip(k).contains(p) implies {
            &&& #[trigger] u.assigned.contains_key(p) <==> t.assigned.contains_key(p)
            &&& u.assigned[p] == t.assigned[p]
        } by {
            assert(c.moving.skip(k)[0] == c.moving[k]);
            if c.moving.skip(k + 1).contains(p) {
                let j = c.moving.skip(k + 1).index_of(p);
                assert(c.moving.skip(k)[j + 1] == p);
            }
        }
        n + m
    } else {
        0
    }
}

/// A relay fails while another one is alive, and every change succeeds: after some steps, whose
/// number is returned, the check goes on with the next relay, each peer that stood behind the
/// failed one stands behind a living relay of the pool, the failed one bears no load, and no other
/// peer changed its relay.
pub proof fn law_failed_relay_is_replaced(
    c: CheckView,
    t: TablesView,
    peers: Map<Text, PeerView>,
    alive: Set<Text>,
    at: usize,
    other: int,
) -> (steps: nat)
    requires
        check_wf(c, t, peers),
        c.stage == (Stage::Watching { at }),
        order_fits(t),
        t.pool.len() <= usize::MAX,
        behind(t, t.pool[at as int]).len() <= usize::MAX,
        !alive.contains(t.pool[at as int]),
        can_replace(t, alive, at, other),
    ensures
        ({
            let relay = t.pool[at as int];
            let (d, u) = smooth_run(c, t, peers, alive, steps);
            &&& d.stage == watch_from(c, u, at + 1).stage
            &&& u.pool == t.pool
            &&& !u.load.contains_key(relay)
            &&& forall|p: Text| #[trigger]
                u.assigned.contains_key(p) <==> t.assigned.contains_key(p)
            &&& forall|p: Text| #[trigger]
                t.assigned.contains_key(p) ==> if t.assigned[p] == relay {
                    alive.contains(u.assigned[p]) && t.pool.contains(u.assigned[p])
                } else {
                    u.assigned[p] == t.assigned[p]
                }
        }),
{
    let relay = t.pool[at as int];
    let b = CheckView { moving: behind(t, relay), ..c };
    lemma_behind(t, relay);
    let n = lemma_peers_move(b, t, peers, alive, at, 0, other);
    assert(b.moving.skip(0) =~= b.moving);
    assert(relay_step(c, t, peers, reply(relay_ask(c, t, peers), alive)) == move_from(b, t, at, 0));
    let (d, u) = smooth_run(move_from(b, t, at, 0).0, move_from(b, t, at, 0).1, peers, alive, n);
    assert(smooth_run(c, t, peers, alive, n + 1) == (d, u));
    assert forall|p: Text| #[trigger] t.assigned.contains_key(p) implies if t.assigned[p] == relay {
        alive.contains(u.assigned[p]) && t.pool.contains(u.assigned[p])
    } else {
        u.assigned[p] == t.assigned[p]
    } by {
        assert(b.moving.contains(p) <==> t.assigned[p] == relay);
        if b.moving.contains(p) {
            let i = b.moving.index_of(p);
            assert(b.moving[i] == p);
        } else {
            assert(u.assigned.contains_key(p));
        }
    }
    assert forall|p: Text|
        #[trigger] u.assigned.contains_key(p) <==> t.assigned.contains_key(p) by {
        if b.moving.contains(p) {
            let i = b.moving.index_of(p);
            assert(b.moving[i] == p);
        }
    }
    n + 1
}

// ---------- The end of a check ----------

/// How far a check is from its end, the weightiest part first: the part of the check, the peers or
/// relays that are left, the peers of a failed relay that are left, the work on the one at hand and
/// the relays that are left to look at for it.
pub open spec fn distance(c: CheckView, t: TablesView) -> (int, int, int, int, int) {
    let peers = c.queue.len() - c.pos;
    let relays = t.pool.len() as int;
    let movers = c.moving.len() as int;
    match c.stage {
        Stage::Listing => (3, 0, 0, 0, 0),
        Stage::Probing => (2, peers, 0, 6, 0),
        Stage::Choosing { next, .. } => (2, peers, 0, 5, relays - next),
        Stage::Attaching { .. } => (2, peers, 0, 4, 0),
        Stage::Confirming { .. } => (2, peers, 0, 3, 0),
        Stage::Detaching { .. } => (2, peers, 0, 2, 0),
        Stage::Undoing { .. } => (2, peers, 0, 1, 0),
        Stage::Withdrawing => (2, peers, 0, 5, 0),
        Stage::Restoring => (2, peers, 0, 4, 0),
        Stage::Watching { at } => (1, 2 * (relays - at) + 1, 0, 0, 0),
        Stage::Releasing { at, k } => (1, 2 * (relays - at), movers - k, 5, 0),
        Stage::Rehoming { at, k, next, .. } => (1, 2 * (relays - at), movers - k, 4, relays - next),
        Stage::Reattaching { at, k, .. } => (1, 2 * (relays - at), movers - k, 3, 0),
        Stage::Reconfirming { at, k, .. } => (1, 2 * (relays - at), movers - k, 2, 0),
        Stage::Unhoming { at, k, .. } => (1, 2 * (relays - at), movers - k, 1, 0),
        Stage::Finished => (0, 0, 0, 0, 0),
    }
}

/// Whether `a` is nearer to the end than `b`.
pub open spec fn nearer(a: (int, int, int, int, int), b: (int, int, int, int, int)) -> bool {
    if a.0 != b.0 {
        0 <= a.0 < b.0
    } else if a.1 != b.1 {
        0 <= a.1 < b.1
    } else if a.2 != b.2 {
        0 <= a.2 < b.2
    } else if a.3 != b.3 {
        0 <= a.3 < b.3
    } else {
        0 <= a.4 < b.4
    }
}

/// Every answer brings a check nearer to its end.
pub proof fn law_relay_check_ends(
    c: CheckView,
    t: TablesView,
    peers: Map<Text, PeerView>,
    told: Told,
)
    requires
        check_wf(c, t, peers),
        c.stage !is Finished,
        c.queue.len() <= usize::MAX,
        t.pool.len() <= usize::MAX,
        c.moving.len() <= usize::MAX,
    ensures
        nearer(
            distance(relay_step(c, t, peers, told).0, relay_step(c, t, peers, told).1),
            distance(c, t),
        ),
{
    let (d, u) = relay_step(c, t, peers, told);
    match c.stage {
        Stage::Listing => {
            if let Told::List(Some(keys)) = told {
                lemma_next_not_exempt(CheckView { queue: keys, ..c }, t, 0);
            }
        },
        Stage::Choosing { next, .. } => {
            lemma_next_relay_bounds(t.pool, None, next + 1);
            lemma_next_not_exempt(c, u, c.pos + 1);
        },
        Stage::Probing => {
            lemma_next_relay_bounds(t.pool, None, 0);
            lemma_next_not_exempt(c, u, c.pos + 1);
        },
        Stage::Attaching { .. }
        | Stage::Detaching { .. }
        | Stage::Undoing { .. }
        | Stage::Withdrawing
        | Stage::Restoring => {
            lemma_next_not_exempt(c, u, c.pos + 1);
        },
        Stage::Releasing { at, .. } => {
            lemma_next_relay_bounds(t.pool, Some(t.pool[at as int]), 0);
        },
        Stage::Rehoming { at, next, .. } => {
            lemma_next_relay_bounds(t.pool, Some(t.pool[at as int]), next + 1);
        },
        _ => {},
    }
}

/// The relay that is chosen once all relays were asked for, `alive` telling of the first ones
/// whether they are alive.
pub open spec fn chosen(t: TablesView, alive: Seq<bool>) -> Option<usize>
    decreases alive.len(),
{
    if alive.len() == 0 {
        None
    } else {
        let best = chosen(t, alive.drop_last());
        if alive.last() {
            better(t, best, (alive.len() - 1) as usize)
        } else {
            best
        }
    }
}

/// The relay that is chosen is alive, no living relay has a lighter load, and of those that have
/// the same load it is the first; none is chosen only if none is alive.
pub proof fn law_chosen_relay_is_best(t: TablesView, alive: Seq<bool>)
    requires
        alive.len() <= t.pool.len() <= usize::MAX,
    ensures
        match chosen(t, alive) {
            Some(b) => {
                &&& b < alive.len()
                &&& alive[b as int]
                &&& forall|j: int|
                    0 <= j < alive.len() && #[trigger] alive[j] ==> {
                        let x = count(t.load, t.pool[b as int]);
                        let y = count(t.load, t.pool[j]);
                        x < y || (x == y && b <= j)
                    }
            },
            None => forall|j: int| 0 <= j < alive.len() ==> !#[trigger] alive[j],
        },
    decreases alive.len(),
{
    if alive.len() > 0 {
        let front = alive.drop_last();
        law_chosen_relay_is_best(t, front);
        match chosen(t, alive) {
            Some(b) => {
                assert forall|j: int| 0 <= j < alive.len() && #[trigger] alive[j] implies {
                    let x = count(t.load, t.pool[b as int]);
                    let y = count(t.load, t.pool[j]);
                    x < y || (x == y && b <= j)
                } by {
                    if j < front.len() {
                        assert(front[j] == alive[j]);
                    }
                }
                if b < front.len() {
                    assert(front[b as int] == alive[b as int]);
                }
            },
            None => {
                assert forall|j: int| 0 <= j < alive.len() implies !#[trigger] alive[j] by {
                    if j < front.len() {
                        assert(front[j] == alive[j]);
                    }
                }
            },
        }
    }
}

/// While a relay is looked for, the best one so far is the one that is chosen among those that were
/// asked for; once all were asked for, the peer's addresses are put on that relay.
pub proof fn law_choice_is_followed(
    c: CheckView,
    t: TablesView,
    peers: Map<Text, PeerView>,
    alive: Seq<bool>,
    yes: bool,
)
    requires
        check_wf(c, t, peers),
        c.stage == (Stage::Choosing { next: alive.len() as usize, best: chosen(t, alive) }),
        alive.len() < t.pool.len() <= usize::MAX,
    ensures
        ({
            let d = relay_step(c, t, peers, Told::Flag(yes)).0;
            let best = chosen(t, alive.push(yes));
            if alive.len() + 1 < t.pool.len() {
                d.stage == (Stage::Choosing { next: (alive.len() + 1) as usize, best })
            } else {
                best is Some && original_ips(peers, c.queue[c.pos as int]).len() > 0 ==> d.stage == (
                Stage::Attaching { relay: best->0 })
            }
        }),
{
    assert(alive.push(yes).drop_last() =~= alive);
    assert(alive.push(yes).last() == yes);
}

} // verus!
