//! Relays: peers that carry the traffic of other peers which cannot be reached directly.
use vstd::prelude::*;

use crate::model::{
    fits, get_original_ips_from_snapshot, original_ips, update_from, update_from_peer, Answer, Ask,
    PeerMap, PeerView, Request, Told,
};
use crate::strmap::StrMap;
use crate::text::{chars_of, contains_string, lemma_list_len, text_eq, Text};

verus! {

/// A peer without a handshake for longer than this many seconds counts as out of reach.
pub const RELAY_FAIL_THRESHOLD: u64 = 180;

/// After so many checks in a row without a handshake a peer is handed to a relay.
pub const RELAY_FAIL_COUNT_MAX: u32 = 2;

/// What is known of relays and of the peers behind them.
pub struct RelayTables {
    /// The peers that can act as relays.
    pub pool: Vec<String>,
    /// How many peers each relay was given.
    pub load: StrMap<u32>,
    /// The relay that each relayed peer stands behind.
    pub assigned: StrMap<String>,
    /// How many checks in a row each peer failed.
    pub fails: StrMap<u32>,
}

/// The contents of [`RelayTables`]; `order` is the order in which relayed peers are walked.
pub struct TablesView {
    pub pool: Seq<Text>,
    pub load: Map<Text, u32>,
    pub assigned: Map<Text, Text>,
    pub order: Seq<Text>,
    pub fails: Map<Text, u32>,
}

impl View for RelayTables {
    type V = TablesView;

    open spec fn view(&self) -> TablesView {
        TablesView {
            pool: self.pool.deep_view(),
            load: self.load@,
            assigned: self.assigned@,
            order: self.assigned.keys(),
            fails: self.fails@,
        }
    }
}

/// No counter is at its greatest value, so that each can still be raised.
pub open spec fn room(t: TablesView) -> bool {
    raisable(t.load) && raisable(t.fails)
}

/// No counter of the map is at its greatest value.
pub open spec fn raisable(m: Map<Text, u32>) -> bool {
    forall|k: Text| #[trigger] m.contains_key(k) ==> m[k] < u32::MAX
}

/// The value of a counter, zero where there is none.
pub open spec fn count(m: Map<Text, u32>, k: Text) -> u32 {
    if m.contains_key(k) {
        m[k]
    } else {
        0
    }
}

/// The counter raised by one.
pub open spec fn raised(m: Map<Text, u32>, k: Text) -> Map<Text, u32> {
    m.insert(k, (count(m, k) + 1) as u32)
}

/// The counter set back to zero, if there is one.
pub open spec fn zeroed(m: Map<Text, u32>, k: Text) -> Map<Text, u32> {
    if m.contains_key(k) {
        m.insert(k, 0)
    } else {
        m
    }
}

/// The counter lowered by one but not below zero, if there is one.
pub open spec fn lowered(m: Map<Text, u32>, k: Text) -> Map<Text, u32> {
    if m.contains_key(k) {
        m.insert(k, if m[k] > 0 { (m[k] - 1) as u32 } else { 0 })
    } else {
        m
    }
}

/// What is left of the tables when a peer leaves the network: a relayed peer is forgotten and its
/// relay is relieved of it.
pub open spec fn forgotten(t: TablesView, pubkey: Text) -> TablesView {
    if t.assigned.contains_key(pubkey) {
        TablesView {
            load: lowered(t.load, t.assigned[pubkey]),
            assigned: t.assigned.remove(pubkey),
            order: crate::strmap::without(t.order, pubkey),
            fails: t.fails.remove(pubkey),
            ..t
        }
    } else {
        t
    }
}

fn count_of(m: &StrMap<u32>, k: &str) -> (r: u32)
    requires
        m.wf(),
    ensures
        r == count(m@, k@),
{
    match m.get(k) {
        Some(n) => *n,
        None => 0,
    }
}

fn zero(m: &mut StrMap<u32>, k: &String)
    requires
        old(m).wf(),
    ensures
        final(m).wf(),
        final(m)@ == zeroed(old(m)@, k@),
{
    if m.contains(k.as_str()) {
        m.insert(k.clone(), 0);
    }
}

fn lower(m: &mut StrMap<u32>, k: &String)
    requires
        old(m).wf(),
    ensures
        final(m).wf(),
        final(m)@ == lowered(old(m)@, k@),
{
    if m.contains(k.as_str()) {
        let n = count_of(m, k.as_str());
        m.insert(k.clone(), if n > 0 { n - 1 } else { 0 });
    }
}

fn raise(m: &mut StrMap<u32>, k: &String)
    requires
        old(m).wf(),
        count(old(m)@, k@) < u32::MAX,
    ensures
        final(m).wf(),
        final(m)@ == raised(old(m)@, k@),
{
    let n = count_of(m, k.as_str());
    m.insert(k.clone(), n + 1);
}

impl RelayTables {
    pub open spec fn wf(&self) -> bool {
        &&& self.load.wf()
        &&& self.assigned.wf()
        &&& self.fails.wf()
    }

    pub fn new() -> (r: Self)
        ensures
            r.wf(),
            room(r@),
            r@.pool == Seq::<Text>::empty(),
            r@.load == Map::<Text, u32>::empty(),
            r@.assigned == Map::<Text, Text>::empty(),
            r@.fails == Map::<Text, u32>::empty(),
            r@.order == Seq::<Text>::empty(),
    {
        let r = RelayTables {
            pool: Vec::new(),
            load: StrMap::new(),
            assigned: StrMap::new(),
            fails: StrMap::new(),
        };
        assert(r.pool.deep_view() =~= Seq::<Text>::empty());
        r
    }

    /// Whether every counter can still be raised.
    pub fn has_room(&self) -> (r: bool)
        requires
            self.wf(),
        ensures
            r == room(self@),
    {
        below_max(&self.load) && below_max(&self.fails)
    }

    /// Forgets a peer that left the network.
    pub fn forget(&mut self, pubkey: &String)
        requires
            old(self).wf(),
        ensures
            final(self).wf(),
            final(self)@ == forgotten(old(self)@, pubkey@),
    {
        match self.assigned.remove(pubkey.as_str()) {
            Some(relay) => {
                lower(&mut self.load, &relay);
                let _ = self.fails.remove(pubkey.as_str());
            },
            None => {
                assert(self.assigned@ =~= old(self).assigned@);
            },
        }
    }
}

fn below_max(m: &StrMap<u32>) -> (r: bool)
    requires
        m.wf(),
    ensures
        r == raisable(m@),
{
    proof {
        m.lemma_keys();
    }
    let mut i: usize = 0;
    while i < m.len()
        invariant
            m.wf(),
            i <= m.keys().len(),
            forall|j: int| 0 <= j < i ==> m@[#[trigger] m.keys()[j]] < u32::MAX,
        decreases m.keys().len() - i,
    {
        if *m.value_at(i) == u32::MAX {
            return false;
        }
        i += 1;
    }
    proof {
        assert forall|k: Text| #[trigger] m@.contains_key(k) implies m@[k] < u32::MAX by {
            m.lemma_keys();
            let j = m.keys().index_of(k);
            assert(m.keys()[j] == k);
        }
    }
    true
}

// ---------- Discovery ----------

/// Whether a peer is meant as a relay: one of the relay networks is among its addresses.
pub open spec fn is_candidate(p: PeerView, cidr_v4: Text, cidr_v6: Text) -> bool {
    p.allowed_ips is Some && (p.allowed_ips->0.contains(cidr_v4) || p.allowed_ips->0.contains(
        cidr_v6,
    ))
}

/// The peers of a snapshot that are meant as relays, in the order of the walk.
pub open spec fn candidates(
    keys: Seq<Text>,
    peers: Map<Text, PeerView>,
    cidr_v4: Text,
    cidr_v6: Text,
) -> Seq<Text> {
    keys.filter(|k: Text| is_candidate(peers[k], cidr_v4, cidr_v6))
}

/// The peers of a snapshot that are meant as relays.
pub fn relay_candidates(peers: &PeerMap, cidr_v4: &str, cidr_v6: &str) -> (r: Vec<String>)
    requires
        peers.wf(),
    ensures
        r.deep_view() == candidates(peers.keys(), peers@, cidr_v4@, cidr_v6@),
{
    let mut out: Vec<String> = Vec::new();
    let mut i: usize = 0;
    let ghost keys = peers.keys();
    proof {
        reveal(Seq::filter);
        assert(out.deep_view() =~= candidates(keys.take(0), peers@, cidr_v4@, cidr_v6@));
    }
    while i < peers.len()
        invariant
            peers.wf(),
            keys == peers.keys(),
            i <= keys.len(),
            out.deep_view() == candidates(keys.take(i as int), peers@, cidr_v4@, cidr_v6@),
        decreases keys.len() - i,
    {
        let p = peers.value_at(i);
        let wanted = match &p.allowed_ips {
            Some(ips) => contains_string(ips, cidr_v4) || contains_string(ips, cidr_v6),
            None => false,
        };
        proof {
            reveal(Seq::filter);
        }
        assert(keys.take(i + 1).drop_last() =~= keys.take(i as int));
        assert(wanted == is_candidate(peers@[keys[i as int]], cidr_v4@, cidr_v6@));
        if wanted {
            let ghost before = out.deep_view();
            out.push(peers.key_at(i).clone());
            assert(out.deep_view() =~= before.push(keys[i as int]));
        }
        i += 1;
    }
    assert(keys.take(keys.len() as int) =~= keys);
    out
}

/// Whether `a` comes no later than `b` in the order of texts.
pub open spec fn text_le(a: Text, b: Text) -> bool
    decreases a.len(),
{
    if a.len() == 0 {
        true
    } else if b.len() == 0 {
        false
    } else if a[0] != b[0] {
        a[0] < b[0]
    } else {
        text_le(a.drop_first(), b.drop_first())
    }
}

/// Whether one text comes no later than another.
pub fn is_text_le(a: &str, b: &str) -> (r: bool)
    ensures
        r == text_le(a@, b@),
{
    let x = chars_of(a);
    let y = chars_of(b);
    let mut i: usize = 0;
    assert(a@.skip(0) =~= a@ && b@.skip(0) =~= b@);
    while i < x.len() && i < y.len()
        invariant
            x@ == a@,
            y@ == b@,
            i <= x@.len(),
            i <= y@.len(),
            text_le(a@.skip(i as int), b@.skip(i as int)) == text_le(a@, b@),
        decreases x.len() - i,
    {
        if x[i] != y[i] {
            return x[i] < y[i];
        }
        assert(a@.skip(i as int).drop_first() =~= a@.skip(i + 1));
        assert(b@.skip(i as int).drop_first() =~= b@.skip(i + 1));
        i += 1;
    }
    i == x.len()
}

pub proof fn lemma_text_le_total(a: Text, b: Text)
    ensures
        text_le(a, b) || text_le(b, a),
    decreases a.len(),
{
    if a.len() > 0 && b.len() > 0 && a[0] == b[0] {
        lemma_text_le_total(a.drop_first(), b.drop_first());
    }
}

pub proof fn lemma_text_le_transitive(a: Text, b: Text, c: Text)
    requires
        text_le(a, b),
        text_le(b, c),
    ensures
        text_le(a, c),
    decreases a.len(),
{
    if a.len() > 0 && b.len() > 0 && c.len() > 0 && a[0] == b[0] && b[0] == c[0] {
        lemma_text_le_transitive(a.drop_first(), b.drop_first(), c.drop_first());
    }
}

/// Whether each text comes no later than those after it.
pub open spec fn in_order(s: Seq<Text>) -> bool {
    forall|i: int, j: int| 0 <= i < j < s.len() ==> text_le(#[trigger] s[i], #[trigger] s[j])
}

/// The candidates that were found alive, `alive` telling this of each one.
pub open spec fn living(candidates: Seq<Text>, alive: Seq<bool>) -> Seq<Text>
    decreases candidates.len(),
{
    if candidates.len() == 0 || candidates.len() != alive.len() {
        Seq::empty()
    } else {
        let front = living(candidates.drop_last(), alive.drop_last());
        if alive.last() {
            front.push(candidates.last())
        } else {
            front
        }
    }
}

/// A list in order with one more text, which stands behind those that come no later.
pub open spec fn placed(s: Seq<Text>, x: Text) -> Seq<Text>
    decreases s.len(),
{
    if s.len() > 0 && text_le(s[0], x) {
        seq![s[0]] + placed(s.drop_first(), x)
    } else {
        seq![x] + s
    }
}

/// The texts of a list in order.
pub open spec fn sorted(list: Seq<Text>) -> Seq<Text>
    decreases list.len(),
{
    if list.len() == 0 {
        list
    } else {
        placed(sorted(list.drop_last()), list.last())
    }
}

fn insert_in_order(list: &mut Vec<String>, s: String)
    ensures
        final(list).deep_view() == placed(old(list).deep_view(), s@),
{
    let mut i: usize = 0;
    let ghost before = list.deep_view();
    let ghost t = s@;
    assert(before.take(0) + placed(before.skip(0), t) =~= placed(before, t)) by {
        assert(before.skip(0) =~= before);
    }
    while i < list.len() && is_text_le(list[i].as_str(), s.as_str())
        invariant
            before == list.deep_view(),
            t == s@,
            i <= list@.len(),
            placed(before, t) == before.take(i as int) + placed(before.skip(i as int), t),
        decreases list.len() - i,
    {
        proof {
            let rest = before.skip(i as int);
            assert(rest[0] == list@[i as int]@);
            assert(rest.drop_first() =~= before.skip(i + 1));
            assert(before.take(i as int) + (seq![rest[0]] + placed(before.skip(i + 1), t))
                =~= before.take(i + 1) + placed(before.skip(i + 1), t));
        }
        i += 1;
    }
    proof {
        let rest = before.skip(i as int);
        if i < list@.len() {
            assert(rest[0] == list@[i as int]@);
        }
        assert(placed(rest, t) == seq![t] + rest);
    }
    list.insert(i, s);
    assert(list.deep_view() =~= before.take(i as int) + (seq![t] + before.skip(i as int)));
}

proof fn lemma_placed(s: Seq<Text>, x: Text)
    requires
        in_order(s),
    ensures
        in_order(placed(s, x)),
        placed(s, x).to_multiset() == s.to_multiset().insert(x),
        placed(s, x).len() == s.len() + 1,
        placed(s, x)[0] == x || (s.len() > 0 && placed(s, x)[0] == s[0]),
    decreases s.len(),
{
    broadcast use vstd::seq_lib::group_to_multiset_ensures;

    let p = placed(s, x);
    if s.len() > 0 && text_le(s[0], x) {
        let rest = s.drop_first();
        assert(in_order(rest)) by {
            assert forall|i: int, j: int| 0 <= i < j < rest.len() implies text_le(
                #[trigger] rest[i],
                #[trigger] rest[j],
            ) by {
                assert(rest[i] == s[i + 1] && rest[j] == s[j + 1]);
            }
        }
        lemma_placed(rest, x);
        let q = placed(rest, x);
        assert forall|i: int, j: int| 0 <= i < j < p.len() implies text_le(
            #[trigger] p[i],
            #[trigger] p[j],
        ) by {
            if i == 0 {
                assert(p[0] == s[0]);
                assert(p[j] == q[j - 1]);
                if q[0] == x {
                    assert(text_le(s[0], q[0]));
                } else {
                    assert(q[0] == s[1]);
                    assert(text_le(s[0], s[1]));
                }
                if j > 1 {
                    assert(text_le(q[0], q[j - 1]));
                    lemma_text_le_transitive(s[0], q[0], q[j - 1]);
                }
            } else {
                assert(p[i] == q[i - 1] && p[j] == q[j - 1]);
            }
        }
        vstd::seq_lib::lemma_multiset_commutative(seq![s[0]], q);
        vstd::seq_lib::lemma_multiset_commutative(seq![s[0]], rest);
        assert(s =~= seq![s[0]] + rest);
        assert(p.to_multiset() =~= s.to_multiset().insert(x));
    } else {
        assert forall|i: int, j: int| 0 <= i < j < p.len() implies text_le(
            #[trigger] p[i],
            #[trigger] p[j],
        ) by {
            if i == 0 {
                lemma_text_le_total(s[0], x);
                assert(p[j] == s[j - 1]);
                if j > 1 {
                    assert(text_le(s[0], s[j - 1]));
                    lemma_text_le_transitive(x, s[0], s[j - 1]);
                }
            } else {
                assert(p[i] == s[i - 1] && p[j] == s[j - 1]);
            }
        }
        vstd::seq_lib::lemma_multiset_commutative(seq![x], s);
        assert(seq![x].to_multiset() =~= vstd::multiset::Multiset::empty().insert(x)) by {
            assert(seq![x] =~= Seq::<Text>::empty().push(x));
        }
        assert(p.to_multiset() =~= s.to_multiset().insert(x));
    }
}

/// Putting texts in order loses none and adds none, and puts each no later than those it does not
/// come after.
pub proof fn law_sorted(list: Seq<Text>)
    ensures
        in_order(sorted(list)),
        sorted(list).to_multiset() == list.to_multiset(),
    decreases list.len(),
{
    broadcast use vstd::seq_lib::group_to_multiset_ensures;

    if list.len() > 0 {
        law_sorted(list.drop_last());
        lemma_placed(sorted(list.drop_last()), list.last());
        assert(list =~= list.drop_last().push(list.last()));
    }
}

/// The pool of relays after a snapshot: the candidates with a recent handshake, in order.
pub fn discover_relay(candidates: &Vec<String>, alive: &Vec<bool>) -> (r: Vec<String>)
    requires
        candidates@.len() == alive@.len(),
    ensures
        r.deep_view() == sorted(living(candidates.deep_view(), alive@)),
{
    let mut out: Vec<String> = Vec::new();
    let mut i: usize = 0;
    let ghost all = candidates.deep_view();
    assert(out.deep_view() =~= sorted(living(all.take(0), alive@.take(0))));
    while i < candidates.len()
        invariant
            all == candidates.deep_view(),
            candidates@.len() == alive@.len(),
            i <= candidates@.len(),
            out.deep_view() == sorted(living(all.take(i as int), alive@.take(i as int))),
        decreases candidates.len() - i,
    {
        proof {
            assert(all.take(i + 1).drop_last() =~= all.take(i as int));
            assert(alive@.take(i + 1).drop_last() =~= alive@.take(i as int));
        }
        if alive[i] {
            insert_in_order(&mut out, candidates[i].clone());
            proof {
                let front = living(all.take(i as int), alive@.take(i as int));
                assert(front.push(all[i as int]).drop_last() =~= front);
            }
        }
        i += 1;
    }
    assert(all.take(candidates@.len() as int) =~= all);
    assert(alive@.take(candidates@.len() as int) =~= alive@);
    out
}

// ---------- The periodic check ----------

/// Where a check stands. Relays are given by their place in the pool, the peers of a failed relay
/// by their place in the list of those that have to move.
#[derive(Clone, Copy)]
pub enum Stage {
    /// Waiting for the public keys to check.
    Listing,
    /// Waiting to hear whether the peer at hand is alive.
    Probing,
    /// The peer has to be relayed: waiting to hear whether a relay is alive.
    Choosing { next: usize, best: Option<usize> },
    /// Waiting for the peer's addresses to be put on the relay.
    Attaching { relay: usize },
    /// Waiting to hear whether the relay is still alive.
    Confirming { relay: usize },
    /// Waiting for the peer to be removed from the interface.
    Detaching { relay: usize },
    /// Waiting for the peer's addresses to be taken off the relay again.
    Undoing { relay: usize },
    /// The peer is back: waiting for its addresses to be taken off its former relay.
    Withdrawing,
    /// Waiting for the peer to be put back on the interface.
    Restoring,
    /// Waiting to hear whether a relay is alive.
    Watching { at: usize },
    /// The relay failed: waiting for the addresses of one of its peers to be taken off it.
    Releasing { at: usize, k: usize },
    /// Waiting to hear whether another relay is alive.
    Rehoming { at: usize, k: usize, next: usize, best: Option<usize> },
    /// Waiting for the addresses to be put on the other relay.
    Reattaching { at: usize, k: usize, target: usize },
    /// Waiting to hear whether the other relay is still alive.
    Reconfirming { at: usize, k: usize, target: usize },
    /// Waiting for the addresses to be taken off the other relay again.
    Unhoming { at: usize, k: usize, target: usize },
    /// The check is over.
    Finished,
}

/// A running check of all peers and relays.
pub struct RelayCheck {
    local: String,
    queue: Vec<String>,
    pos: usize,
    former: String,
    moving: Vec<String>,
    stage: Stage,
}

/// The contents of a [`RelayCheck`].
pub struct CheckView {
    /// The public key of this node.
    pub local: Text,
    /// The public keys to check.
    pub queue: Seq<Text>,
    /// The place of the peer at hand.
    pub pos: usize,
    /// The relay that the peer at hand stood behind.
    pub former: Text,
    /// The peers behind the failed relay at hand.
    pub moving: Seq<Text>,
    pub stage: Stage,
}

/// Relays and this node itself are not checked.
pub open spec fn exempt(c: CheckView, t: TablesView, i: int) -> bool {
    t.pool.contains(c.queue[i]) || c.queue[i] == c.local
}

/// The first place at or after `i` of a peer to check.
pub open spec fn next_peer(c: CheckView, t: TablesView, i: int) -> int
    decreases c.queue.len() - i,
{
    if i >= c.queue.len() {
        c.queue.len() as int
    } else if exempt(c, t, i) {
        next_peer(c, t, i + 1)
    } else {
        i
    }
}

/// The first place at or after `i` of a relay other than `except`.
pub open spec fn next_relay(pool: Seq<Text>, except: Option<Text>, i: int) -> int
    decreases pool.len() - i,
{
    if i >= pool.len() {
        pool.len() as int
    } else if except == Some(pool[i]) {
        next_relay(pool, except, i + 1)
    } else {
        i
    }
}

/// Going on with the relays from the `at`-th.
pub open spec fn watch_from(c: CheckView, t: TablesView, at: int) -> CheckView {
    CheckView {
        stage: if at < t.pool.len() {
            Stage::Watching { at: at as usize }
        } else {
            Stage::Finished
        },
        ..c
    }
}

/// Going on with the peers from the `i`-th, and with the relays after them.
pub open spec fn probe_from(c: CheckView, t: TablesView, i: int) -> CheckView {
    let n = next_peer(c, t, i);
    if n < c.queue.len() {
        CheckView { pos: n as usize, stage: Stage::Probing, ..c }
    } else {
        watch_from(c, t, 0)
    }
}

/// The better of the best relay so far and the one at `i`, which is alive: the less loaded one, the
/// earlier where both are equally loaded.
pub open spec fn better(t: TablesView, best: Option<usize>, i: usize) -> Option<usize> {
    match best {
        Some(b) => if count(t.load, t.pool[i as int]) < count(t.load, t.pool[b as int]) {
            Some(i)
        } else {
            Some(b)
        },
        None => Some(i),
    }
}

/// Looking for a relay for the peer at hand from the `i`-th relay on.
pub open spec fn choose_from(
    c: CheckView,
    t: TablesView,
    peers: Map<Text, PeerView>,
    best: Option<usize>,
    i: int,
) -> CheckView {
    let n = next_relay(t.pool, None, i);
    if n < t.pool.len() {
        CheckView { stage: Stage::Choosing { next: n as usize, best }, ..c }
    } else if best is Some && original_ips(peers, c.queue[c.pos as int]).len() > 0 {
        CheckView { stage: Stage::Attaching { relay: best->0 }, ..c }
    } else {
        probe_from(c, t, c.pos + 1)
    }
}

/// Going on with the peers behind the failed relay from the `k`-th; when none is left the relay's
/// load is forgotten.
pub open spec fn move_from(c: CheckView, t: TablesView, at: usize, k: int) -> (
    CheckView,
    TablesView,
) {
    if k < c.moving.len() {
        (CheckView { stage: Stage::Releasing { at, k: k as usize }, ..c }, t)
    } else {
        let u = TablesView { load: t.load.remove(t.pool[at as int]), ..t };
        (watch_from(c, u, at + 1), u)
    }
}

/// Looking for another relay for the `k`-th peer of the failed one from the `i`-th relay on.
pub open spec fn rehome_from(
    c: CheckView,
    t: TablesView,
    at: usize,
    k: usize,
    best: Option<usize>,
    i: int,
) -> (CheckView, TablesView) {
    let n = next_relay(t.pool, Some(t.pool[at as int]), i);
    if n < t.pool.len() {
        (CheckView { stage: Stage::Rehoming { at, k, next: n as usize, best }, ..c }, t)
    } else if best is Some {
        (CheckView { stage: Stage::Reattaching { at, k, target: best->0 }, ..c }, t)
    } else {
        move_from(c, t, at, k + 1)
    }
}

/// Tells of a relayed peer whether it stands behind the relay.
pub open spec fn stands_behind(t: TablesView, relay: Text) -> spec_fn(Text) -> bool {
    |p: Text| t.assigned[p] == relay
}

/// The peers behind a relay, in the order of the walk.
pub open spec fn behind(t: TablesView, relay: Text) -> Seq<Text> {
    t.order.filter(stands_behind(t, relay))
}

/// Walking on from a peer that is alive and not relayed, or no longer: its failures are forgotten.
pub open spec fn settled(c: CheckView, t: TablesView) -> (CheckView, TablesView) {
    let u = TablesView { fails: zeroed(t.fails, c.queue[c.pos as int]), ..t };
    (probe_from(c, u, c.pos + 1), u)
}

/// Whether a peer stands behind another relay than the one given.
pub open spec fn bound_elsewhere(t: TablesView, peer: Text, relay: Text) -> bool {
    t.assigned.contains_key(peer) && t.assigned[peer] != relay
}

/// The peer at hand bound to the relay.
pub open spec fn bound(t: TablesView, peer: Text, relay: Text) -> TablesView {
    TablesView {
        load: raised(t.load, relay),
        assigned: t.assigned.insert(peer, relay),
        order: if t.assigned.contains_key(peer) {
            t.order
        } else {
            t.order.push(peer)
        },
        ..t
    }
}

/// What the check asks next.
pub open spec fn relay_ask(c: CheckView, t: TablesView, peers: Map<Text, PeerView>) -> Ask {
    let peer = c.queue[c.pos as int];
    let max_age = RELAY_FAIL_THRESHOLD;
    match c.stage {
        Stage::Listing => Ask::Handshakes,
        Stage::Probing => Ask::Recent { pubkey: peer, max_age },
        Stage::Choosing { next, .. } => Ask::Recent { pubkey: t.pool[next as int], max_age },
        Stage::Attaching { relay } => Ask::AddIps {
            pubkey: t.pool[relay as int],
            ips: original_ips(peers, peer),
        },
        Stage::Confirming { relay } => Ask::Recent { pubkey: t.pool[relay as int], max_age },
        Stage::Detaching { .. } => Ask::RemovePeer { pubkey: peer },
        Stage::Undoing { relay } => Ask::RemoveIps {
            pubkey: t.pool[relay as int],
            ips: original_ips(peers, peer),
        },
        Stage::Withdrawing => Ask::RemoveIps { pubkey: c.former, ips: original_ips(peers, peer) },
        Stage::Restoring => Ask::UpdatePeer(update_from(peer, peers[peer])),
        Stage::Watching { at } => Ask::Recent { pubkey: t.pool[at as int], max_age },
        Stage::Releasing { at, k } => Ask::RemoveIps {
            pubkey: t.pool[at as int],
            ips: original_ips(peers, c.moving[k as int]),
        },
        Stage::Rehoming { next, .. } => Ask::Recent { pubkey: t.pool[next as int], max_age },
        Stage::Reattaching { k, target, .. } => Ask::AddIps {
            pubkey: t.pool[target as int],
            ips: original_ips(peers, c.moving[k as int]),
        },
        Stage::Reconfirming { target, .. } => Ask::Recent {
            pubkey: t.pool[target as int],
            max_age,
        },
        Stage::Unhoming { k, target, .. } => Ask::RemoveIps {
            pubkey: t.pool[target as int],
            ips: original_ips(peers, c.moving[k as int]),
        },
        Stage::Finished => Ask::Done,
    }
}

/// Where an answer takes the check, and what it changes in the tables.
pub open spec fn relay_step(
    c: CheckView,
    t: TablesView,
    peers: Map<Text, PeerView>,
    told: Told,
) -> (CheckView, TablesView) {
    let peer = c.queue[c.pos as int];
    let yes = told == Told::Flag(true);
    match c.stage {
        Stage::Listing => match told {
            Told::List(Some(keys)) => (probe_from(CheckView { queue: keys, ..c }, t, 0), t),
            _ => (CheckView { stage: Stage::Finished, ..c }, t),
        },
        Stage::Probing => if !yes {
            let u = TablesView { fails: raised(t.fails, peer), ..t };
            if u.fails[peer] >= RELAY_FAIL_COUNT_MAX && !t.assigned.contains_key(peer) {
                (choose_from(c, u, peers, None, 0), u)
            } else {
                (probe_from(c, u, c.pos + 1), u)
            }
        } else if t.assigned.contains_key(peer) {
            let u = TablesView {
                assigned: t.assigned.remove(peer),
                order: crate::strmap::without(t.order, peer),
                ..t
            };
            (CheckView { former: t.assigned[peer], stage: Stage::Withdrawing, ..c }, u)
        } else {
            settled(c, t)
        },
        Stage::Choosing { next, best } => (
            choose_from(
                c,
                t,
                peers,
                if yes {
                    better(t, best, next)
                } else {
                    best
                },
                next + 1,
            ),
            t,
        ),
        Stage::Attaching { relay } => if !yes {
            (probe_from(c, t, c.pos + 1), t)
        } else if t.assigned.contains_key(peer) {
            (CheckView { stage: Stage::Undoing { relay }, ..c }, t)
        } else {
            (CheckView { stage: Stage::Confirming { relay }, ..c }, t)
        },
        Stage::Confirming { relay } => (
            CheckView {
                stage: if yes {
                    Stage::Detaching { relay }
                } else {
                    Stage::Undoing { relay }
                },
                ..c
            },
            t,
        ),
        Stage::Detaching { relay } => if yes {
            let u = bound(t, peer, t.pool[relay as int]);
            let v = TablesView { fails: zeroed(u.fails, peer), ..u };
            (probe_from(c, v, c.pos + 1), v)
        } else {
            (CheckView { stage: Stage::Undoing { relay }, ..c }, t)
        },
        Stage::Undoing { .. } => (probe_from(c, t, c.pos + 1), t),
        Stage::Withdrawing => if t.assigned.contains_key(peer) && t.assigned[peer] == c.former {
            (CheckView { stage: Stage::Finished, ..c }, t)
        } else if peers.contains_key(peer) {
            (CheckView { stage: Stage::Restoring, ..c }, t)
        } else {
            settled(c, t)
        },
        Stage::Restoring => if yes {
            let u = TablesView {
                load: lowered(t.load, c.former),
                fails: t.fails.remove(peer),
                ..t
            };
            settled(c, u)
        } else {
            settled(c, t)
        },
        Stage::Watching { at } => {
            let relay = t.pool[at as int];
            if yes {
                (watch_from(c, t, at + 1), t)
            } else {
                move_from(CheckView { moving: behind(t, relay), ..c }, t, at, 0)
            }
        },
        Stage::Releasing { at, k } => rehome_from(c, t, at, k, None, 0),
        Stage::Rehoming { at, k, next, best } => rehome_from(
            c,
            t,
            at,
            k,
            if yes {
                better(t, best, next)
            } else {
                best
            },
            next + 1,
        ),
        Stage::Reattaching { at, k, target } => if !yes {
            move_from(c, t, at, k + 1)
        } else if bound_elsewhere(t, c.moving[k as int], t.pool[at as int]) {
            (CheckView { stage: Stage::Unhoming { at, k, target }, ..c }, t)
        } else {
            (CheckView { stage: Stage::Reconfirming { at, k, target }, ..c }, t)
        },
        Stage::Reconfirming { at, k, target } => if yes {
            move_from(c, bound(t, c.moving[k as int], t.pool[target as int]), at, k + 1)
        } else {
            (CheckView { stage: Stage::Unhoming { at, k, target }, ..c }, t)
        },
        Stage::Unhoming { at, k, .. } => move_from(c, t, at, k + 1),
        Stage::Finished => (c, t),
    }
}

/// Places that a check refers to exist.
pub open spec fn check_wf(c: CheckView, t: TablesView, peers: Map<Text, PeerView>) -> bool {
    let p = c.pos < c.queue.len();
    let n = t.pool.len();
    match c.stage {
        Stage::Listing | Stage::Finished => true,
        Stage::Probing | Stage::Withdrawing => p,
        Stage::Restoring => p && peers.contains_key(c.queue[c.pos as int]),
        Stage::Choosing { next, best } => p && next < n && (best is Some ==> best->0 < n),
        Stage::Attaching { relay }
        | Stage::Confirming { relay }
        | Stage::Detaching { relay }
        | Stage::Undoing { relay } => p && relay < n,
        Stage::Watching { at } => at < n,
        Stage::Releasing { at, k } => at < n && k < c.moving.len(),
        Stage::Rehoming { at, k, next, best } => at < n && k < c.moving.len() && next < n && (
        best is Some ==> best->0 < n),
        Stage::Reattaching { at, k, target }
        | Stage::Reconfirming { at, k, target }
        | Stage::Unhoming { at, k, target } => at < n && k < c.moving.len() && target < n,
    }
}

impl View for RelayCheck {
    type V = CheckView;

    closed spec fn view(&self) -> CheckView {
        CheckView {
            local: self.local@,
            queue: self.queue.deep_view(),
            pos: self.pos,
            former: self.former@,
            moving: self.moving.deep_view(),
            stage: self.stage,
        }
    }
}

proof fn lemma_next_peer(c: CheckView, t: TablesView, i: int)
    requires
        0 <= i <= c.queue.len(),
    ensures
        i <= next_peer(c, t, i) <= c.queue.len(),
    decreases c.queue.len() - i,
{
    if i < c.queue.len() && exempt(c, t, i) {
        lemma_next_peer(c, t, i + 1);
    }
}

proof fn lemma_next_relay(pool: Seq<Text>, except: Option<Text>, i: int)
    requires
        0 <= i <= pool.len(),
    ensures
        i <= next_relay(pool, except, i) <= pool.len(),
    decreases pool.len() - i,
{
    if i < pool.len() && except == Some(pool[i]) {
        lemma_next_relay(pool, except, i + 1);
    }
}

fn next_relay_of(t: &RelayTables, except: Option<usize>, i: usize) -> (r: usize)
    requires
        i <= t.pool@.len(),
        except is Some ==> except->0 < t.pool@.len(),
    ensures
        i <= r <= t.pool@.len(),
        r == next_relay(
            t@.pool,
            match except {
                Some(e) => Some(t@.pool[e as int]),
                None => None,
            },
            i as int,
        ),
{
    let ghost x = match except {
        Some(e) => Some(t@.pool[e as int]),
        None => None,
    };
    let mut n: usize = i;
    while n < t.pool.len()
        invariant
            i <= n <= t.pool@.len(),
            except is Some ==> except->0 < t.pool@.len(),
            x == match except {
                Some(e) => Some(t@.pool[e as int]),
                None => None,
            },
            next_relay(t@.pool, x, i as int) == next_relay(t@.pool, x, n as int),
        decreases t.pool@.len() - n,
    {
        match except {
            Some(e) => {
                if !text_eq(t.pool[n].as_str(), t.pool[e].as_str()) {
                    return n;
                }
            },
            None => {
                return n;
            },
        }
        n += 1;
    }
    n
}

fn better_of(t: &RelayTables, best: Option<usize>, i: usize) -> (r: Option<usize>)
    requires
        t.wf(),
        i < t.pool@.len(),
        best is Some ==> best->0 < t.pool@.len(),
    ensures
        r == better(t@, best, i),
{
    match best {
        Some(b) => if count_of(&t.load, t.pool[i].as_str()) < count_of(
            &t.load,
            t.pool[b].as_str(),
        ) {
            Some(i)
        } else {
            Some(b)
        },
        None => Some(i),
    }
}

fn bind(t: &mut RelayTables, peer: &String, relay: &String)
    requires
        old(t).wf(),
        room(old(t)@),
    ensures
        final(t).wf(),
        final(t)@ == bound(old(t)@, peer@, relay@),
{
    raise(&mut t.load, relay);
    t.assigned.insert(peer.clone(), relay.clone());
}

fn is_bound_elsewhere(t: &RelayTables, peer: &str, relay: &str) -> (r: bool)
    requires
        t.wf(),
    ensures
        r == bound_elsewhere(t@, peer@, relay@),
{
    match t.assigned.get(peer) {
        Some(name) => !text_eq(name.as_str(), relay),
        None => false,
    }
}

fn behind_of(t: &RelayTables, relay: &String) -> (r: Vec<String>)
    requires
        t.wf(),
    ensures
        r.deep_view() == behind(t@, relay@),
{
    let mut out: Vec<String> = Vec::new();
    let mut i: usize = 0;
    let ghost keys = t.assigned.keys();
    let ghost f = stands_behind(t@, relay@);
    proof {
        reveal(Seq::filter);
        assert(out.deep_view() =~= keys.take(0).filter(f));
    }
    while i < t.assigned.len()
        invariant
            t.wf(),
            keys == t.assigned.keys(),
            f == stands_behind(t@, relay@),
            i <= keys.len(),
            out.deep_view() == keys.take(i as int).filter(f),
        decreases keys.len() - i,
    {
        proof {
            reveal(Seq::filter);
            assert(keys.take(i + 1).drop_last() =~= keys.take(i as int));
        }
        if text_eq(t.assigned.value_at(i).as_str(), relay.as_str()) {
            let ghost before = out.deep_view();
            out.push(t.assigned.key_at(i).clone());
            assert(out.deep_view() =~= before.push(keys[i as int]));
        }
        i += 1;
    }
    proof {
        assert(keys.take(keys.len() as int) =~= keys);
    }
    out
}

impl RelayCheck {
    fn go_watch(&mut self, t: &RelayTables, at: usize)
        requires
            at <= t.pool@.len(),
        ensures
            final(self)@ == watch_from(old(self)@, t@, at as int),
    {
        self.stage = if at < t.pool.len() {
            Stage::Watching { at }
        } else {
            Stage::Finished
        };
    }

    fn go_probe(&mut self, t: &RelayTables, from: usize)
        requires
            from <= old(self)@.queue.len(),
        ensures
            final(self)@ == probe_from(old(self)@, t@, from as int),
    {
        proof {
            lemma_list_len(&self.queue);
        }
        let mut n: usize = from;
        let ghost c = self@;
        while n < self.queue.len()
            invariant
                self@ == c,
                old(self)@ == c,
                c.queue.len() == self.queue@.len(),
                from <= n <= self.queue@.len(),
                next_peer(c, t@, from as int) == next_peer(c, t@, n as int),
            decreases self.queue@.len() - n,
        {
            let out = contains_string(&t.pool, self.queue[n].as_str()) || text_eq(
                self.queue[n].as_str(),
                self.local.as_str(),
            );
            assert(out == exempt(c, t@, n as int));
            if !out {
                self.pos = n;
                self.stage = Stage::Probing;
                return;
            }
            n += 1;
        }
        self.go_watch(t, 0);
    }

    fn go_choose(&mut self, t: &RelayTables, peers: &PeerMap, best: Option<usize>, i: usize)
        requires
            peers.wf(),
            i <= t.pool@.len(),
            old(self)@.pos < old(self)@.queue.len(),
        ensures
            final(self)@ == choose_from(old(self)@, t@, peers@, best, i as int),
    {
        proof {
            lemma_list_len(&self.queue);
        }
        let n = next_relay_of(t, None, i);
        if n < t.pool.len() {
            self.stage = Stage::Choosing { next: n, best };
            return;
        }
        match best {
            Some(relay) => {
                let ips = get_original_ips_from_snapshot(peers, self.queue[self.pos].as_str());
                assert(ips.deep_view().len() == ips@.len());
                if ips.len() > 0 {
                    self.stage = Stage::Attaching { relay };
                    return;
                }
            },
            None => {},
        }
        self.go_probe(t, self.pos + 1);
    }

    fn go_move(&mut self, t: &mut RelayTables, at: usize, k: usize)
        requires
            old(t).wf(),
            at < old(t)@.pool.len(),
        ensures
            final(t).wf(),
            (final(self)@, final(t)@) == move_from(old(self)@, old(t)@, at, k as int),
    {
        proof {
            lemma_list_len(&self.moving);
            lemma_list_len(&t.pool);
        }
        if k < self.moving.len() {
            self.stage = Stage::Releasing { at, k };
        } else {
            let relay = t.pool[at].clone();
            let _ = t.load.remove(relay.as_str());
            self.go_watch(t, at + 1);
        }
    }

    fn go_rehome(&mut self, t: &mut RelayTables, at: usize, k: usize, best: Option<usize>, i: usize)
        requires
            old(t).wf(),
            at < old(t)@.pool.len(),
            i <= old(t)@.pool.len(),
            k < old(self)@.moving.len(),
        ensures
            final(t).wf(),
            (final(self)@, final(t)@) == rehome_from(
                old(self)@,
                old(t)@,
                at,
                k,
                best,
                i as int,
            ),
    {
        proof {
            lemma_list_len(&self.moving);
        }
        let n = next_relay_of(t, Some(at), i);
        if n < t.pool.len() {
            self.stage = Stage::Rehoming { at, k, next: n, best };
            return;
        }
        match best {
            Some(target) => {
                self.stage = Stage::Reattaching { at, k, target };
            },
            None => {
                self.go_move(t, at, k + 1);
            },
        }
    }

    fn settle(&mut self, t: &mut RelayTables)
        requires
            old(t).wf(),
            old(self)@.pos < old(self)@.queue.len(),
        ensures
            final(t).wf(),
            (final(self)@, final(t)@) == settled(old(self)@, old(t)@),
    {
        proof {
            lemma_list_len(&self.queue);
        }
        let peer = self.queue[self.pos].clone();
        zero(&mut t.fails, &peer);
        self.go_probe(t, self.pos + 1);
    }

    fn probed(&mut self, t: &mut RelayTables, peers: &PeerMap, alive: bool)
        requires
            old(t).wf(),
            room(old(t)@),
            peers.wf(),
            old(self)@.stage is Probing,
            old(self)@.pos < old(self)@.queue.len(),
        ensures
            final(t).wf(),
            (final(self)@, final(t)@) == relay_step(
                old(self)@,
                old(t)@,
                peers@,
                Told::Flag(alive),
            ),
    {
        proof {
            lemma_list_len(&self.queue);
        }
        let peer = self.queue[self.pos].clone();
        if !alive {
            raise(&mut t.fails, &peer);
            if count_of(&t.fails, peer.as_str()) >= RELAY_FAIL_COUNT_MAX && !t.assigned.contains(
                peer.as_str(),
            ) {
                self.go_choose(t, peers, None, 0);
            } else {
                self.go_probe(t, self.pos + 1);
            }
            return;
        }
        match t.assigned.remove(peer.as_str()) {
            Some(relay) => {
                self.former = relay;
                self.stage = Stage::Withdrawing;
            },
            None => {
                assert(t.assigned@ =~= old(t).assigned@);
                self.settle(t);
            },
        }
    }

    fn withdrawn(&mut self, t: &mut RelayTables, peers: &PeerMap)
        requires
            old(t).wf(),
            peers.wf(),
            old(self)@.stage is Withdrawing,
            old(self)@.pos < old(self)@.queue.len(),
        ensures
            final(t).wf(),
            forall|told: Told|
                (final(self)@, final(t)@) == #[trigger] relay_step(
                    old(self)@,
                    old(t)@,
                    peers@,
                    told,
                ),
    {
        proof {
            lemma_list_len(&self.queue);
        }
        let peer = self.queue[self.pos].clone();
        let still = match t.assigned.get(peer.as_str()) {
            Some(r) => text_eq(r.as_str(), self.former.as_str()),
            None => false,
        };
        if still {
            self.stage = Stage::Finished;
        } else if peers.contains(peer.as_str()) {
            self.stage = Stage::Restoring;
        } else {
            self.settle(t);
        }
    }

    fn restored(&mut self, t: &mut RelayTables, peers: &PeerMap, yes: bool)
        requires
            old(t).wf(),
            old(self)@.stage is Restoring,
            old(self)@.pos < old(self)@.queue.len(),
        ensures
            final(t).wf(),
            (final(self)@, final(t)@) == relay_step(old(self)@, old(t)@, peers@, Told::Flag(yes)),
    {
        if yes {
            let peer = self.queue[self.pos].clone();
            lower(&mut t.load, &self.former);
            let _ = t.fails.remove(peer.as_str());
        }
        self.settle(t);
    }

    fn bound_peer(&mut self, t: &mut RelayTables, relay: usize)
        requires
            old(t).wf(),
            room(old(t)@),
            old(self)@.stage == (Stage::Detaching { relay }),
            relay < old(t)@.pool.len(),
            old(self)@.pos < old(self)@.queue.len(),
        ensures
            final(t).wf(),
            forall|peers: Map<Text, PeerView>|
                (final(self)@, final(t)@) == #[trigger] relay_step(
                    old(self)@,
                    old(t)@,
                    peers,
                    Told::Flag(true),
                ),
    {
        proof {
            lemma_list_len(&self.queue);
        }
        let peer = self.queue[self.pos].clone();
        let name = t.pool[relay].clone();
        bind(t, &peer, &name);
        zero(&mut t.fails, &peer);
        self.go_probe(t, self.pos + 1);
    }

    /// What the check asks next.
    pub fn request(&self, t: &RelayTables, peers: &PeerMap) -> (r: Request)
        requires
            peers.wf(),
            check_wf(self@, t@, peers@),
        ensures
            r.deep_view() == relay_ask(self@, t@, peers@),
    {
        let max_age = RELAY_FAIL_THRESHOLD;
        match self.stage {
            Stage::Listing => Request::Handshakes,
            Stage::Probing => Request::Recent { pubkey: self.queue[self.pos].clone(), max_age },
            Stage::Choosing { next, .. } => Request::Recent {
                pubkey: t.pool[next].clone(),
                max_age,
            },
            Stage::Attaching { relay } => Request::AddIps {
                pubkey: t.pool[relay].clone(),
                ips: get_original_ips_from_snapshot(peers, self.queue[self.pos].as_str()),
            },
            Stage::Confirming { relay } => Request::Recent {
                pubkey: t.pool[relay].clone(),
                max_age,
            },
            Stage::Detaching { .. } => Request::RemovePeer { pubkey: self.queue[self.pos].clone() },
            Stage::Undoing { relay } => Request::RemoveIps {
                pubkey: t.pool[relay].clone(),
                ips: get_original_ips_from_snapshot(peers, self.queue[self.pos].as_str()),
            },
            Stage::Withdrawing => Request::RemoveIps {
                pubkey: self.former.clone(),
                ips: get_original_ips_from_snapshot(peers, self.queue[self.pos].as_str()),
            },
            Stage::Restoring => match peers.get(self.queue[self.pos].as_str()) {
                Some(p) => Request::UpdatePeer(update_from_peer(&self.queue[self.pos], p)),
                None => Request::Done,
            },
            Stage::Watching { at } => Request::Recent { pubkey: t.pool[at].clone(), max_age },
            Stage::Releasing { at, k } => Request::RemoveIps {
                pubkey: t.pool[at].clone(),
                ips: get_original_ips_from_snapshot(peers, self.moving[k].as_str()),
            },
            Stage::Rehoming { next, .. } => Request::Recent {
                pubkey: t.pool[next].clone(),
                max_age,
            },
            Stage::Reattaching { k, target, .. } => Request::AddIps {
                pubkey: t.pool[target].clone(),
                ips: get_original_ips_from_snapshot(peers, self.moving[k].as_str()),
            },
            Stage::Reconfirming { target, .. } => Request::Recent {
                pubkey: t.pool[target].clone(),
                max_age,
            },
            Stage::Unhoming { k, target, .. } => Request::RemoveIps {
                pubkey: t.pool[target].clone(),
                ips: get_original_ips_from_snapshot(peers, self.moving[k].as_str()),
            },
            Stage::Finished => Request::Done,
        }
    }

    /// Takes the answer to the last request and says what to ask next.
    pub fn step(&mut self, t: &mut RelayTables, peers: &PeerMap, answer: Answer) -> (r: Request)
        requires
            old(t).wf(),
            room(old(t)@),
            peers.wf(),
            check_wf(old(self)@, old(t)@, peers@),
            fits(relay_ask(old(self)@, old(t)@, peers@), answer.deep_view()),
        ensures
            final(t).wf(),
            (final(self)@, final(t)@) == relay_step(
                old(self)@,
                old(t)@,
                peers@,
                answer.deep_view(),
            ),
            check_wf(final(self)@, final(t)@, peers@),
            r.deep_view() == relay_ask(final(self)@, final(t)@, peers@),
    {
        proof {
            lemma_list_len(&self.queue);
            lemma_list_len(&self.moving);
            lemma_list_len(&t.pool);
        }
        match self.stage {
            Stage::Listing => {
                match answer.list() {
                    Some(keys) => {
                        self.queue = keys;
                        self.go_probe(t, 0);
                    },
                    None => {
                        self.stage = Stage::Finished;
                    },
                }
            },
            Stage::Probing => {
                self.probed(t, peers, answer.flag());
            },
            Stage::Choosing { next, best } => {
                let best = if answer.flag() {
                    better_of(t, best, next)
                } else {
                    best
                };
                self.go_choose(t, peers, best, next + 1);
            },
            Stage::Attaching { relay } => {
                if !answer.flag() {
                    self.go_probe(t, self.pos + 1);
                } else if t.assigned.contains(self.queue[self.pos].as_str()) {
                    self.stage = Stage::Undoing { relay };
                } else {
                    self.stage = Stage::Confirming { relay };
                }
            },
            Stage::Confirming { relay } => {
                self.stage = if answer.flag() {
                    Stage::Detaching { relay }
                } else {
                    Stage::Undoing { relay }
                };
            },
            Stage::Detaching { relay } => {
                if answer.flag() {
                    self.bound_peer(t, relay);
                } else {
                    self.stage = Stage::Undoing { relay };
                }
            },
            Stage::Undoing { .. } => {
                self.go_probe(t, self.pos + 1);
            },
            Stage::Withdrawing => {
                self.withdrawn(t, peers);
            },
            Stage::Restoring => {
                self.restored(t, peers, answer.flag());
            },
            Stage::Watching { at } => {
                if answer.flag() {
                    self.go_watch(t, at + 1);
                } else {
                    self.moving = behind_of(t, &t.pool[at]);
                    self.go_move(t, at, 0);
                }
            },
            Stage::Releasing { at, k } => {
                self.go_rehome(t, at, k, None, 0);
            },
            Stage::Rehoming { at, k, next, best } => {
                let best = if answer.flag() {
                    better_of(t, best, next)
                } else {
                    best
                };
                self.go_rehome(t, at, k, best, next + 1);
            },
            Stage::Reattaching { at, k, target } => {
                if !answer.flag() {
                    self.go_move(t, at, k + 1);
                } else if is_bound_elsewhere(t, self.moving[k].as_str(), t.pool[at].as_str()) {
                    self.stage = Stage::Unhoming { at, k, target };
                } else {
                    self.stage = Stage::Reconfirming { at, k, target };
                }
            },
            Stage::Reconfirming { at, k, target } => {
                if answer.flag() {
                    let peer = self.moving[k].clone();
                    let name = t.pool[target].clone();
                    bind(t, &peer, &name);
                    self.go_move(t, at, k + 1);
                } else {
                    self.stage = Stage::Unhoming { at, k, target };
                }
            },
            Stage::Unhoming { at, k, .. } => {
                self.go_move(t, at, k + 1);
            },
            Stage::Finished => {},
        }
        proof {
            lemma_list_len(&self.queue);
            lemma_list_len(&self.moving);
            lemma_step_wf(old(self)@, old(t)@, peers@, answer.deep_view());
        }
        self.request(t, peers)
    }
}

proof fn lemma_probe_wf(c: CheckView, t: TablesView, peers: Map<Text, PeerView>, i: int)
    requires
        0 <= i <= c.queue.len() <= usize::MAX,
        t.pool.len() <= usize::MAX,
    ensures
        check_wf(probe_from(c, t, i), t, peers),
{
    lemma_next_peer(c, t, i);
}

proof fn lemma_step_wf(c: CheckView, t: TablesView, peers: Map<Text, PeerView>, told: Told)
    requires
        check_wf(c, t, peers),
        t.pool.len() <= usize::MAX,
        c.queue.len() <= usize::MAX,
        c.moving.len() <= usize::MAX,
        relay_step(c, t, peers, told).0.queue.len() <= usize::MAX,
        relay_step(c, t, peers, told).0.moving.len() <= usize::MAX,
    ensures
        check_wf(relay_step(c, t, peers, told).0, relay_step(c, t, peers, told).1, peers),
{
    let (d, u) = relay_step(c, t, peers, told);
    let p = c.pos + 1;
    match c.stage {
        Stage::Listing => {
            if let Told::List(Some(keys)) = told {
                let c1 = CheckView { queue: keys, ..c };
                lemma_next_peer(c1, t, 0);
                lemma_probe_wf(c1, t, peers, 0);
            }
        },
        Stage::Choosing { next, best } => {
            lemma_next_relay(t.pool, None, next + 1);
            lemma_probe_wf(c, t, peers, p);
        },
        Stage::Releasing { at, k } => {
            lemma_next_relay(t.pool, Some(t.pool[at as int]), 0);
        },
        Stage::Rehoming { at, k, next, best } => {
            lemma_next_relay(t.pool, Some(t.pool[at as int]), next + 1);
        },
        Stage::Probing => {
            lemma_next_relay(t.pool, None, 0);
            lemma_probe_wf(c, u, peers, p);
        },
        Stage::Watching { .. }
        | Stage::Unhoming { .. }
        | Stage::Reattaching { .. }
        | Stage::Reconfirming { .. }
        | Stage::Finished
        | Stage::Confirming { .. } => {},
        _ => {
            lemma_probe_wf(c, u, peers, p);
        },
    }
}

/// Starts the check of all peers and relays; without a snapshot or without relays there is nothing
/// to check.
pub fn check_and_apply_relay(
    t: &RelayTables,
    peers: &PeerMap,
    local_pubkey: &str,
) -> (r: RelayCheck)
    ensures
        r@ == (CheckView {
            local: local_pubkey@,
            queue: Seq::empty(),
            pos: 0,
            former: Seq::empty(),
            moving: Seq::empty(),
            stage: if peers.keys().len() == 0 || t@.pool.len() == 0 {
                Stage::Finished
            } else {
                Stage::Listing
            },
        }),
        check_wf(r@, t@, peers@),
{
    let stage = if peers.is_empty() || t.pool.len() == 0 {
        Stage::Finished
    } else {
        Stage::Listing
    };
    let r = RelayCheck {
        local: local_pubkey.to_owned(),
        queue: Vec::new(),
        pos: 0,
        former: String::new(),
        moving: Vec::new(),
        stage,
    };
    assert(r.queue.deep_view() =~= Seq::<Text>::empty());
    assert(r.moving.deep_view() =~= Seq::<Text>::empty());
    assert(r.former@ =~= Seq::<char>::empty());
    r
}

} // verus!
