//! Changing the listen port: when the network is lost, or from time to time.
use vstd::prelude::*;

use crate::lan::{endpoint_in_nets, is_endpoint_in_nets, nets_wf, Net};
use crate::model::{fits, Answer, Ask, Request, Told};
use crate::number::read_u16;
use crate::text::{lemma_list_len, Text};
use crate::wg::port_number;

verus! {

/// A peer without a handshake for so many seconds counts as lost.
pub const NO_HANDSHAKE_THRESHOLD: u64 = 180;

/// The port changes of so many nanoseconds are counted.
pub const PORT_CHANGE_LIMIT_WINDOW: u128 = 3_600_000_000_000;

/// So many port changes are allowed among those that are counted.
pub const MAX_PORT_CHANGES_PER_WINDOW: usize = 3;

/// So many nanoseconds have to lie between two port changes.
pub const PORT_CHANGE_GAP: u128 = 1_200_000_000_000;

/// The lowest port that is chosen, where none is set.
pub const DEFAULT_PORT_MIN: u16 = 1024;

/// The highest port that is chosen, where none is set.
pub const DEFAULT_PORT_MAX: u16 = 65535;

// ---------- The range of ports ----------

/// The port that is set, or the default.
pub open spec fn port_or(env: Option<Text>, default: u16) -> nat {
    match port_number(env) {
        Some(p) => p,
        None => default as nat,
    }
}

/// The range that a new port is chosen from: as set by `WG_PORT_MIN` and `WG_PORT_MAX`, or the
/// default range where that would be empty.
pub open spec fn port_range(min: Option<Text>, max: Option<Text>) -> (nat, nat) {
    let low = port_or(min, DEFAULT_PORT_MIN);
    let high = port_or(max, DEFAULT_PORT_MAX);
    if low <= high {
        (low, high)
    } else {
        (DEFAULT_PORT_MIN as nat, DEFAULT_PORT_MAX as nat)
    }
}

fn port_or_of(env: &Option<String>, default: u16) -> (r: u16)
    ensures
        r == port_or(env.deep_view(), default),
{
    if let Some(text) = env {
        if let Some(p) = read_u16(text.as_str()) {
            return p;
        }
    }
    default
}

/// The range that a new port is chosen from.
pub fn port_change_range(min: &Option<String>, max: &Option<String>) -> (r: (u16, u16))
    ensures
        r.0 <= r.1,
        (r.0 as nat, r.1 as nat) == port_range(min.deep_view(), max.deep_view()),
{
    let low = port_or_of(min, DEFAULT_PORT_MIN);
    let high = port_or_of(max, DEFAULT_PORT_MAX);
    if low <= high {
        (low, high)
    } else {
        (DEFAULT_PORT_MIN, DEFAULT_PORT_MAX)
    }
}

/// `Rng::gen_range` of the `rand` crate on an inclusive range: some number in it. Which one is left
/// to chance.
#[verifier::external_body]
fn rand_gen_range(low: u16, high: u16) -> (r: u16)
    requires
        low <= high,
    ensures
        low <= r <= high,
{
    rand::Rng::gen_range(&mut rand::thread_rng(), low..=high)
}

/// Chooses a port of the range at random.
pub fn random_port(low: u16, high: u16) -> (r: u16)
    requires
        low <= high,
    ensures
        low <= r <= high,
{
    rand_gen_range(low, high)
}

// ---------- How often ports may change ----------

/// The changes that still count: the earliest ones that lie further back than the window do not.
pub open spec fn counted(history: Seq<u128>, now: u128) -> Seq<u128>
    decreases history.len(),
{
    if history.len() > 0 && now - history[0] > PORT_CHANGE_LIMIT_WINDOW {
        counted(history.drop_first(), now)
    } else {
        history
    }
}

/// Whether another change is allowed after those that count.
pub open spec fn allowed(history: Seq<u128>, now: u128) -> bool {
    &&& history.len() < MAX_PORT_CHANGES_PER_WINDOW
    &&& history.len() > 0 ==> now - history.last() >= PORT_CHANGE_GAP
}

fn forget_old(history: &mut Vec<u128>, now: u128)
    ensures
        final(history)@ == counted(old(history)@, now),
{
    let ghost all = history@;
    while history.len() > 0 && history[0] <= now && now - history[0] > PORT_CHANGE_LIMIT_WINDOW
        invariant
            counted(all, now) == counted(history@, now),
        decreases history.len(),
    {
        let ghost before = history@;
        let _ = history.remove(0);
        assert(history@ =~= before.drop_first());
    }
}

fn is_allowed(history: &Vec<u128>, now: u128) -> (r: bool)
    ensures
        r == allowed(history@, now),
{
    if history.len() >= MAX_PORT_CHANGES_PER_WINDOW {
        return false;
    }
    if history.len() > 0 {
        let last = history[history.len() - 1];
        if now < last || now - last < PORT_CHANGE_GAP {
            return false;
        }
    }
    true
}

// ---------- The steps ----------

/// Where a port change stands.
#[derive(Clone, Copy)]
pub enum PortStage {
    /// Waiting for the peers.
    Listing,
    /// Waiting to hear whether a peer shook hands lately.
    Probing { i: usize },
    /// Waiting for the peers once more, to see who is in the local network.
    Relisting,
    /// Waiting for the endpoint of a peer.
    Locating { i: usize },
    /// Waiting for the port to be set.
    Setting { port: u16, at: u128 },
    /// It is over.
    Over,
}

/// A port change under way.
pub struct PortChange {
    force: bool,
    queue: Vec<String>,
    stage: PortStage,
}

/// The contents of a [`PortChange`].
pub struct PortView {
    /// Whether the port is changed though peers are there.
    pub force: bool,
    /// The peers to look at.
    pub queue: Seq<Text>,
    pub stage: PortStage,
}

impl View for PortChange {
    type V = PortView;

    closed spec fn view(&self) -> PortView {
        PortView { force: self.force, queue: self.queue.deep_view(), stage: self.stage }
    }
}

/// What a port change asks next.
pub open spec fn port_ask(v: PortView) -> Ask {
    match v.stage {
        PortStage::Listing | PortStage::Relisting => Ask::Peers,
        PortStage::Probing { i } => Ask::Recent {
            pubkey: v.queue[i as int],
            max_age: NO_HANDSHAKE_THRESHOLD,
        },
        PortStage::Locating { i } => Ask::Endpoint { pubkey: v.queue[i as int] },
        PortStage::Setting { port, .. } => Ask::SetListenPort { port },
        PortStage::Over => Ask::Done,
    }
}

/// The decision: the port is changed if this is allowed, counting the changes made lately.
pub open spec fn decide(v: PortView, history: Seq<u128>, now: u128, port: u16) -> (
    PortView,
    Seq<u128>,
) {
    let h = counted(history, now);
    (
        PortView {
            stage: if allowed(h, now) {
                PortStage::Setting { port, at: now }
            } else {
                PortStage::Over
            },
            ..v
        },
        h,
    )
}

/// Where an answer takes a port change, and what it makes of the history of changes. Unless forced,
/// the port is left alone while a peer shook hands lately or has an endpoint in a local network.
pub open spec fn port_step(
    v: PortView,
    history: Seq<u128>,
    nets: Seq<Net>,
    told: Told,
    now: u128,
    port: u16,
) -> (PortView, Seq<u128>) {
    let over = PortView { stage: PortStage::Over, ..v };
    match v.stage {
        PortStage::Listing => match told {
            Told::List(Some(peers)) => if peers.len() == 0 {
                (over, history)
            } else if v.force {
                decide(PortView { queue: peers, ..v }, history, now, port)
            } else {
                (PortView { queue: peers, stage: PortStage::Probing { i: 0 }, ..v }, history)
            },
            _ => (over, history),
        },
        PortStage::Probing { i } => if told == Told::Flag(true) {
            (over, history)
        } else if i + 1 < v.queue.len() {
            (PortView { stage: PortStage::Probing { i: (i + 1) as usize }, ..v }, history)
        } else {
            (PortView { stage: PortStage::Relisting, ..v }, history)
        },
        PortStage::Relisting => match told {
            Told::List(Some(peers)) => if nets.len() == 0 || peers.len() == 0 {
                decide(v, history, now, port)
            } else {
                (PortView { queue: peers, stage: PortStage::Locating { i: 0 }, ..v }, history)
            },
            _ => decide(v, history, now, port),
        },
        PortStage::Locating { i } => if told matches Told::Text(Some(ep)) && endpoint_in_nets(
            ep,
            nets,
        ) {
            (over, history)
        } else if i + 1 < v.queue.len() {
            (PortView { stage: PortStage::Locating { i: (i + 1) as usize }, ..v }, history)
        } else {
            decide(v, history, now, port)
        },
        PortStage::Setting { at, .. } => (
            over,
            if told == Told::Flag(true) {
                history.push(at)
            } else {
                history
            },
        ),
        PortStage::Over => (v, history),
    }
}

/// The peers that a port change refers to exist.
pub open spec fn port_wf(v: PortView) -> bool {
    match v.stage {
        PortStage::Probing { i } | PortStage::Locating { i } => i < v.queue.len(),
        _ => true,
    }
}

/// Starts to change the listen port, if need be or, with `force`, in any case.
pub fn try_change_port(force: bool) -> (r: PortChange)
    ensures
        r@.force == force,
        r@.queue == Seq::<Text>::empty(),
        r@.stage is Listing,
        port_wf(r@),
{
    let queue: Vec<String> = Vec::new();
    assert(queue.deep_view() =~= Seq::<Text>::empty());
    PortChange { force, queue, stage: PortStage::Listing }
}

/// Starts to change the listen port if the network is lost.
pub fn check_and_maybe_change_listen_port() -> (r: PortChange)
    ensures
        !r@.force,
        r@.queue == Seq::<Text>::empty(),
        r@.stage is Listing,
        port_wf(r@),
{
    try_change_port(false)
}

impl PortChange {
    /// What the port change asks next.
    pub fn request(&self) -> (r: Request)
        requires
            port_wf(self@),
        ensures
            r.deep_view() == port_ask(self@),
    {
        proof {
            lemma_list_len(&self.queue);
        }
        match self.stage {
            PortStage::Listing => Request::Peers,
            PortStage::Relisting => Request::Peers,
            PortStage::Probing { i } => Request::Recent {
                pubkey: self.queue[i].clone(),
                max_age: NO_HANDSHAKE_THRESHOLD,
            },
            PortStage::Locating { i } => Request::Endpoint { pubkey: self.queue[i].clone() },
            PortStage::Setting { port, .. } => Request::SetListenPort { port },
            PortStage::Over => Request::Done,
        }
    }

    fn settle(&mut self, history: &mut Vec<u128>, now: u128, port: u16)
        ensures
            (final(self)@, final(history)@) == decide(old(self)@, old(history)@, now, port),
    {
        forget_old(history, now);
        self.stage = if is_allowed(history, now) {
            PortStage::Setting { port, at: now }
        } else {
            PortStage::Over
        };
    }

    /// Takes the answer to the last request, with the port that was chosen at random, and says what
    /// to ask next.
    pub fn step_with_port(
        &mut self,
        history: &mut Vec<u128>,
        my_nets: &Vec<Net>,
        answer: Answer,
        now: u128,
        port: u16,
    ) -> (r: Request)
        requires
            port_wf(old(self)@),
            nets_wf(my_nets@),
            fits(port_ask(old(self)@), answer.deep_view()),
        ensures
            (final(self)@, final(history)@) == port_step(
                old(self)@,
                old(history)@,
                my_nets@,
                answer.deep_view(),
                now,
                port,
            ),
            port_wf(final(self)@),
            r.deep_view() == port_ask(final(self)@),
    {
        proof {
            lemma_list_len(&self.queue);
        }
        match self.stage {
            PortStage::Listing => {
                match answer.list() {
                    Some(peers) => {
                        proof {
                            lemma_list_len(&peers);
                        }
                        if peers.len() == 0 {
                            self.stage = PortStage::Over;
                        } else {
                            self.queue = peers;
                            if self.force {
                                self.settle(history, now, port);
                            } else {
                                self.stage = PortStage::Probing { i: 0 };
                            }
                        }
                    },
                    None => {
                        self.stage = PortStage::Over;
                    },
                }
            },
            PortStage::Probing { i } => {
                self.stage = if answer.flag() {
                    PortStage::Over
                } else if i + 1 < self.queue.len() {
                    PortStage::Probing { i: i + 1 }
                } else {
                    PortStage::Relisting
                };
            },
            PortStage::Relisting => {
                match answer.list() {
                    Some(peers) => {
                        proof {
                            lemma_list_len(&peers);
                        }
                        if my_nets.len() == 0 || peers.len() == 0 {
                            self.settle(history, now, port);
                        } else {
                            self.queue = peers;
                            self.stage = PortStage::Locating { i: 0 };
                        }
                    },
                    None => {
                        self.settle(history, now, port);
                    },
                }
            },
            PortStage::Locating { i } => {
                let near = match answer.text() {
                    Some(ep) => is_endpoint_in_nets(ep.as_str(), my_nets),
                    None => false,
                };
                if near {
                    self.stage = PortStage::Over;
                } else if i + 1 < self.queue.len() {
                    self.stage = PortStage::Locating { i: i + 1 };
                } else {
                    self.settle(history, now, port);
                }
            },
            PortStage::Setting { at, .. } => {
                if answer.flag() {
                    history.push(at);
                }
                self.stage = PortStage::Over;
            },
            PortStage::Over => {},
        }
        proof {
            lemma_list_len(&self.queue);
        }
        self.request()
    }

    /// Takes the answer to the last request and says what to ask next; a new port is one of the
    /// range, chosen at random.
    pub fn step(
        &mut self,
        history: &mut Vec<u128>,
        my_nets: &Vec<Net>,
        answer: Answer,
        now: u128,
        range: (u16, u16),
    ) -> (r: Request)
        requires
            port_wf(old(self)@),
            nets_wf(my_nets@),
            fits(port_ask(old(self)@), answer.deep_view()),
            range.0 <= range.1,
        ensures
            exists|port: u16|
                range.0 <= port <= range.1 && (final(self)@, final(history)@)
                    == #[trigger] port_step(
                    old(self)@,
                    old(history)@,
                    my_nets@,
                    answer.deep_view(),
                    now,
                    port,
                ),
            port_wf(final(self)@),
            r.deep_view() == port_ask(final(self)@),
    {
        let port = random_port(range.0, range.1);
        self.step_with_port(history, my_nets, answer, now, port)
    }
}

// ---------- Laws ----------

/// What holds of the record of changes, `log` being all changes ever made: it holds the latest
/// ones, and those it lacks lie further back than the window.
pub open spec fn recorded(history: Seq<u128>, log: Seq<u128>, now: u128) -> bool {
    &&& history.len() <= log.len()
    &&& history == log.skip(log.len() - history.len())
    &&& forall|i: int|
        0 <= i < log.len() - history.len() ==> now - #[trigger] log[i] > PORT_CHANGE_LIMIT_WINDOW
    &&& forall|i: int| 0 <= i < log.len() ==> #[trigger] log[i] <= now
}

proof fn lemma_counted(history: Seq<u128>, log: Seq<u128>, now: u128)
    requires
        recorded(history, log, now),
    ensures
        recorded(counted(history, now), log, now),
    decreases history.len(),
{
    if history.len() > 0 && now - history[0] > PORT_CHANGE_LIMIT_WINDOW {
        let k = log.len() - history.len();
        assert(history[0] == log[k]);
        assert(history.drop_first() =~= log.skip(k + 1));
        lemma_counted(history.drop_first(), log, now);
    }
}

/// The port changes no more often than is allowed: a new change comes long enough after the last
/// one, and the one before the two last lies further back than the window. The record stays true.
pub proof fn law_port_changes_are_rare(history: Seq<u128>, log: Seq<u128>, now: u128)
    requires
        recorded(history, log, now),
        allowed(counted(history, now), now),
    ensures
        log.len() >= 1 ==> now - log.last() >= PORT_CHANGE_GAP,
        log.len() >= 3 ==> now - log[log.len() - 3] > PORT_CHANGE_LIMIT_WINDOW,
        recorded(counted(history, now).push(now), log.push(now), now),
{
    lemma_counted(history, log, now);
    let h = counted(history, now);
    let k = log.len() - h.len();
    assert(h.push(now) =~= log.push(now).skip(k));
    if log.len() >= 1 {
        if h.len() > 0 {
            assert(h.last() == log.last());
        } else {
            assert(log.last() == log[log.len() - 1]);
        }
    }
}

/// A record that is true now is true later.
pub proof fn law_record_of_changes_lasts(
    history: Seq<u128>,
    log: Seq<u128>,
    now: u128,
    later: u128,
)
    requires
        recorded(history, log, now),
        now <= later,
    ensures
        recorded(history, log, later),
        recorded(counted(history, later), log, later),
{
    lemma_counted(history, log, later);
}

/// Unless forced, the port is left alone as soon as a peer is heard of or is found in a local
/// network, and in any case where there are no peers.
pub proof fn law_port_is_left_alone(
    v: PortView,
    history: Seq<u128>,
    nets: Seq<Net>,
    told: Told,
    now: u128,
    port: u16,
)
    requires
        port_wf(v),
        ({
            ||| v.stage is Listing && told !is List
            ||| v.stage is Listing && told == Told::List(None::<Seq<Text>>)
            ||| v.stage is Listing && told == Told::List(Some(Seq::<Text>::empty()))
            ||| v.stage is Probing && told == Told::Flag(true)
            ||| v.stage is Locating && (told matches Told::Text(Some(ep)) && endpoint_in_nets(
                ep,
                nets,
            ))
        }),
    ensures
        port_ask(port_step(v, history, nets, told, now, port).0) == Ask::Done,
        port_step(v, history, nets, told, now, port).1 == history,
{
}

/// A change is recorded exactly if the port was set.
pub proof fn law_only_made_changes_count(
    v: PortView,
    history: Seq<u128>,
    nets: Seq<Net>,
    told: Told,
    now: u128,
    port: u16,
)
    requires
        v.stage is Setting,
    ensures
        port_step(v, history, nets, told, now, port).1 == if told == Told::Flag(true) {
            history.push(v.stage->Setting_at)
        } else {
            history
        },
{
}

/// How far a port change is from its end: the part of it, and the peers that are left in that part.
pub open spec fn port_left(v: PortView) -> (int, int) {
    match v.stage {
        PortStage::Listing => (5, 0),
        PortStage::Probing { i } => (4, v.queue.len() - i),
        PortStage::Relisting => (3, 0),
        PortStage::Locating { i } => (2, v.queue.len() - i),
        PortStage::Setting { .. } => (1, 0),
        PortStage::Over => (0, 0),
    }
}

/// Every answer brings a port change nearer to its end.
pub proof fn law_port_change_ends(
    v: PortView,
    history: Seq<u128>,
    nets: Seq<Net>,
    told: Told,
    now: u128,
    port: u16,
)
    requires
        port_wf(v),
        v.stage !is Over,
        v.queue.len() <= usize::MAX,
    ensures
        ({
            let a = port_left(port_step(v, history, nets, told, now, port).0);
            let b = port_left(v);
            0 <= a.0 < b.0 || (a.0 == b.0 && 0 <= a.1 < b.1)
        }),
        port_wf(port_step(v, history, nets, told, now, port).0),
{
}

} // verus!
