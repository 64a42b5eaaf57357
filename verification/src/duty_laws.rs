//! What holds of the agent's recurring duties: when they are due, what they ask for, and that none
//! is left undone.
use vstd::prelude::*;

use crate::config::{elapsed, longer_delay, seconds_or, value_or};
use crate::lan::{endpoint_in_nets, Net};
use crate::model::{
    psk_meant, update_from, Ask, NodeStatus, PeerView, PskView, RegistrationState, Told, UpdateView,
};
use crate::number::{decimal, parse_unsigned};
use crate::output_laws::law_number_is_read_in_full;
use crate::port::{
    allowed, counted, decide, port_ask, port_range, port_step, port_wf, PortStage, PortView,
};
use crate::register::{
    register_ask, register_step, retried, retry_due, RegisterRequest, RegisterRetry, RegisterStage,
};
use crate::retry::{
    due, due_len, retry_ask, retry_from, retry_step, taken, tried, RetryView, RunView,
};
use crate::schedule::{after_job, following, job_due, next_due, Features, Job, Schedule};
use crate::text::Text;
use crate::traffic::{line_of, lines_of_report, totals, LineView};
use crate::wg_state::PeerStateView;

verus! {

// ---------- Changing the port ----------

/// The range for new ports is what is set, each end up to the greatest port, and the whole range of
/// free ports where an end is not set; where the ends are the wrong way round, neither counts.
pub proof fn law_port_ranges(a: u16, b: u16, min: Option<Text>, max: Option<Text>)
    ensures
        a <= b ==> port_range(Some(decimal(a as nat)), Some(decimal(b as nat))) == (
            a as nat,
            b as nat,
        ),
        a > b ==> port_range(Some(decimal(a as nat)), Some(decimal(b as nat))) == (1024nat, 65535nat),
        port_range(None, None) == (1024nat, 65535nat),
        port_range(Some(decimal(a as nat)), None) == (a as nat, 65535nat),
        b >= 1024 ==> port_range(None, Some(decimal(b as nat))) == (1024nat, b as nat),
        port_range(min, max).0 <= port_range(min, max).1 <= 65535,
{
    law_number_is_read_in_full(a as nat, u16::MAX as nat);
    law_number_is_read_in_full(b as nat, u16::MAX as nat);
}

/// Of the changes that were made, in their order, those of the last hour count, and no other.
pub proof fn law_changes_of_the_last_hour_count(history: Seq<u128>, now: u128) -> (k: int)
    ensures
        0 <= k <= history.len(),
        counted(history, now) == history.skip(k),
        forall|i: int| 0 <= i < k ==> now - #[trigger] history[i] > 3_600_000_000_000,
        k < history.len() ==> now - history[k] <= 3_600_000_000_000,
    decreases history.len(),
{
    if history.len() > 0 && now - history[0] > 3_600_000_000_000 {
        let rest = history.drop_first();
        let k = law_changes_of_the_last_hour_count(rest, now);
        assert(rest.skip(k) =~= history.skip(k + 1));
        assert forall|i: int| 0 <= i < k + 1 implies now - #[trigger] history[i]
            > 3_600_000_000_000 by {
            if i > 0 {
                assert(rest[i - 1] == history[i]);
            }
        }
        k + 1
    } else {
        assert(history.skip(0) =~= history);
        0
    }
}

/// Whether times follow each other.
pub open spec fn in_time_order(history: Seq<u128>) -> bool {
    forall|i: int, j: int| 0 <= i <= j < history.len() ==> #[trigger] history[i] <= #[trigger] history[j]
}

/// A change is allowed exactly if the last one lies twenty minutes back or more, and the third last
/// one more than an hour.
pub proof fn law_when_a_change_is_allowed(history: Seq<u128>, now: u128)
    requires
        in_time_order(history),
    ensures
        ({
            let n = history.len();
            let gap = n == 0 || now - history[n - 1] >= 1_200_000_000_000;
            let few = n < 3 || now - history[n - 3] > 3_600_000_000_000;
            allowed(counted(history, now), now) <==> gap && few
        }),
{
    let k = law_changes_of_the_last_hour_count(history, now);
    let h = counted(history, now);
    let n = history.len() as int;
    assert(h.len() == n - k);
    if h.len() > 0 {
        assert(h.last() == history[n - 1]);
    } else if n > 0 {
        assert(now - history[n - 1] > 3_600_000_000_000);
    }
    if n >= 3 {
        if n - 3 < k {
            assert(now - history[n - 3] > 3_600_000_000_000);
        } else {
            assert(history[k] <= history[n - 3]);
        }
    }
}

/// The port is changed to the one that was chosen where a change is allowed, and else it is left
/// alone; the changes that no longer count are forgotten.
pub proof fn law_port_decision(v: PortView, history: Seq<u128>, now: u128, port: u16)
    ensures
        ({
            let (w, h) = decide(v, history, now, port);
            &&& h == counted(history, now)
            &&& allowed(h, now) ==> port_ask(w) == Ask::SetListenPort { port }
            &&& allowed(h, now) ==> (w.stage matches PortStage::Setting { at, .. } && at == now)
            &&& !allowed(h, now) ==> w.stage is Over
        }),
{
}

/// A lost network has the port changed: each peer in turn is asked for a handshake within three
/// minutes; where all are silent, the peers are listed once more, and each in turn is asked for its
/// endpoint, unless this node is in no local network or there is no peer; where none is in a local
/// network, the decision is taken. A change that is forced is decided on at once, where there are
/// peers.
pub proof fn law_lost_network_leads_to_a_decision(
    v: PortView,
    history: Seq<u128>,
    nets: Seq<Net>,
    now: u128,
    port: u16,
    peers: Seq<Text>,
    ep: Option<Text>,
)
    requires
        port_wf(v),
        v.queue.len() <= usize::MAX,
    ensures
        v.stage is Listing && peers.len() > 0 ==> {
            let (w, h) = port_step(v, history, nets, Told::List(Some(peers)), now, port);
            &&& v.force ==> w.stage == decide(v, history, now, port).0.stage && h == counted(
                history,
                now,
            )
            &&& !v.force ==> port_ask(w) == Ask::Recent { pubkey: peers[0], max_age: 180 } && h
                == history && w.queue == peers
        },
        v.stage matches PortStage::Probing { i } ==> {
            let (w, h) = port_step(v, history, nets, Told::Flag(false), now, port);
            &&& h == history
            &&& w.queue == v.queue
            &&& i + 1 < v.queue.len() ==> port_ask(w) == Ask::Recent {
                pubkey: v.queue[i + 1],
                max_age: 180,
            }
            &&& i + 1 == v.queue.len() ==> w.stage is Relisting && port_ask(w) == Ask::Peers
        },
        v.stage is Relisting ==> {
            let (w, h) = port_step(v, history, nets, Told::List(Some(peers)), now, port);
            let unknown = port_step(v, history, nets, Told::List(None), now, port);
            &&& nets.len() > 0 && peers.len() > 0 ==> port_ask(w) == Ask::Endpoint {
                pubkey: peers[0],
            } && h == history && w.queue == peers
            &&& nets.len() == 0 || peers.len() == 0 ==> (w, h) == decide(v, history, now, port)
            &&& unknown == decide(v, history, now, port)
        },
        v.stage matches PortStage::Locating { i } ==> {
            let (w, h) = port_step(v, history, nets, Told::Text(ep), now, port);
            ep is None || !endpoint_in_nets(ep->0, nets) ==> {
                &&& i + 1 < v.queue.len() ==> port_ask(w) == Ask::Endpoint {
                    pubkey: v.queue[i + 1],
                } && h == history && w.queue == v.queue
                &&& i + 1 == v.queue.len() ==> (w, h) == decide(v, history, now, port)
            }
        },
{
}

// ---------- Failed updates ----------

/// The waiting times before an update is tried again: one second, two, four, eight, and then
/// sixteen.
pub proof fn law_waiting_times(t: RetryView, now: u128)
    ensures
        t.retry_count == 0 ==> (due(t, now) <==> now - t.last_attempt >= 1_000_000_000),
        t.retry_count == 1 ==> (due(t, now) <==> now - t.last_attempt >= 2_000_000_000),
        t.retry_count == 2 ==> (due(t, now) <==> now - t.last_attempt >= 4_000_000_000),
        t.retry_count == 3 ==> (due(t, now) <==> now - t.last_attempt >= 8_000_000_000),
        t.retry_count >= 4 ==> (due(t, now) <==> now - t.last_attempt >= 16_000_000_000),
{
    vstd::arithmetic::power2::lemma2_to64();
}

/// All the updates at the head of the queue that are due are taken, up to the first that is not, in
/// their order and with all their fields; each counts one attempt more, at this time.
pub proof fn law_all_due_updates_are_taken(queue: Seq<RetryView>, now: u128)
    ensures
        ({
            let n = due_len(queue, now);
            &&& n <= queue.len()
            &&& n < queue.len() ==> !due(queue[n as int], now)
            &&& forall|i: int| 0 <= i < n ==> due(#[trigger] queue[i], now)
            &&& taken(queue, now).len() == n
            &&& forall|i: int|
                0 <= i < n ==> {
                    let t = #[trigger] taken(queue, now)[i];
                    &&& t.pubkey == queue[i].pubkey
                    &&& t.endpoint == queue[i].endpoint
                    &&& t.allowed_ips == queue[i].allowed_ips
                    &&& t.persistent_keepalive == queue[i].persistent_keepalive
                    &&& t.preshared_key == queue[i].preshared_key
                    &&& t.last_attempt == now
                    &&& queue[i].retry_count < u32::MAX ==> t.retry_count == queue[i].retry_count
                        + 1
                }
        }),
{
    lemma_due_head(queue, now);
    let n = due_len(queue, now);
    assert forall|i: int| 0 <= i < n implies #[trigger] taken(queue, now)[i] == tried(
        queue[i],
        now,
    ) by {
        assert(queue.take(n as int)[i] == queue[i]);
    }
}

proof fn lemma_due_head(queue: Seq<RetryView>, now: u128)
    ensures
        due_len(queue, now) <= queue.len(),
        due_len(queue, now) < queue.len() ==> !due(queue[due_len(queue, now) as int], now),
        forall|i: int| 0 <= i < due_len(queue, now) ==> due(#[trigger] queue[i], now),
    decreases queue.len(),
{
    if queue.len() > 0 && due(queue[0], now) {
        let rest = queue.drop_first();
        lemma_due_head(rest, now);
        let m = due_len(rest, now);
        assert(due_len(queue, now) == 1 + m);
        if m < rest.len() {
            assert(rest[m as int] == queue[m as int + 1]);
        }
        assert forall|i: int| 0 <= i < due_len(queue, now) implies due(#[trigger] queue[i], now) by {
            if i > 0 {
                assert(rest[i - 1] == queue[i]);
            }
        }
    }
}

/// An update is tried again with all its fields: without an endpoint at once, and with one after the
/// question for the peer's current endpoint and, if it has one, the question whether that is in use
/// over the local network, in which case it is kept.
pub proof fn law_retried_update_is_whole(
    todo: Seq<RetryView>,
    queue: Seq<RetryView>,
    current: Text,
)
    requires
        todo.len() > 0,
    ensures
        ({
            let t = todo[0];
            let v = retry_from(todo);
            let keepalive = match t.persistent_keepalive {
                Some(k) => Some(k as u64),
                None => None,
            };
            let plain = UpdateView {
                pubkey: t.pubkey,
                endpoint: t.endpoint,
                allowed_ips: t.allowed_ips,
                persistent_keepalive: keepalive,
                preshared_key: t.preshared_key,
            };
            let kept = UpdateView { endpoint: Some(current), ..plain };
            if t.endpoint is None {
                retry_ask(v) == Ask::UpdatePeer(plain)
            } else {
                let unknown = retry_step(v, queue, Told::Text(None));
                let known = retry_step(v, queue, Told::Text(Some(current)));
                let near = retry_step(known.0, queue, Told::Flag(true));
                let far = retry_step(known.0, queue, Told::Flag(false));
                &&& retry_ask(v) == Ask::Endpoint { pubkey: t.pubkey }
                &&& retry_ask(unknown.0) == Ask::UpdatePeer(plain)
                &&& retry_ask(known.0) == Ask::LanActive { pubkey: t.pubkey, endpoint: current }
                &&& retry_ask(near.0) == Ask::UpdatePeer(kept)
                &&& retry_ask(far.0) == Ask::UpdatePeer(plain)
                &&& unknown.1 == queue && known.1 == queue && near.1 == queue && far.1 == queue
            }
        }),
{
}

/// An update that was made is done with; one that failed goes back to the end of the queue as it is,
/// unless it was tried five times. Either way the next one comes, and after the last the round is
/// over.
pub proof fn law_failed_update_goes_back(v: RunView, queue: Seq<RetryView>, told: Told)
    requires
        v.stage is Updating,
        v.todo.len() > 0,
    ensures
        ({
            let (w, q) = retry_step(v, queue, told);
            &&& w == retry_from(v.todo.skip(1))
            &&& w.stage is Over <==> v.todo.len() == 1
            &&& told == Told::Flag(true) ==> q == queue
            &&& told != Told::Flag(true) && v.todo[0].retry_count < 5 ==> q == queue.push(v.todo[0])
            &&& told != Told::Flag(true) && v.todo[0].retry_count >= 5 ==> q == queue
        }),
{
}

// ---------- Registration ----------

/// It is time to register again if this is wanted at once, or the interval has gone by; after that
/// it is wanted no longer, and the time counts from then on.
pub proof fn law_when_to_register(r: RegisterRetry, now: u128)
    ensures
        r.force ==> retry_due(r, now),
        now >= r.last_attempt + r.interval ==> retry_due(r, now),
        !r.force && r.interval > 0 && now < r.last_attempt + r.interval ==> !retry_due(r, now),
        retried(r, now).last_attempt == now,
        retried(r, now).interval == r.interval,
        !retried(r, now).force,
{
}

/// A registration is published until it succeeds, five times at most, with five seconds between; a
/// success makes it one in progress, and nothing else changes this node's status.
pub proof fn law_registration_steps(attempt: u32, status: NodeStatus)
    requires
        1 <= attempt <= 5,
    ensures
        ({
            let now = RegisterStage::Publishing { attempt };
            let (sent, s) = register_step(now, status, true);
            let (again, t) = register_step(now, status, false);
            &&& register_ask(now) == RegisterRequest::Publish
            &&& register_ask(sent) == (RegisterRequest::Over { sent: true })
            &&& s.registration == RegistrationState::InProgress
            &&& s.configured == status.configured
            &&& t == status
            &&& attempt < 5 ==> {
                &&& register_ask(again) == (RegisterRequest::Pause { secs: 5 })
                &&& register_step(again, status, true) == (
                    RegisterStage::Publishing { attempt: (attempt + 1) as u32 },
                    status,
                )
                &&& register_step(again, status, false) == (
                    RegisterStage::Publishing { attempt: (attempt + 1) as u32 },
                    status,
                )
            }
            &&& attempt == 5 ==> register_ask(again) == (RegisterRequest::Over { sent: false })
        }),
{
}

/// No attempt comes after the fifth: a pause after it, were there one, would give up. Once it is
/// over, it stays over.
pub proof fn law_no_attempt_after_the_last(stage: RegisterStage, status: NodeStatus, ok: bool)
    ensures
        stage matches RegisterStage::Pausing { attempt } ==> if attempt < 5 {
            register_step(stage, status, ok).0 == (RegisterStage::Publishing {
                attempt: (attempt + 1) as u32,
            })
        } else {
            register_step(stage, status, ok).0 is GivenUp
        },
        stage is Sent ==> register_step(stage, status, ok) == (stage, status),
        stage is GivenUp ==> register_step(stage, status, ok) == (stage, status),
{
}

// ---------- The turns ----------

/// When each job is due, in seconds since it was done last: every second the switched peers, every
/// two seconds the failed updates, every minute the network, every half minute the traffic, and the
/// port as often as is set, on a node with a tunnel. A node that is not registered registers when it
/// is time for it, and a message is always waited for.
pub proof fn law_when_jobs_are_due(
    s: Schedule,
    f: Features,
    status: NodeStatus,
    retry: RegisterRetry,
    now: u128,
)
    ensures
        job_due(s, f, status, retry, Job::Register, now) <==> status.registration
            != RegistrationState::Registered && retry_due(retry, now),
        job_due(s, f, status, retry, Job::LanRound, now) <==> now - s.lan_round >= 1_000_000_000,
        job_due(s, f, status, retry, Job::RetryRound, now) <==> now - s.retry_round
            >= 2_000_000_000,
        job_due(s, f, status, retry, Job::NetworkCheck, now) <==> now - s.network_check
            >= 60_000_000_000,
        job_due(s, f, status, retry, Job::TrafficReport, now) <==> f.traffic_report && now
            - s.traffic_report >= 30_000_000_000,
        f.scheduled_interval > 0 ==> (job_due(s, f, status, retry, Job::PortChange, now)
            <==> f.scheduled_change && status.configured && now - s.port_change
            >= f.scheduled_interval * 1_000_000_000),
        job_due(s, f, status, retry, Job::Receive, now),
{
}

/// The jobs of a turn come in this order, each one that is due, and after the message a new turn
/// begins.
pub proof fn law_order_of_jobs(
    s: Schedule,
    f: Features,
    status: NodeStatus,
    retry: RegisterRetry,
    job: Job,
    now: u128,
)
    ensures
        following(Job::Register) == Job::LanRound,
        following(Job::LanRound) == Job::RetryRound,
        following(Job::RetryRound) == Job::NetworkCheck,
        following(Job::NetworkCheck) == Job::PortChange,
        following(Job::PortChange) == Job::TrafficReport,
        following(Job::TrafficReport) == Job::Receive,
        following(Job::Receive) == Job::Register,
        job_due(s, f, status, retry, job, now) ==> next_due(s, f, status, retry, job, now) == job,
        !job_due(s, f, status, retry, job, now) ==> next_due(s, f, status, retry, job, now)
            == next_due(s, f, status, retry, following(job), now),
{
}

/// Doing a job sets its own time and no other.
pub proof fn law_done_job_is_noted(s: Schedule, now: u128)
    ensures
        after_job(s, Job::LanRound, now) == (Schedule { lan_round: now, ..s }),
        after_job(s, Job::RetryRound, now) == (Schedule { retry_round: now, ..s }),
        after_job(s, Job::NetworkCheck, now) == (Schedule { network_check: now, ..s }),
        after_job(s, Job::PortChange, now) == (Schedule { port_change: now, ..s }),
        after_job(s, Job::TrafficReport, now) == (Schedule { traffic_report: now, ..s }),
        after_job(s, Job::Register, now) == s,
        after_job(s, Job::Receive, now) == s,
{
}

// ---------- Settings ----------

/// So many seconds have gone by exactly from then on.
pub proof fn law_time_goes_by(since: u128, now: u128, secs: u64)
    ensures
        secs > 0 ==> (elapsed(since, now, secs) <==> now >= since + secs * 1_000_000_000),
        elapsed(since, now, 0),
{
}

/// The waiting time before connecting again doubles up to thirty seconds, and is a minute from then
/// on.
pub proof fn law_reconnect_delay_doubles(secs: u64)
    ensures
        secs <= 30 ==> longer_delay(secs) == 2 * secs,
        secs > 30 ==> longer_delay(secs) == 60,
{
}

/// What is set counts, and the default only where nothing is, or no number.
pub proof fn law_settings(v: Text, n: u64, default: u64, text: Text)
    ensures
        value_or(Some(v), text) == v,
        value_or(None, text) == text,
        seconds_or(Some(decimal(n as nat)), default) == n,
        seconds_or(None, default) == default,
        parse_unsigned(v, u64::MAX as nat) is None ==> seconds_or(Some(v), default) == default,
{
    law_number_is_read_in_full(n as nat, u64::MAX as nat);
}

/// An absent preshared key leaves the current one alone, null asks for it to be cleared, and a text
/// is the key; an update made from a snapshot holds everything that it says of the peer.
pub proof fn law_update_holds_the_snapshot(pubkey: Text, p: PeerView)
    ensures
        psk_meant(PskView::Missing) is None,
        psk_meant(PskView::Null) == Some(Seq::<char>::empty()),
        forall|k: Text| #[trigger] psk_meant(PskView::Key(k)) == Some(k),
        ({
            let u = update_from(pubkey, p);
            &&& u.pubkey == pubkey
            &&& u.endpoint == p.endpoint
            &&& u.allowed_ips == p.allowed_ips
            &&& u.preshared_key == psk_meant(p.preshared_key)
            &&& p.persistent_keepalive is None ==> u.persistent_keepalive is None
            &&& p.persistent_keepalive is Some ==> u.persistent_keepalive is Some
                && u.persistent_keepalive->0 == p.persistent_keepalive->0
        }),
{
}

// ---------- Traffic ----------

/// A line of a report tells a peer's counters, and what came since the last report: the difference,
/// or the whole counter where it was started anew or the peer was not there.
pub proof fn law_report_line(last: Map<Text, (u64, u64)>, pubkey: Text, p: PeerStateView)
    ensures
        ({
            let line = line_of(last, pubkey, p);
            let (rx, tx) = last[pubkey];
            &&& line.pubkey == pubkey
            &&& line.rx_total == p.transfer_rx
            &&& line.tx_total == p.transfer_tx
            &&& last.contains_key(pubkey) && p.transfer_rx >= rx ==> line.rx_bytes
                == p.transfer_rx - rx
            &&& last.contains_key(pubkey) && p.transfer_tx >= tx ==> line.tx_bytes
                == p.transfer_tx - tx
            &&& !last.contains_key(pubkey) || p.transfer_rx < rx ==> line.rx_bytes
                == p.transfer_rx
            &&& !last.contains_key(pubkey) || p.transfer_tx < tx ==> line.tx_bytes
                == p.transfer_tx
        }),
{
}

/// A report has a line for each peer that received or sent anything, in the order of the walk.
pub proof fn law_every_peer_with_traffic_is_reported(
    last: Map<Text, (u64, u64)>,
    keys: Seq<Text>,
    peers: Map<Text, PeerStateView>,
    pubkey: Text,
)
    ensures
        lines_of_report(last, keys.push(pubkey), peers) == if peers[pubkey].transfer_rx > 0
            || peers[pubkey].transfer_tx > 0 {
            lines_of_report(last, keys, peers).push(line_of(last, pubkey, peers[pubkey]))
        } else {
            lines_of_report(last, keys, peers)
        },
        lines_of_report(last, Seq::empty(), peers) == Seq::<LineView>::empty(),
        totals(peers).contains_key(pubkey) <==> peers.contains_key(pubkey),
        peers.contains_key(pubkey) ==> totals(peers)[pubkey] == (
            peers[pubkey].transfer_rx,
            peers[pubkey].transfer_tx,
        ),
{
    assert(keys.push(pubkey).drop_last() =~= keys);
}

} // verus!
