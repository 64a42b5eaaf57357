//! Traffic reports: how much each peer sent and received since the last report.
use vstd::prelude::*;

use crate::strmap::StrMap;
use crate::text::Text;
use crate::wg_state::{PeerStateView, WgState};

verus! {

/// The totals of each peer at the last report: bytes received and sent.
pub type TrafficSnapshot = StrMap<(u64, u64)>;

/// One peer's part of a report.
pub struct TrafficLine {
    pub pubkey: String,
    /// Bytes received and sent since the last report.
    pub rx_bytes: u64,
    pub tx_bytes: u64,
    /// Bytes received and sent in all.
    pub rx_total: u64,
    pub tx_total: u64,
}

/// The contents of a [`TrafficLine`].
pub struct LineView {
    pub pubkey: Text,
    pub rx_bytes: u64,
    pub tx_bytes: u64,
    pub rx_total: u64,
    pub tx_total: u64,
}

impl DeepView for TrafficLine {
    type V = LineView;

    open spec fn deep_view(&self) -> LineView {
        LineView {
            pubkey: self.pubkey@,
            rx_bytes: self.rx_bytes,
            tx_bytes: self.tx_bytes,
            rx_total: self.rx_total,
            tx_total: self.tx_total,
        }
    }
}

/// A report of this node's traffic.
pub struct TrafficReport {
    /// In seconds since 1970.
    pub timestamp: u64,
    /// The public key of this node.
    pub node: String,
    pub peers: Vec<TrafficLine>,
}

/// What came since the last report; a counter that fell was started anew.
pub open spec fn gain(last: u64, now: u64) -> u64 {
    if now >= last {
        (now - last) as u64
    } else {
        now
    }
}

/// The totals at the last report, zero for a peer that was not there.
pub open spec fn reported(last: Map<Text, (u64, u64)>, pubkey: Text) -> (u64, u64) {
    if last.contains_key(pubkey) {
        last[pubkey]
    } else {
        (0, 0)
    }
}

/// A peer's line.
pub open spec fn line_of(last: Map<Text, (u64, u64)>, pubkey: Text, p: PeerStateView) -> LineView {
    LineView {
        pubkey,
        rx_bytes: gain(reported(last, pubkey).0, p.transfer_rx),
        tx_bytes: gain(reported(last, pubkey).1, p.transfer_tx),
        rx_total: p.transfer_rx,
        tx_total: p.transfer_tx,
    }
}

/// The lines of a report, one for each peer with any traffic.
pub open spec fn lines_of_report(
    last: Map<Text, (u64, u64)>,
    keys: Seq<Text>,
    peers: Map<Text, PeerStateView>,
) -> Seq<LineView>
    decreases keys.len(),
{
    if keys.len() == 0 {
        Seq::empty()
    } else {
        let front = lines_of_report(last, keys.drop_last(), peers);
        let p = peers[keys.last()];
        if p.transfer_rx > 0 || p.transfer_tx > 0 {
            front.push(line_of(last, keys.last(), p))
        } else {
            front
        }
    }
}

/// The totals of all peers.
pub open spec fn totals(peers: Map<Text, PeerStateView>) -> Map<Text, (u64, u64)> {
    peers.map_values(|p: PeerStateView| (p.transfer_rx, p.transfer_tx))
}

fn gain_of(last: u64, now: u64) -> (r: u64)
    ensures
        r == gain(last, now),
{
    if now >= last {
        now - last
    } else {
        now
    }
}

/// Makes the report that is due, if any peer has had traffic, and remembers the totals it tells.
pub fn try_report_traffic(
    snapshot: &mut TrafficSnapshot,
    local_pubkey: &str,
    state: &WgState,
    now_secs: u64,
) -> (r: Option<TrafficReport>)
    requires
        old(snapshot).wf(),
        state.peers.wf(),
    ensures
        final(snapshot).wf(),
        final(snapshot)@ == totals(state.peers@),
        ({
            let lines = lines_of_report(old(snapshot)@, state.peers.keys(), state.peers@);
            match r {
                Some(report) => {
                    &&& lines.len() > 0
                    &&& report.timestamp == now_secs
                    &&& report.node@ == local_pubkey@
                    &&& report.peers.deep_view() == lines
                },
                None => lines.len() == 0,
            }
        }),
{
    let mut lines: Vec<TrafficLine> = Vec::new();
    let mut now: TrafficSnapshot = StrMap::new();
    let ghost keys = state.peers.keys();
    let ghost last = snapshot@;
    let mut i: usize = 0;
    assert(lines.deep_view() =~= lines_of_report(last, keys.take(0), state.peers@));
    proof {
        state.peers.lemma_keys();
    }
    while i < state.peers.len()
        invariant
            state.peers.wf(),
            snapshot.wf(),
            snapshot@ == last,
            keys == state.peers.keys(),
            keys.no_duplicates(),
            i <= keys.len(),
            now.wf(),
            forall|k: Text| #[trigger] now@.contains_key(k) <==> keys.take(i as int).contains(k),
            forall|k: Text| #[trigger]
                now@.contains_key(k) ==> now@[k] == totals(state.peers@)[k],
            lines.deep_view() == lines_of_report(last, keys.take(i as int), state.peers@),
        decreases keys.len() - i,
    {
        let p = state.peers.value_at(i);
        let key = state.peers.key_at(i);
        let (last_rx, last_tx) = match snapshot.get(key.as_str()) {
            Some(t) => (t.0, t.1),
            None => (0, 0),
        };
        let ghost before = lines.deep_view();
        let ghost map = now@;
        proof {
            assert(keys.take(i + 1).drop_last() =~= keys.take(i as int));
            assert(keys.take(i + 1) =~= keys.take(i as int).push(keys[i as int]));
        }
        now.insert(key.clone(), (p.transfer_rx, p.transfer_tx));
        proof {
            let next = keys.take(i + 1);
            assert forall|k: Text| #[trigger] now@.contains_key(k) <==> next.contains(k) by {
                if k == keys[i as int] {
                    assert(next[i as int] == k);
                } else {
                    if keys.take(i as int).contains(k) {
                        let j = keys.take(i as int).index_of(k);
                        assert(next[j] == k);
                    }
                    if next.contains(k) {
                        let j = next.index_of(k);
                        assert(keys.take(i as int)[j] == k);
                    }
                    assert(map.contains_key(k) == now@.contains_key(k));
                }
            }
        }
        if p.transfer_rx > 0 || p.transfer_tx > 0 {
            lines.push(
                TrafficLine {
                    pubkey: key.clone(),
                    rx_bytes: gain_of(last_rx, p.transfer_rx),
                    tx_bytes: gain_of(last_tx, p.transfer_tx),
                    rx_total: p.transfer_rx,
                    tx_total: p.transfer_tx,
                },
            );
            assert(lines.deep_view() =~= before.push(
                line_of(last, keys[i as int], state.peers@[keys[i as int]]),
            ));
        }
        i += 1;
    }
    proof {
        assert(keys.take(keys.len() as int) =~= keys);
        assert(now@ =~= totals(state.peers@));
        assert(lines.deep_view().len() == lines@.len());
    }
    *snapshot = now;
    if lines.len() == 0 {
        return None;
    }
    Some(TrafficReport { timestamp: now_secs, node: local_pubkey.to_owned(), peers: lines })
}

// ---------- Laws ----------

proof fn lemma_lines(
    last: Map<Text, (u64, u64)>,
    keys: Seq<Text>,
    peers: Map<Text, PeerStateView>,
    i: int,
)
    requires
        0 <= i < lines_of_report(last, keys, peers).len(),
    ensures
        exists|k: Text|
            #[trigger] keys.contains(k) && lines_of_report(last, keys, peers)[i] == line_of(
                last,
                k,
                peers[k],
            ),
    decreases keys.len(),
{
    let front = lines_of_report(last, keys.drop_last(), peers);
    if i < front.len() {
        lemma_lines(last, keys.drop_last(), peers, i);
        let k = choose|k: Text| #[trigger]
            keys.drop_last().contains(k) && front[i] == line_of(last, k, peers[k]);
        let j = keys.drop_last().index_of(k);
        assert(keys[j] == k);
        assert(keys.contains(k));
    } else {
        assert(keys.contains(keys.last()));
    }
}

/// A second report on an unchanged interface tells the same totals and no gain at all.
pub proof fn law_no_gain_without_traffic(
    last: Map<Text, (u64, u64)>,
    keys: Seq<Text>,
    peers: Map<Text, PeerStateView>,
    i: int,
)
    requires
        forall|k: Text| #[trigger] keys.contains(k) ==> peers.contains_key(k),
        0 <= i < lines_of_report(totals(peers), keys, peers).len(),
    ensures
        lines_of_report(totals(peers), keys, peers).len() == lines_of_report(
            last,
            keys,
            peers,
        ).len(),
        lines_of_report(totals(peers), keys, peers)[i].rx_bytes == 0,
        lines_of_report(totals(peers), keys, peers)[i].tx_bytes == 0,
        lines_of_report(totals(peers), keys, peers)[i].rx_total == lines_of_report(
            last,
            keys,
            peers,
        )[i].rx_total,
        lines_of_report(totals(peers), keys, peers)[i].tx_total == lines_of_report(
            last,
            keys,
            peers,
        )[i].tx_total,
{
    lemma_lines(totals(peers), keys, peers, i);
    lemma_same_totals(last, totals(peers), keys, peers);
}

proof fn lemma_same_totals(
    a: Map<Text, (u64, u64)>,
    b: Map<Text, (u64, u64)>,
    keys: Seq<Text>,
    peers: Map<Text, PeerStateView>,
)
    ensures
        lines_of_report(a, keys, peers).len() == lines_of_report(b, keys, peers).len(),
        forall|i: int|
            0 <= i < lines_of_report(a, keys, peers).len() ==> {
                let x = #[trigger] lines_of_report(a, keys, peers)[i];
                let y = lines_of_report(b, keys, peers)[i];
                x.pubkey == y.pubkey && x.rx_total == y.rx_total && x.tx_total == y.tx_total
            },
    decreases keys.len(),
{
    if keys.len() > 0 {
        lemma_same_totals(a, b, keys.drop_last(), peers);
        let x = lines_of_report(a, keys.drop_last(), peers);
        let y = lines_of_report(b, keys.drop_last(), peers);
        assert forall|i: int| 0 <= i < lines_of_report(a, keys, peers).len() implies {
            let x = #[trigger] lines_of_report(a, keys, peers)[i];
            let y = lines_of_report(b, keys, peers)[i];
            x.pubkey == y.pubkey && x.rx_total == y.rx_total && x.tx_total == y.tx_total
        } by {
            if i < x.len() {
                assert(lines_of_report(a, keys, peers)[i] == x[i]);
                assert(lines_of_report(b, keys, peers)[i] == y[i]);
            }
        }
    }
}

/// Whether a report has exactly one line for a peer, at place `i`.
pub open spec fn only_line(lines: Seq<LineView>, pubkey: Text, i: int) -> bool {
    &&& 0 <= i < lines.len()
    &&& lines[i].pubkey == pubkey
    &&& forall|j: int| 0 <= j < lines.len() && #[trigger] lines[j].pubkey == pubkey ==> j == i
}

/// A peer with traffic has exactly one line in a report, which tells its totals and its gains since
/// the last one. The place of the line is returned.
pub proof fn law_one_line_for_each_peer(
    last: Map<Text, (u64, u64)>,
    keys: Seq<Text>,
    peers: Map<Text, PeerStateView>,
    pubkey: Text,
) -> (i: int)
    requires
        keys.no_duplicates(),
        keys.contains(pubkey),
        peers[pubkey].transfer_rx > 0 || peers[pubkey].transfer_tx > 0,
    ensures
        only_line(lines_of_report(last, keys, peers), pubkey, i),
        lines_of_report(last, keys, peers)[i] == line_of(last, pubkey, peers[pubkey]),
    decreases keys.len(),
{
    let front = keys.drop_last();
    let some = lines_of_report(last, front, peers);
    let all = lines_of_report(last, keys, peers);
    if keys.last() == pubkey {
        assert(!front.contains(pubkey));
        assert forall|j: int| 0 <= j < all.len() && #[trigger] all[j].pubkey == pubkey implies j
            == some.len() by {
            if j < some.len() {
                lemma_lines(last, front, peers, j);
                assert(all[j] == some[j]);
            }
        }
        some.len() as int
    } else {
        let k = keys.index_of(pubkey);
        assert(front[k] == pubkey);
        let i = law_one_line_for_each_peer(last, front, peers, pubkey);
        assert(all[i] == some[i]);
        assert forall|j: int| 0 <= j < all.len() && #[trigger] all[j].pubkey == pubkey implies j
            == i by {
            if j < some.len() {
                assert(some[j].pubkey == pubkey);
            }
        }
        i
    }
}

/// A peer without any traffic, and one that the interface lacks, has no line in a report.
pub proof fn law_no_line_without_traffic(
    last: Map<Text, (u64, u64)>,
    keys: Seq<Text>,
    peers: Map<Text, PeerStateView>,
    pubkey: Text,
    i: int,
)
    requires
        !keys.contains(pubkey) || (peers[pubkey].transfer_rx == 0 && peers[pubkey].transfer_tx
            == 0),
        0 <= i < lines_of_report(last, keys, peers).len(),
    ensures
        lines_of_report(last, keys, peers)[i].pubkey != pubkey,
    decreases keys.len(),
{
    let front = keys.drop_last();
    let some = lines_of_report(last, front, peers);
    if front.contains(pubkey) {
        assert(keys[front.index_of(pubkey)] == pubkey);
    }
    if i < some.len() {
        law_no_line_without_traffic(last, front, peers, pubkey, i);
    } else {
        assert(keys[keys.len() - 1] == keys.last());
    }
}

// ---------- A run of reports ----------

/// The interface at a report: the peers in the order in which they are walked, and their counters.
pub struct ReportedState {
    pub keys: Seq<Text>,
    pub peers: Map<Text, PeerStateView>,
}

/// The lines of the `n`-th of a run of reports. Before the first one the totals were `first`;
/// after that they are those that the report before told.
pub open spec fn lines_in_run(
    first: Map<Text, (u64, u64)>,
    states: Seq<ReportedState>,
    n: int,
) -> Seq<LineView> {
    lines_of_report(
        if n == 0 {
            first
        } else {
            totals(states[n - 1].peers)
        },
        states[n].keys,
        states[n].peers,
    )
}

/// The line of a peer in a report.
pub open spec fn line_for(lines: Seq<LineView>, pubkey: Text) -> LineView {
    lines[choose|i: int| only_line(lines, pubkey, i)]
}

/// The gains, received and sent, that the reports of a run after the first one tell of a peer.
pub open spec fn told_gains(
    first: Map<Text, (u64, u64)>,
    states: Seq<ReportedState>,
    pubkey: Text,
) -> (int, int)
    decreases states.len(),
{
    if states.len() < 2 {
        (0, 0)
    } else {
        let (rx, tx) = told_gains(first, states.drop_last(), pubkey);
        let line = line_for(lines_in_run(first, states, states.len() - 1), pubkey);
        (rx + line.rx_bytes, tx + line.tx_bytes)
    }
}

/// Whether a peer is there with traffic at every report of a run, and its counters never fall.
pub open spec fn grows(states: Seq<ReportedState>, pubkey: Text) -> bool {
    &&& forall|n: int|
        0 <= n < states.len() ==> {
            &&& (#[trigger] states[n]).keys.no_duplicates()
            &&& states[n].keys.contains(pubkey)
            &&& states[n].peers.contains_key(pubkey)
            &&& states[n].peers[pubkey].transfer_rx > 0 || states[n].peers[pubkey].transfer_tx > 0
        }
    &&& forall|m: int, n: int|
        0 <= m <= n < states.len() ==> {
            &&& (#[trigger] states[m]).peers[pubkey].transfer_rx <= (
            #[trigger] states[n]).peers[pubkey].transfer_rx
            &&& states[m].peers[pubkey].transfer_tx <= states[n].peers[pubkey].transfer_tx
        }
}

proof fn lemma_line_in_run(
    first: Map<Text, (u64, u64)>,
    states: Seq<ReportedState>,
    pubkey: Text,
    n: int,
)
    requires
        grows(states, pubkey),
        0 <= n < states.len(),
    ensures
        ({
            let lines = lines_in_run(first, states, n);
            let line = line_for(lines, pubkey);
            &&& exists|i: int| #[trigger] only_line(lines, pubkey, i)
            &&& line.pubkey == pubkey
            &&& line.rx_total == states[n].peers[pubkey].transfer_rx
            &&& line.tx_total == states[n].peers[pubkey].transfer_tx
            &&& n > 0 ==> line.rx_bytes == states[n].peers[pubkey].transfer_rx - states[n
                - 1].peers[pubkey].transfer_rx
            &&& n > 0 ==> line.tx_bytes == states[n].peers[pubkey].transfer_tx - states[n
                - 1].peers[pubkey].transfer_tx
        }),
{
    let last = if n == 0 {
        first
    } else {
        totals(states[n - 1].peers)
    };
    let i = law_one_line_for_each_peer(last, states[n].keys, states[n].peers, pubkey);
    let lines = lines_in_run(first, states, n);
    assert(only_line(lines, pubkey, i));
    let j = choose|j: int| only_line(lines, pubkey, j);
    assert(lines[j].pubkey == pubkey);
    assert(j == i);
    if n > 0 {
        assert(states[n - 1].peers.contains_key(pubkey));
        assert(states[n - 1].peers[pubkey].transfer_rx <= states[n].peers[pubkey].transfer_rx);
    }
}

/// No byte is lost and none is told twice: a peer whose counters never fall has exactly one line in
/// every report of a run, which tells its counters, and the gains that the reports tell after the
/// first one add up to how much the counters grew.
pub proof fn law_reports_add_up(
    first: Map<Text, (u64, u64)>,
    states: Seq<ReportedState>,
    pubkey: Text,
)
    requires
        states.len() > 0,
        grows(states, pubkey),
    ensures
        forall|n: int|
            0 <= n < states.len() ==> {
                let lines = #[trigger] lines_in_run(first, states, n);
                let line = line_for(lines, pubkey);
                &&& exists|i: int| #[trigger] only_line(lines, pubkey, i)
                &&& line.pubkey == pubkey
                &&& line.rx_total == states[n].peers[pubkey].transfer_rx
                &&& line.tx_total == states[n].peers[pubkey].transfer_tx
            },
        told_gains(first, states, pubkey).0 == states.last().peers[pubkey].transfer_rx
            - states[0].peers[pubkey].transfer_rx,
        told_gains(first, states, pubkey).1 == states.last().peers[pubkey].transfer_tx
            - states[0].peers[pubkey].transfer_tx,
    decreases states.len(),
{
    assert forall|n: int| 0 <= n < states.len() implies {
        let lines = #[trigger] lines_in_run(first, states, n);
        let line = line_for(lines, pubkey);
        &&& exists|i: int| #[trigger] only_line(lines, pubkey, i)
        &&& line.pubkey == pubkey
        &&& line.rx_total == states[n].peers[pubkey].transfer_rx
        &&& line.tx_total == states[n].peers[pubkey].transfer_tx
    } by {
        lemma_line_in_run(first, states, pubkey, n);
    }
    if states.len() >= 2 {
        let front = states.drop_last();
        assert forall|n: int| 0 <= n < front.len() implies #[trigger] front[n] == states[n] by {}
        law_reports_add_up(first, front, pubkey);
        lemma_line_in_run(first, states, pubkey, states.len() - 1);
        assert(front.last() == states[states.len() - 2]);
    }
}

} // verus!
