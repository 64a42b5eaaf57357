//! Peer updates that failed and are tried again, less and less often.
use vstd::prelude::*;

use crate::model::{
    fits, widen, widened, Answer, Ask, PeerUpdate, Request, Told, UpdateView,
};
use crate::text::{copy_opt, copy_opt_list, Text};
use vstd::arithmetic::power2::pow2;

verus! {

/// An update is tried so many times at most.
pub const DEFAULT_MAX_RETRY_ATTEMPTS: u32 = 5;

/// A second in nanoseconds.
pub const SECOND: u128 = 1_000_000_000;

/// An update to try again. Times are in nanoseconds of a clock that only goes forward.
pub struct RetryTask {
    pub pubkey: String,
    pub endpoint: Option<String>,
    pub allowed_ips: Option<Vec<String>>,
    pub persistent_keepalive: Option<u16>,
    pub preshared_key: Option<String>,
    /// How often it was tried again.
    pub retry_count: u32,
    pub last_attempt: u128,
}

/// The contents of a [`RetryTask`].
pub struct RetryView {
    pub pubkey: Text,
    pub endpoint: Option<Text>,
    pub allowed_ips: Option<Seq<Text>>,
    pub persistent_keepalive: Option<u16>,
    pub preshared_key: Option<Text>,
    pub retry_count: u32,
    pub last_attempt: u128,
}

impl DeepView for RetryTask {
    type V = RetryView;

    open spec fn deep_view(&self) -> RetryView {
        RetryView {
            pubkey: self.pubkey@,
            endpoint: self.endpoint.deep_view(),
            allowed_ips: self.allowed_ips.deep_view(),
            persistent_keepalive: self.persistent_keepalive,
            preshared_key: self.preshared_key.deep_view(),
            retry_count: self.retry_count,
            last_attempt: self.last_attempt,
        }
    }
}

/// How many seconds an update waits before it is tried again: one at first, twice as many after
/// each further attempt, sixteen at most.
pub open spec fn backoff(retry_count: u32) -> nat {
    pow2(
        if retry_count < 4 {
            retry_count as nat
        } else {
            4
        },
    )
}

impl RetryTask {
    pub fn new(
        pubkey: String,
        endpoint: Option<String>,
        allowed_ips: Option<Vec<String>>,
        persistent_keepalive: Option<u16>,
        preshared_key: Option<String>,
        now: u128,
    ) -> (r: Self)
        ensures
            r.deep_view() == (RetryView {
                pubkey: pubkey@,
                endpoint: endpoint.deep_view(),
                allowed_ips: allowed_ips.deep_view(),
                persistent_keepalive,
                preshared_key: preshared_key.deep_view(),
                retry_count: 0,
                last_attempt: now,
            }),
    {
        RetryTask {
            pubkey,
            endpoint,
            allowed_ips,
            persistent_keepalive,
            preshared_key,
            retry_count: 0,
            last_attempt: now,
        }
    }

    /// How many seconds the update waits before it is tried again.
    pub fn next_interval(&self) -> (r: u64)
        ensures
            r == backoff(self.retry_count),
            1 <= r <= 16,
    {
        proof {
            vstd::arithmetic::power2::lemma2_to64();
        }
        match self.retry_count {
            0 => 1,
            1 => 2,
            2 => 4,
            3 => 8,
            _ => 16,
        }
    }
}

// ---------- Which updates are due ----------

/// Whether an update has waited long enough.
pub open spec fn due(t: RetryView, now: u128) -> bool {
    now - t.last_attempt >= backoff(t.retry_count) * SECOND
}

/// How many updates at the head of the queue are due.
pub open spec fn due_len(queue: Seq<RetryView>, now: u128) -> nat
    decreases queue.len(),
{
    if queue.len() > 0 && due(queue[0], now) {
        1 + due_len(queue.drop_first(), now)
    } else {
        0
    }
}

/// An update that is being tried again.
pub open spec fn tried(t: RetryView, now: u128) -> RetryView {
    RetryView { retry_count: (t.retry_count + 1) as u32, last_attempt: now, ..t }
}

/// The updates to try again now.
pub open spec fn taken(queue: Seq<RetryView>, now: u128) -> Seq<RetryView> {
    queue.take(due_len(queue, now) as int).map_values(|t: RetryView| tried(t, now))
}

/// No update of a queue was tried as often as is allowed.
pub open spec fn queue_wf(queue: Seq<RetryView>) -> bool {
    forall|i: int|
        0 <= i < queue.len() ==> (#[trigger] queue[i]).retry_count < DEFAULT_MAX_RETRY_ATTEMPTS
}

proof fn lemma_due_len(queue: Seq<RetryView>, now: u128)
    ensures
        due_len(queue, now) <= queue.len(),
    decreases queue.len(),
{
    if queue.len() > 0 && due(queue[0], now) {
        lemma_due_len(queue.drop_first(), now);
    }
}

fn is_due(t: &RetryTask, now: u128) -> (r: bool)
    ensures
        r == due(t.deep_view(), now),
{
    let wait: u128 = t.next_interval() as u128 * SECOND;
    now >= t.last_attempt && now - t.last_attempt >= wait
}

// ---------- The steps ----------

/// Where a round of attempts stands.
#[derive(Clone, Copy)]
pub enum RetryStage {
    /// Waiting for the current endpoint of the peer at hand.
    Asking,
    /// Waiting to hear whether it is in use over the local network.
    Comparing,
    /// Waiting for it to be updated.
    Updating,
    /// The round is over.
    Over,
}

/// A round of attempts.
pub struct RetryRun {
    todo: Vec<RetryTask>,
    current: Option<String>,
    stage: RetryStage,
}

/// The contents of a [`RetryRun`].
pub struct RunView {
    /// The updates that are left; the first one is at hand.
    pub todo: Seq<RetryView>,
    /// The endpoint to keep or to set for the peer at hand.
    pub current: Option<Text>,
    pub stage: RetryStage,
}

impl View for RetryRun {
    type V = RunView;

    closed spec fn view(&self) -> RunView {
        RunView {
            todo: self.todo.deep_view(),
            current: self.current.deep_view(),
            stage: self.stage,
        }
    }
}

/// Going on with the updates that are left.
pub open spec fn retry_from(todo: Seq<RetryView>) -> RunView {
    RunView {
        todo,
        current: None,
        stage: if todo.len() == 0 {
            RetryStage::Over
        } else if todo[0].endpoint is Some {
            RetryStage::Asking
        } else {
            RetryStage::Updating
        },
    }
}

/// What a round asks next.
pub open spec fn retry_ask(v: RunView) -> Ask {
    let t = v.todo[0];
    match v.stage {
        RetryStage::Asking => Ask::Endpoint { pubkey: t.pubkey },
        RetryStage::Comparing => Ask::LanActive { pubkey: t.pubkey, endpoint: v.current->0 },
        RetryStage::Updating => Ask::UpdatePeer(
            UpdateView {
                pubkey: t.pubkey,
                endpoint: v.current,
                allowed_ips: t.allowed_ips,
                persistent_keepalive: widened(t.persistent_keepalive),
                preshared_key: t.preshared_key,
            },
        ),
        RetryStage::Over => Ask::Done,
    }
}

/// Where an answer takes a round, and what it makes of the queue. The endpoint of a peer that is in
/// use over the local network is kept; an update that fails again goes back to the end of the queue
/// unless it was tried too often.
pub open spec fn retry_step(v: RunView, queue: Seq<RetryView>, told: Told) -> (
    RunView,
    Seq<RetryView>,
) {
    let t = v.todo[0];
    match v.stage {
        RetryStage::Asking => match told {
            Told::Text(Some(ep)) => (
                RunView { current: Some(ep), stage: RetryStage::Comparing, ..v },
                queue,
            ),
            _ => (RunView { current: t.endpoint, stage: RetryStage::Updating, ..v }, queue),
        },
        RetryStage::Comparing => (
            RunView {
                current: if told == Told::Flag(true) {
                    v.current
                } else {
                    t.endpoint
                },
                stage: RetryStage::Updating,
                ..v
            },
            queue,
        ),
        RetryStage::Updating => (
            retry_from(v.todo.skip(1)),
            if told != Told::Flag(true) && t.retry_count < DEFAULT_MAX_RETRY_ATTEMPTS {
                queue.push(t)
            } else {
                queue
            },
        ),
        RetryStage::Over => (v, queue),
    }
}

/// A round that is not over has an update at hand.
pub open spec fn retry_wf(v: RunView) -> bool {
    match v.stage {
        RetryStage::Asking | RetryStage::Updating => v.todo.len() > 0,
        RetryStage::Comparing => v.todo.len() > 0 && v.current is Some,
        RetryStage::Over => true,
    }
}

/// Starts a round of attempts with the updates at the head of the queue that are due; these leave
/// the queue.
pub fn process_retry_queue(queue: &mut Vec<RetryTask>, now: u128) -> (r: RetryRun)
    requires
        queue_wf(old(queue).deep_view()),
    ensures
        r@ == retry_from(taken(old(queue).deep_view(), now)),
        retry_wf(r@),
        final(queue).deep_view() == old(queue).deep_view().skip(
            due_len(old(queue).deep_view(), now) as int,
        ),
{
    let ghost all = queue.deep_view();
    let mut todo: Vec<RetryTask> = Vec::new();
    proof {
        lemma_due_len(all, now);
        assert(all.skip(0) =~= all);
    }
    while queue.len() > 0 && is_due(&queue[0], now)
        invariant
            queue_wf(all),
            todo@.len() <= due_len(all, now) <= all.len(),
            queue.deep_view() == all.skip(todo@.len() as int),
            due_len(all, now) == todo@.len() + due_len(queue.deep_view(), now),
            forall|i: int|
                0 <= i < todo@.len() ==> #[trigger] todo@[i].deep_view() == tried(all[i], now),
        decreases queue.len(),
    {
        let ghost n = todo@.len() as int;
        let ghost before = queue.deep_view();
        assert(before.len() == queue@.len());
        assert(before[0] == queue@[0].deep_view());
        assert(before[0] == all[n]);
        let mut task = queue.remove(0);
        assert(task.deep_view() == all[n]);
        task.last_attempt = now;
        task.retry_count = task.retry_count + 1;
        todo.push(task);
        proof {
            assert(queue.deep_view() =~= before.drop_first());
            assert(before.drop_first() =~= all.skip(n + 1));
            lemma_due_len(queue.deep_view(), now);
        }
    }
    proof {
        assert(queue.deep_view().len() == queue@.len());
        if queue@.len() > 0 {
            assert(queue.deep_view()[0] == queue@[0].deep_view());
        }
        assert(todo.deep_view() =~= taken(all, now));
        assert(todo.deep_view().len() == todo@.len());
    }
    let mut r = RetryRun { todo, current: None, stage: RetryStage::Over };
    r.begin();
    r
}

impl RetryRun {
    fn begin(&mut self)
        ensures
            final(self)@ == retry_from(old(self)@.todo),
    {
        assert(self.todo.deep_view().len() == self.todo@.len());
        self.current = None;
        self.stage = if self.todo.len() == 0 {
            RetryStage::Over
        } else if self.todo[0].endpoint.is_some() {
            RetryStage::Asking
        } else {
            RetryStage::Updating
        };
    }

    /// What the round asks next.
    pub fn request(&self) -> (r: Request)
        requires
            retry_wf(self@),
        ensures
            r.deep_view() == retry_ask(self@),
    {
        assert(self.todo.deep_view().len() == self.todo@.len());
        match self.stage {
            RetryStage::Asking => Request::Endpoint { pubkey: self.todo[0].pubkey.clone() },
            RetryStage::Comparing => match &self.current {
                Some(ep) => Request::LanActive {
                    pubkey: self.todo[0].pubkey.clone(),
                    endpoint: ep.clone(),
                },
                None => Request::Done,
            },
            RetryStage::Updating => Request::UpdatePeer(
                PeerUpdate {
                    pubkey: self.todo[0].pubkey.clone(),
                    endpoint: copy_opt(&self.current),
                    allowed_ips: copy_opt_list(&self.todo[0].allowed_ips),
                    persistent_keepalive: widen(self.todo[0].persistent_keepalive),
                    preshared_key: copy_opt(&self.todo[0].preshared_key),
                },
            ),
            RetryStage::Over => Request::Done,
        }
    }

    /// Takes the answer to the last request and says what to ask next.
    pub fn step(&mut self, queue: &mut Vec<RetryTask>, answer: Answer) -> (r: Request)
        requires
            retry_wf(old(self)@),
            fits(retry_ask(old(self)@), answer.deep_view()),
        ensures
            (final(self)@, final(queue).deep_view()) == retry_step(
                old(self)@,
                old(queue).deep_view(),
                answer.deep_view(),
            ),
            retry_wf(final(self)@),
            r.deep_view() == retry_ask(final(self)@),
    {
        assert(self.todo.deep_view().len() == self.todo@.len());
        match self.stage {
            RetryStage::Asking => {
                match answer.text() {
                    Some(ep) => {
                        self.current = Some(ep);
                        self.stage = RetryStage::Comparing;
                    },
                    None => {
                        self.current = copy_opt(&self.todo[0].endpoint);
                        self.stage = RetryStage::Updating;
                    },
                }
            },
            RetryStage::Comparing => {
                if !answer.flag() {
                    self.current = copy_opt(&self.todo[0].endpoint);
                }
                self.stage = RetryStage::Updating;
            },
            RetryStage::Updating => {
                let ghost todo = self.todo.deep_view();
                let ghost before = queue.deep_view();
                let task = self.todo.remove(0);
                assert(self.todo.deep_view() =~= todo.skip(1));
                assert(task.deep_view() == todo[0]);
                if !answer.flag() && task.retry_count < DEFAULT_MAX_RETRY_ATTEMPTS {
                    queue.push(task);
                    assert(queue.deep_view() =~= before.push(todo[0]));
                }
                self.begin();
            },
            RetryStage::Over => {},
        }
        self.request()
    }
}

// ---------- Laws ----------

/// An update is tried again only after it has waited its time, and once more is counted for it.
pub proof fn law_retries_wait(queue: Seq<RetryView>, now: u128, i: int)
    requires
        queue_wf(queue),
        0 <= i < taken(queue, now).len(),
    ensures
        i < queue.len(),
        due(queue[i], now),
        taken(queue, now)[i] == tried(queue[i], now),
        taken(queue, now)[i].retry_count == queue[i].retry_count + 1,
        taken(queue, now)[i].retry_count <= DEFAULT_MAX_RETRY_ATTEMPTS,
{
    lemma_due_len(queue, now);
    lemma_head_is_due(queue, now, i);
}

proof fn lemma_head_is_due(queue: Seq<RetryView>, now: u128, i: int)
    requires
        0 <= i < due_len(queue, now),
    ensures
        due_len(queue, now) <= queue.len(),
        due(queue[i], now),
    decreases queue.len(),
{
    lemma_due_len(queue, now);
    if i > 0 {
        lemma_head_is_due(queue.drop_first(), now, i - 1);
        assert(queue.drop_first()[i - 1] == queue[i]);
    }
}

/// No update is tried more often than is allowed: what a round leaves in the queue, and what it
/// puts back there, was tried less often than that.
pub proof fn law_retries_are_bounded(v: RunView, queue: Seq<RetryView>, told: Told)
    requires
        queue_wf(queue),
    ensures
        queue_wf(retry_step(v, queue, told).1),
{
}

/// The waiting time doubles with each attempt up to sixteen seconds.
pub proof fn law_backoff_doubles(retry_count: u32)
    ensures
        backoff(0) == 1,
        retry_count < 4 ==> backoff((retry_count + 1) as u32) == 2 * backoff(retry_count),
        retry_count >= 4 ==> backoff(retry_count) == 16,
{
    vstd::arithmetic::power2::lemma2_to64();
    if retry_count < 4 {
        vstd::arithmetic::power2::lemma_pow2_unfold((retry_count + 1) as nat);
    }
}

/// The endpoint of a peer that is in use over the local network is not changed by an attempt: the
/// update names the endpoint it has.
pub proof fn law_retry_keeps_lan_endpoint(v: RunView, queue: Seq<RetryView>)
    requires
        retry_wf(v),
        v.stage is Comparing,
    ensures
        retry_ask(retry_step(v, queue, Told::Flag(true)).0) matches Ask::UpdatePeer(u) && u.endpoint
            == v.current,
{
}

/// How many steps a round of attempts has left at most.
pub open spec fn retry_left(v: RunView) -> int {
    let todo = 3 * v.todo.len();
    match v.stage {
        RetryStage::Asking => todo as int,
        RetryStage::Comparing => todo - 1,
        RetryStage::Updating => todo - 2,
        RetryStage::Over => 0,
    }
}

/// Every answer brings a round of attempts nearer to its end.
pub proof fn law_retry_round_ends(v: RunView, queue: Seq<RetryView>, told: Told)
    requires
        retry_wf(v),
        v.stage !is Over,
    ensures
        0 <= retry_left(retry_step(v, queue, told).0) < retry_left(v),
        retry_wf(retry_step(v, queue, told).0),
{
}

} // verus!
