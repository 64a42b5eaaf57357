//! The turns of the main loop: which jobs are due, and in which order they come.
use vstd::prelude::*;

use crate::config::{
    elapsed, has_elapsed, LAN_CHECK_INTERVAL, NETWORK_CHECK_INTERVAL, RETRY_PROCESS_INTERVAL,
    STATE_CACHE_SECS, TRAFFIC_REPORT_INTERVAL,
};
use crate::model::{NodeStatus, RegistrationState};
use crate::register::{retry_due, RegisterRetry};
use crate::retry::SECOND;

verus! {

/// The jobs of a turn, in their order.
#[derive(Debug, Clone, Copy, PartialEq, Eq, Structural)]
pub enum Job {
    /// Register this node.
    Register,
    /// Look after the peers that were switched to the local network.
    LanRound,
    /// Try failed updates again.
    RetryRound,
    /// Look whether the network is lost and whether peers need a relay.
    NetworkCheck,
    /// Change the listen port because it is time.
    PortChange,
    /// Report the traffic.
    TrafficReport,
    /// Wait for a message; this ends the turn.
    Receive,
}

/// The optional jobs that are switched on.
pub struct Features {
    /// Changing the listen port when the network is lost.
    pub port_change: bool,
    /// Changing the listen port from time to time, and how many seconds lie between two changes.
    pub scheduled_change: bool,
    pub scheduled_interval: u64,
    /// Traffic reports.
    pub traffic_report: bool,
}

/// When each job was done last, in nanoseconds of a clock that only goes forward.
pub struct Schedule {
    pub lan_round: u128,
    pub retry_round: u128,
    pub network_check: u128,
    pub port_change: u128,
    pub traffic_report: u128,
}

/// Whether a job is due. Waiting for a message always is.
pub open spec fn job_due(
    s: Schedule,
    f: Features,
    status: NodeStatus,
    retry: RegisterRetry,
    job: Job,
    now: u128,
) -> bool {
    match job {
        Job::Register => status.registration != RegistrationState::Registered && retry_due(
            retry,
            now,
        ),
        Job::LanRound => elapsed(s.lan_round, now, LAN_CHECK_INTERVAL),
        Job::RetryRound => elapsed(s.retry_round, now, RETRY_PROCESS_INTERVAL),
        Job::NetworkCheck => elapsed(s.network_check, now, NETWORK_CHECK_INTERVAL),
        Job::PortChange => f.scheduled_change && status.configured && elapsed(
            s.port_change,
            now,
            f.scheduled_interval,
        ),
        Job::TrafficReport => f.traffic_report && elapsed(
            s.traffic_report,
            now,
            TRAFFIC_REPORT_INTERVAL,
        ),
        Job::Receive => true,
    }
}

/// The place of a job in a turn.
pub open spec fn place(job: Job) -> int {
    match job {
        Job::Register => 0,
        Job::LanRound => 1,
        Job::RetryRound => 2,
        Job::NetworkCheck => 3,
        Job::PortChange => 4,
        Job::TrafficReport => 5,
        Job::Receive => 6,
    }
}

/// The job after another; after the last one a new turn begins.
pub open spec fn following(job: Job) -> Job {
    match job {
        Job::Register => Job::LanRound,
        Job::LanRound => Job::RetryRound,
        Job::RetryRound => Job::NetworkCheck,
        Job::NetworkCheck => Job::PortChange,
        Job::PortChange => Job::TrafficReport,
        Job::TrafficReport => Job::Receive,
        Job::Receive => Job::Register,
    }
}

/// The first job that is due, from `job` on.
pub open spec fn next_due(
    s: Schedule,
    f: Features,
    status: NodeStatus,
    retry: RegisterRetry,
    job: Job,
    now: u128,
) -> Job
    decreases 6 - place(job),
{
    if job == Job::Receive || job_due(s, f, status, retry, job, now) {
        job
    } else {
        next_due(s, f, status, retry, following(job), now)
    }
}

/// The schedule after a job was done.
pub open spec fn after_job(s: Schedule, job: Job, now: u128) -> Schedule {
    match job {
        Job::LanRound => Schedule { lan_round: now, ..s },
        Job::RetryRound => Schedule { retry_round: now, ..s },
        Job::NetworkCheck => Schedule { network_check: now, ..s },
        Job::PortChange => Schedule { port_change: now, ..s },
        Job::TrafficReport => Schedule { traffic_report: now, ..s },
        Job::Register | Job::Receive => s,
    }
}

impl Job {
    /// The job after this one; after the last one a new turn begins.
    pub fn next(self) -> (r: Job)
        ensures
            r == following(self),
    {
        match self {
            Job::Register => Job::LanRound,
            Job::LanRound => Job::RetryRound,
            Job::RetryRound => Job::NetworkCheck,
            Job::NetworkCheck => Job::PortChange,
            Job::PortChange => Job::TrafficReport,
            Job::TrafficReport => Job::Receive,
            Job::Receive => Job::Register,
        }
    }
}

impl Schedule {
    /// A schedule whose times count from now.
    pub fn new(now: u128) -> (r: Self)
        ensures
            r == (Schedule {
                lan_round: now,
                retry_round: now,
                network_check: now,
                port_change: now,
                traffic_report: now,
            }),
    {
        Schedule {
            lan_round: now,
            retry_round: now,
            network_check: now,
            port_change: now,
            traffic_report: now,
        }
    }

    fn is_due(
        &self,
        f: &Features,
        status: &NodeStatus,
        retry: &RegisterRetry,
        job: Job,
        now: u128,
    ) -> (r: bool)
        ensures
            r == job_due(*self, *f, *status, *retry, job, now),
    {
        match job {
            Job::Register => match status.registration {
                RegistrationState::Registered => false,
                _ => retry.is_due(now),
            },
            Job::LanRound => has_elapsed(self.lan_round, now, LAN_CHECK_INTERVAL),
            Job::RetryRound => has_elapsed(self.retry_round, now, RETRY_PROCESS_INTERVAL),
            Job::NetworkCheck => has_elapsed(self.network_check, now, NETWORK_CHECK_INTERVAL),
            Job::PortChange => f.scheduled_change && status.configured && has_elapsed(
                self.port_change,
                now,
                f.scheduled_interval,
            ),
            Job::TrafficReport => f.traffic_report && has_elapsed(
                self.traffic_report,
                now,
                TRAFFIC_REPORT_INTERVAL,
            ),
            Job::Receive => true,
        }
    }

    /// The first job that is due, from `from` on.
    pub fn next_job(
        &self,
        f: &Features,
        status: &NodeStatus,
        retry: &RegisterRetry,
        from: Job,
        now: u128,
    ) -> (r: Job)
        ensures
            r == next_due(*self, *f, *status, *retry, from, now),
    {
        let mut job = from;
        while job != Job::Receive && !self.is_due(f, status, retry, job, now)
            invariant
                next_due(*self, *f, *status, *retry, from, now) == next_due(
                    *self,
                    *f,
                    *status,
                    *retry,
                    job,
                    now,
                ),
            decreases 6 - place(job),
        {
            job = job.next();
        }
        job
    }

    /// Notes that a job was done.
    pub fn done(&mut self, job: Job, now: u128)
        ensures
            *final(self) == after_job(*old(self), job, now),
    {
        match job {
            Job::LanRound => {
                self.lan_round = now;
            },
            Job::RetryRound => {
                self.retry_round = now;
            },
            Job::NetworkCheck => {
                self.network_check = now;
            },
            Job::PortChange => {
                self.port_change = now;
            },
            Job::TrafficReport => {
                self.traffic_report = now;
            },
            Job::Register => {},
            Job::Receive => {},
        }
    }
}

/// What a look at the network consists of: whether the listen port may be changed, and whether
/// relays are checked. Neither happens before the tunnel is installed.
pub fn network_checks(f: &Features, status: &NodeStatus) -> (r: (bool, bool))
    ensures
        r.0 == (f.port_change && status.configured),
        r.1 == status.configured,
{
    (f.port_change && status.configured, status.configured)
}

/// Whether the state of the interface that was read at that time is too old for a report.
pub fn is_state_stale(read_at: Option<u128>, now: u128) -> (r: bool)
    ensures
        r == match read_at {
            Some(t) => elapsed(t, now, STATE_CACHE_SECS),
            None => true,
        },
{
    match read_at {
        Some(t) => has_elapsed(t, now, STATE_CACHE_SECS),
        None => true,
    }
}

// ---------- Laws ----------

/// A job comes only when it is due, no job that is due is passed over, and every turn ends with
/// waiting for a message.
pub proof fn law_jobs_come_when_due(
    s: Schedule,
    f: Features,
    status: NodeStatus,
    retry: RegisterRetry,
    from: Job,
    now: u128,
)
    ensures
        ({
            let job = next_due(s, f, status, retry, from, now);
            &&& job_due(s, f, status, retry, job, now)
            &&& place(from) <= place(job) <= 6
            &&& forall|other: Job|
                place(from) <= place(other) < place(job) ==> !#[trigger] job_due(
                    s,
                    f,
                    status,
                    retry,
                    other,
                    now,
                )
        }),
    decreases 6 - place(from),
{
    if from != Job::Receive && !job_due(s, f, status, retry, from, now) {
        law_jobs_come_when_due(s, f, status, retry, following(from), now);
        assert forall|other: Job|
            place(from) <= place(other) < place(
                next_due(s, f, status, retry, from, now),
            ) implies !#[trigger] job_due(s, f, status, retry, other, now) by {
            if place(other) == place(from) {
                assert(other == from);
            }
        }
    }
}

/// A job that was done is due again exactly when its time has gone by since then; one that is
/// switched off is never due.
pub proof fn law_done_job_waits(
    s: Schedule,
    f: Features,
    status: NodeStatus,
    retry: RegisterRetry,
    now: u128,
    later: u128,
)
    ensures
        job_due(after_job(s, Job::LanRound, now), f, status, retry, Job::LanRound, later)
            <==> later - now >= LAN_CHECK_INTERVAL * SECOND,
        job_due(after_job(s, Job::RetryRound, now), f, status, retry, Job::RetryRound, later)
            <==> later - now >= RETRY_PROCESS_INTERVAL * SECOND,
        job_due(after_job(s, Job::NetworkCheck, now), f, status, retry, Job::NetworkCheck, later)
            <==> later - now >= NETWORK_CHECK_INTERVAL * SECOND,
        f.traffic_report ==> (job_due(
            after_job(s, Job::TrafficReport, now),
            f,
            status,
            retry,
            Job::TrafficReport,
            later,
        ) <==> later - now >= TRAFFIC_REPORT_INTERVAL * SECOND),
        f.scheduled_change && status.configured && now <= later ==> (job_due(
            after_job(s, Job::PortChange, now),
            f,
            status,
            retry,
            Job::PortChange,
            later,
        ) <==> later - now >= f.scheduled_interval * SECOND),
        !f.traffic_report ==> !job_due(s, f, status, retry, Job::TrafficReport, later),
        !(f.scheduled_change && status.configured) ==> !job_due(
            s,
            f,
            status,
            retry,
            Job::PortChange,
            later,
        ),
{
}

} // verus!
