//! Registering this node with the server.
use vstd::prelude::*;

use crate::model::{NodeStatus, RegistrationState};
use crate::retry::SECOND;

verus! {

/// A registration is sent so many times at most before it is given up.
pub const REGISTER_MAX_RETRIES: u32 = 5;

/// So many seconds lie between two attempts to send a registration.
pub const REGISTER_RETRY_INTERVAL: u64 = 5;

// ---------- When to register again ----------

/// When this node registers again. Times are in nanoseconds of a clock that only goes forward.
pub struct RegisterRetry {
    pub last_attempt: u128,
    pub interval: u128,
    /// Whether it does so as soon as it can.
    pub force: bool,
}

/// Whether it is time to register again: this is wanted at once, or the interval has gone by.
pub open spec fn retry_due(r: RegisterRetry, now: u128) -> bool {
    r.force || now - r.last_attempt >= r.interval || r.interval == 0
}

/// The time counts anew.
pub open spec fn retried(r: RegisterRetry, now: u128) -> RegisterRetry {
    RegisterRetry { last_attempt: now, interval: r.interval, force: false }
}

impl RegisterRetry {
    pub fn new(interval_secs: u64, now: u128) -> (r: Self)
        ensures
            r.last_attempt == now,
            r.interval == interval_secs * SECOND,
            !r.force,
    {
        assert(interval_secs * SECOND <= u128::MAX) by (nonlinear_arith)
            requires
                interval_secs <= u64::MAX,
                SECOND == 1_000_000_000,
        ;
        RegisterRetry { last_attempt: now, interval: interval_secs as u128 * SECOND, force: false }
    }

    /// Whether it is time to register again.
    pub fn is_due(&self, now: u128) -> (r: bool)
        ensures
            r == retry_due(*self, now),
    {
        let elapsed: u128 = if now >= self.last_attempt {
            now - self.last_attempt
        } else {
            0
        };
        self.force || elapsed >= self.interval
    }

    /// Whether it is time to register again; if so, the time counts anew from now.
    pub fn should_retry(&mut self, now: u128) -> (r: bool)
        ensures
            r == retry_due(*old(self), now),
            *final(self) == if r {
                retried(*old(self), now)
            } else {
                *old(self)
            },
    {
        if self.is_due(now) {
            self.last_attempt = now;
            self.force = false;
            true
        } else {
            false
        }
    }

    /// Has this node register again as soon as it can.
    pub fn force_next(&mut self)
        ensures
            *final(self) == (RegisterRetry { force: true, ..*old(self) }),
    {
        self.force = true;
    }
}

/// Whether this node has to register again: it is not registered, and it is time.
pub fn needs_registration(status: &NodeStatus, retry: &mut RegisterRetry, now: u128) -> (r: bool)
    ensures
        r == (status.registration != RegistrationState::Registered && retry_due(*old(retry), now)),
        *final(retry) == if r {
            retried(*old(retry), now)
        } else {
            *old(retry)
        },
{
    match status.registration {
        RegistrationState::Registered => false,
        _ => retry.should_retry(now),
    }
}

// ---------- Sending a registration ----------

/// Where sending a registration stands.
#[derive(Debug, Clone, Copy, PartialEq, Eq, Structural)]
pub enum RegisterStage {
    /// Waiting for it to be published, for the so-and-so-manieth time.
    Publishing { attempt: u32 },
    /// Waiting before it is published again.
    Pausing { attempt: u32 },
    /// It was published.
    Sent,
    /// It could not be published.
    GivenUp,
}

/// What sending a registration needs done next.
#[derive(Debug, Clone, Copy, PartialEq, Eq, Structural)]
pub enum RegisterRequest {
    /// Publish the registration.
    Publish,
    /// Wait for so many seconds.
    Pause { secs: u64 },
    /// Nothing: it was published, or given up.
    Over { sent: bool },
}

/// What sending a registration needs done next.
pub open spec fn register_ask(stage: RegisterStage) -> RegisterRequest {
    match stage {
        RegisterStage::Publishing { .. } => RegisterRequest::Publish,
        RegisterStage::Pausing { .. } => RegisterRequest::Pause { secs: REGISTER_RETRY_INTERVAL },
        RegisterStage::Sent => RegisterRequest::Over { sent: true },
        RegisterStage::GivenUp => RegisterRequest::Over { sent: false },
    }
}

/// Where sending a registration goes, and what becomes of this node's status, `ok` telling whether
/// the last request was met.
pub open spec fn register_step(stage: RegisterStage, status: NodeStatus, ok: bool) -> (
    RegisterStage,
    NodeStatus,
) {
    match stage {
        RegisterStage::Publishing { attempt } => if ok {
            (
                RegisterStage::Sent,
                NodeStatus { registration: RegistrationState::InProgress, ..status },
            )
        } else if attempt < REGISTER_MAX_RETRIES {
            (RegisterStage::Pausing { attempt }, status)
        } else {
            (RegisterStage::GivenUp, status)
        },
        RegisterStage::Pausing { attempt } => if attempt < REGISTER_MAX_RETRIES {
            (RegisterStage::Publishing { attempt: (attempt + 1) as u32 }, status)
        } else {
            (RegisterStage::GivenUp, status)
        },
        RegisterStage::Sent => (stage, status),
        RegisterStage::GivenUp => (stage, status),
    }
}

/// Starts sending a registration.
pub fn start_registration() -> (r: RegisterStage)
    ensures
        r == (RegisterStage::Publishing { attempt: 1 }),
{
    RegisterStage::Publishing { attempt: 1 }
}

impl RegisterStage {
    /// What sending the registration needs done next.
    pub fn request(&self) -> (r: RegisterRequest)
        ensures
            r == register_ask(*self),
    {
        match *self {
            RegisterStage::Publishing { .. } => RegisterRequest::Publish,
            RegisterStage::Pausing { .. } => RegisterRequest::Pause {
                secs: REGISTER_RETRY_INTERVAL,
            },
            RegisterStage::Sent => RegisterRequest::Over { sent: true },
            RegisterStage::GivenUp => RegisterRequest::Over { sent: false },
        }
    }

    /// Takes whether the last request was met, and says what is needed next.
    pub fn step(&mut self, status: &mut NodeStatus, ok: bool) -> (r: RegisterRequest)
        ensures
            (*final(self), *final(status)) == register_step(*old(self), *old(status), ok),
            r == register_ask(*final(self)),
    {
        match *self {
            RegisterStage::Publishing { attempt } => {
                if ok {
                    status.registration = RegistrationState::InProgress;
                    *self = RegisterStage::Sent;
                } else if attempt < REGISTER_MAX_RETRIES {
                    *self = RegisterStage::Pausing { attempt };
                } else {
                    *self = RegisterStage::GivenUp;
                }
            },
            RegisterStage::Pausing { attempt } => {
                *self = if attempt < REGISTER_MAX_RETRIES {
                    RegisterStage::Publishing { attempt: attempt + 1 }
                } else {
                    RegisterStage::GivenUp
                };
            },
            RegisterStage::Sent => {},
            RegisterStage::GivenUp => {},
        }
        self.request()
    }
}

// ---------- Laws ----------

/// A registration that is wanted at once is due whatever the time; after it the next one is due
/// only when the interval has gone by.
pub proof fn law_registration_pace(r: RegisterRetry, now: u128, later: u128)
    requires
        r.interval > 0,
    ensures
        retry_due(RegisterRetry { force: true, ..r }, now),
        retry_due(retried(r, now), later) <==> later - now >= r.interval,
{
}

/// Where sending a registration stands after the given outcomes.
pub open spec fn register_run(outcomes: Seq<bool>, status: NodeStatus) -> (
    RegisterStage,
    NodeStatus,
)
    decreases outcomes.len(),
{
    if outcomes.len() == 0 {
        (RegisterStage::Publishing { attempt: 1 }, status)
    } else {
        let (stage, s) = register_run(outcomes.drop_last(), status);
        register_step(stage, s, outcomes.last())
    }
}

/// A registration is published five times at most, and is over after nine steps, whatever their
/// outcome.
pub proof fn law_registration_is_bounded(outcomes: Seq<bool>, status: NodeStatus)
    ensures
        match register_run(outcomes, status).0 {
            RegisterStage::Publishing { attempt } => 1 <= attempt <= REGISTER_MAX_RETRIES
                && outcomes.len() == 2 * (attempt - 1),
            RegisterStage::Pausing { attempt } => 1 <= attempt < REGISTER_MAX_RETRIES
                && outcomes.len() == 2 * (attempt - 1) + 1,
            _ => outcomes.len() >= 1,
        },
        outcomes.len() >= 2 * REGISTER_MAX_RETRIES - 1 ==> register_ask(
            register_run(outcomes, status).0,
        ) is Over,
    decreases outcomes.len(),
{
    if outcomes.len() > 0 {
        law_registration_is_bounded(outcomes.drop_last(), status);
    }
}

/// This node's status changes exactly if the registration was published.
pub proof fn law_sent_registration_is_in_progress(outcomes: Seq<bool>, status: NodeStatus)
    ensures
        ({
            let (stage, s) = register_run(outcomes, status);
            if stage is Sent {
                s == (NodeStatus { registration: RegistrationState::InProgress, ..status })
            } else {
                s == status
            }
        }),
    decreases outcomes.len(),
{
    if outcomes.len() > 0 {
        law_sent_registration_is_in_progress(outcomes.drop_last(), status);
    }
}

} // verus!
