//! Settings of the environment, the topics of the broker, and the pace of the main loop.
use vstd::prelude::*;

use crate::number::{parse_unsigned, read_u16, read_u64};
use crate::retry::SECOND;
use crate::text::{owned, text_eq, trim, trimmed, Text};
use crate::wg::port_number;

verus! {

// ---------- Settings ----------

/// The port of the broker where none is set.
pub const DEFAULT_MQTT_PORT: u16 = 1883;

/// So many seconds lie between two scheduled port changes where nothing else is set.
pub const DEFAULT_SCHEDULED_INTERVAL: u64 = 7200;

/// So many seconds lie between two registrations where nothing else is set.
pub const DEFAULT_REGISTER_INTERVAL: u64 = 600;

/// A value of the environment, or the default.
pub open spec fn value_or(env: Option<Text>, default: Text) -> Text {
    match env {
        Some(v) => v,
        None => default,
    }
}

/// The name of the interface that is set by `WG_INTERFACE`, without the white space around it.
pub fn interface_name(env: &Option<String>) -> (r: String)
    ensures
        r@ == trim(value_or(env.deep_view(), "wg0"@)),
{
    match env {
        Some(v) => trimmed(v.as_str()),
        None => trimmed("wg0"),
    }
}

/// The network that relays are known by, as set by `RELAY_CIDR_V4`.
pub fn relay_cidr_v4(env: &Option<String>) -> (r: String)
    ensures
        r@ == value_or(env.deep_view(), "10.254.1.0/24"@),
{
    match env {
        Some(v) => v.clone(),
        None => owned("10.254.1.0/24"),
    }
}

/// The network that relays are known by, as set by `RELAY_CIDR_V6`.
pub fn relay_cidr_v6(env: &Option<String>) -> (r: String)
    ensures
        r@ == value_or(env.deep_view(), "fd00:1:1::/64"@),
{
    match env {
        Some(v) => v.clone(),
        None => owned("fd00:1:1::/64"),
    }
}

/// The port of the broker, as set by `MQTT_PORT`.
pub fn mqtt_port(env: &Option<String>) -> (r: u16)
    ensures
        r == match port_number(env.deep_view()) {
            Some(p) => p,
            None => DEFAULT_MQTT_PORT as nat,
        },
{
    if let Some(text) = env {
        if let Some(p) = read_u16(text.as_str()) {
            return p;
        }
    }
    DEFAULT_MQTT_PORT
}

/// A number of seconds that is set, or the default.
pub open spec fn seconds_or(env: Option<Text>, default: u64) -> nat {
    match env {
        Some(t) => match parse_unsigned(t, u64::MAX as nat) {
            Some(n) => n,
            None => default as nat,
        },
        None => default as nat,
    }
}

/// A number of seconds that is set, or the default.
pub fn seconds_set(env: &Option<String>, default: u64) -> (r: u64)
    ensures
        r == seconds_or(env.deep_view(), default),
{
    if let Some(text) = env {
        if let Some(n) = read_u64(text.as_str()) {
            return n;
        }
    }
    default
}

// ---------- Topics ----------

/// The topics that this node listens and publishes to.
pub struct Topics {
    /// Full snapshots for all nodes.
    pub full: String,
    /// Changes to single peers.
    pub delta: String,
    /// Full snapshots for this node.
    pub response: String,
    /// Registrations.
    pub register: String,
    /// Requests for a full snapshot.
    pub request: String,
    /// Changes of the server's settings.
    pub config_update: String,
    /// Traffic reports.
    pub traffic: String,
}

/// A topic of the interface.
pub open spec fn topic(interface: Text, rest: Text) -> Text {
    "wg/"@ + interface + rest
}

fn topic_of(interface: &str, rest: &str) -> (r: String)
    ensures
        r@ == topic(interface@, rest@),
{
    owned("wg/").concat(interface).concat(rest)
}

impl Topics {
    /// The topics of an interface and of the name that this node is known by.
    pub fn new(interface: &str, client_id: &str) -> (r: Self)
        ensures
            r.full@ == topic(interface@, "/full"@),
            r.delta@ == topic(interface@, "/delta"@),
            r.response@ == topic(interface@, "/full/response/"@) + client_id@,
            r.register@ == topic(interface@, "/register"@),
            r.request@ == topic(interface@, "/full/request/"@) + client_id@,
            r.config_update@ == topic(interface@, "/config/update"@),
            r.traffic@ == topic(interface@, "/traffic"@),
    {
        Topics {
            full: topic_of(interface, "/full"),
            delta: topic_of(interface, "/delta"),
            response: topic_of(interface, "/full/response/").concat(client_id),
            register: topic_of(interface, "/register"),
            request: topic_of(interface, "/full/request/").concat(client_id),
            config_update: topic_of(interface, "/config/update"),
            traffic: topic_of(interface, "/traffic"),
        }
    }

    /// What a message on a topic is.
    pub open spec fn kind(&self, topic: Text) -> MessageKind {
        if topic == self.config_update@ {
            MessageKind::Ignored
        } else if topic == self.full@ || topic == self.response@ {
            MessageKind::Snapshot
        } else if topic == self.delta@ {
            MessageKind::Delta
        } else {
            MessageKind::Ignored
        }
    }

    /// What a message on a topic is.
    pub fn kind_of(&self, topic: &str) -> (r: MessageKind)
        ensures
            r == self.kind(topic@),
    {
        if text_eq(topic, self.config_update.as_str()) {
            MessageKind::Ignored
        } else if text_eq(topic, self.full.as_str()) || text_eq(topic, self.response.as_str()) {
            MessageKind::Snapshot
        } else if text_eq(topic, self.delta.as_str()) {
            MessageKind::Delta
        } else {
            MessageKind::Ignored
        }
    }

    /// The topics to listen to.
    pub fn subscriptions(&self) -> (r: Vec<String>)
        ensures
            r.deep_view() == seq![self.full@, self.delta@, self.response@, self.config_update@],
    {
        let r = vec![
            self.full.clone(),
            self.delta.clone(),
            self.response.clone(),
            self.config_update.clone(),
        ];
        assert(r.deep_view() =~= seq![
            self.full@,
            self.delta@,
            self.response@,
            self.config_update@,
        ]);
        r
    }
}

/// What a message is.
#[derive(Debug, Clone, Copy, PartialEq, Eq, Structural)]
pub enum MessageKind {
    /// A full snapshot.
    Snapshot,
    /// A change to a single peer.
    Delta,
    /// Nothing to act on.
    Ignored,
}

// ---------- Pace ----------

/// So many seconds lie between two traffic reports.
pub const TRAFFIC_REPORT_INTERVAL: u64 = 30;

/// So many seconds lie between two rounds over failed updates.
pub const RETRY_PROCESS_INTERVAL: u64 = 2;

/// So many seconds lie between two rounds over switched peers.
pub const LAN_CHECK_INTERVAL: u64 = 1;

/// So many seconds lie between two looks at the network.
pub const NETWORK_CHECK_INTERVAL: u64 = 60;

/// The state of the interface is read anew for a report after so many seconds.
pub const STATE_CACHE_SECS: u64 = 5;

/// So many seconds this node waits at most before it connects again.
pub const MAX_RECONNECT_DELAY: u64 = 60;

/// Whether so many seconds have gone by since then. Times are in nanoseconds of a clock that only
/// goes forward.
pub open spec fn elapsed(since: u128, now: u128, secs: u64) -> bool {
    secs == 0 || now - since >= secs * SECOND
}

/// Whether so many seconds have gone by since then.
pub fn has_elapsed(since: u128, now: u128, secs: u64) -> (r: bool)
    ensures
        r == elapsed(since, now, secs),
{
    assert(secs * SECOND <= u128::MAX) by (nonlinear_arith)
        requires
            secs <= u64::MAX,
            SECOND == 1_000_000_000,
    ;
    let wait: u128 = secs as u128 * SECOND;
    if now >= since {
        now - since >= wait
    } else {
        secs == 0
    }
}

/// The next waiting time before connecting again: twice as long, up to a minute.
pub open spec fn longer_delay(secs: u64) -> u64 {
    if 2 * secs <= MAX_RECONNECT_DELAY {
        (2 * secs) as u64
    } else {
        MAX_RECONNECT_DELAY
    }
}

/// The next waiting time before connecting again.
pub fn next_reconnect_delay(secs: u64) -> (r: u64)
    ensures
        r == longer_delay(secs),
{
    if secs <= MAX_RECONNECT_DELAY / 2 {
        secs * 2
    } else {
        MAX_RECONNECT_DELAY
    }
}

// ---------- Laws ----------

/// The waiting time before connecting again stays between the first one and a minute, and never
/// falls.
pub proof fn law_reconnect_delay_is_bounded(secs: u64)
    requires
        1 <= secs <= MAX_RECONNECT_DELAY,
    ensures
        secs <= longer_delay(secs) <= MAX_RECONNECT_DELAY,
        secs < MAX_RECONNECT_DELAY ==> secs < longer_delay(secs),
{
}

/// Messages on the topics of this node are told apart: snapshots for all and for this node are
/// snapshots, changes are changes, and changes of settings are not acted on.
pub proof fn law_topics_are_told_apart(t: Topics, interface: Text, client_id: Text)
    requires
        t.full@ == topic(interface, "/full"@),
        t.delta@ == topic(interface, "/delta"@),
        t.response@ == topic(interface, "/full/response/"@) + client_id,
        t.config_update@ == topic(interface, "/config/update"@),
    ensures
        t.kind(t.full@) == MessageKind::Snapshot,
        t.kind(t.response@) == MessageKind::Snapshot,
        t.kind(t.delta@) == MessageKind::Delta,
        t.kind(t.config_update@) == MessageKind::Ignored,
{
    reveal_strlit("wg/");
    reveal_strlit("/full");
    reveal_strlit("/delta");
    reveal_strlit("/full/response/");
    reveal_strlit("/config/update");
    let k = 3 + interface.len() as int + 1;
    assert(t.full@[k] == 'f');
    assert(t.delta@[k] == 'd');
    assert(t.response@[k] == 'f');
    assert(t.config_update@[k] == 'c');
}

} // verus!
