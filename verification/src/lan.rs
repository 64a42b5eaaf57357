//! The local network: which networks this node is in, and reaching peers through them.
use vstd::prelude::*;

use crate::ip::{
    endpoint, is_private_v4, parse_endpoint, private_v4, should_report_ipv6, unique_local_v6, Ip,
};
use crate::ip_text::{ip_text, ip_to_text, local_endpoint, local_endpoint_of, plain_endpoint};
use crate::model::{fits, Answer, Ask, Request, Told};
use crate::number::decimal_of;
use crate::self_ips::SystemAddress;
use crate::strmap::StrMap;
use crate::text::{lowercase, lowercase_of, starts_with_text, text_eq, Text};
use crate::wg::{handshake_seconds, has_recent_handshake, recent, CommandOutput};
use vstd::arithmetic::power2::pow2;

verus! {

/// A peer that shook hands within so many seconds is in use.
pub const HANDSHAKE_MAX_AGE_SECS: u64 = 20;

/// A peer is not tried over the local network again before so many nanoseconds have gone by.
pub const MIN_LAN_RETRY_INTERVAL: u128 = 120_000_000_000;

/// So many nanoseconds a peer has to shake hands over the local network.
pub const LAN_HANDSHAKE_TIMEOUT: u128 = 15_000_000_000;

// ---------- Networks ----------

/// A network: an address in it and the length of its prefix.
#[derive(Debug, Clone, Copy, PartialEq, Eq, Structural)]
pub struct Net {
    pub addr: Ip,
    pub prefix: u8,
}

/// Whether the prefix is not longer than the address.
pub open spec fn net_wf(net: Net) -> bool {
    match net.addr {
        Ip::V4(_) => net.prefix <= 32,
        Ip::V6(_) => net.prefix <= 128,
    }
}

/// Whether two numbers agree but for their last `free` binary digits.
pub open spec fn same_prefix(a: nat, b: nat, free: nat) -> bool {
    a / pow2(free) == b / pow2(free)
}

/// Whether an address is in a network: it begins with the same prefix.
pub open spec fn in_net(net: Net, a: Ip) -> bool {
    match (net.addr, a) {
        (Ip::V4(n), Ip::V4(x)) => same_prefix(n as nat, x as nat, (32 - net.prefix) as nat),
        (Ip::V6(n), Ip::V6(x)) => same_prefix(n as nat, x as nat, (128 - net.prefix) as nat),
        _ => false,
    }
}

/// `Ipv4Net::contains` of the `ipnet` crate on an address: it lies between the first and the last
/// address of the network, that is, it has the network's prefix.
#[verifier::external_body]
fn ipnet_contains_v4(addr: u32, prefix: u8, x: u32) -> (r: bool)
    requires
        prefix <= 32,
    ensures
        r == same_prefix(addr as nat, x as nat, (32 - prefix) as nat),
{
    let host = ipnet::Ipv4Net::new_assert(x.into(), 32);
    ipnet::Ipv4Net::new_assert(addr.into(), prefix).contains(&host.addr())
}

/// `Ipv6Net::contains` of the `ipnet` crate on an address: it lies between the first and the last
/// address of the network, that is, it has the network's prefix.
#[verifier::external_body]
fn ipnet_contains_v6(addr: u128, prefix: u8, x: u128) -> (r: bool)
    requires
        prefix <= 128,
    ensures
        r == same_prefix(addr as nat, x as nat, (128 - prefix) as nat),
{
    let host = ipnet::Ipv6Net::new_assert(x.into(), 128);
    ipnet::Ipv6Net::new_assert(addr.into(), prefix).contains(&host.addr())
}

/// Whether an address is in a network.
pub fn net_contains(net: &Net, a: &Ip) -> (r: bool)
    requires
        net_wf(*net),
    ensures
        r == in_net(*net, *a),
{
    match (net.addr, *a) {
        (Ip::V4(n), Ip::V4(x)) => ipnet_contains_v4(n, net.prefix, x),
        (Ip::V6(n), Ip::V6(x)) => ipnet_contains_v6(n, net.prefix, x),
        _ => false,
    }
}

/// Whether an address is in one of the networks.
pub open spec fn in_nets(nets: Seq<Net>, a: Ip) -> bool {
    exists|i: int| 0 <= i < nets.len() && in_net(#[trigger] nets[i], a)
}

/// Whether all networks are well-formed.
pub open spec fn nets_wf(nets: Seq<Net>) -> bool {
    forall|i: int| 0 <= i < nets.len() ==> net_wf(#[trigger] nets[i])
}

/// Whether an address is in one of the networks.
pub fn nets_contain(nets: &Vec<Net>, a: &Ip) -> (r: bool)
    requires
        nets_wf(nets@),
    ensures
        r == in_nets(nets@, *a),
{
    let mut i: usize = 0;
    while i < nets.len()
        invariant
            nets_wf(nets@),
            i <= nets@.len(),
            forall|j: int| 0 <= j < i ==> !in_net(#[trigger] nets@[j], *a),
        decreases nets.len() - i,
    {
        if net_contains(&nets[i], a) {
            return true;
        }
        i += 1;
    }
    false
}

/// The network that an address of the system puts this node in: none for interfaces whose name
/// starts with `wg`, the 24-bit network of a private IPv4 address, the 64-bit network of a unique
/// local IPv6 address.
pub open spec fn lan_of(name: Text, a: Ip) -> Option<Net> {
    if "wg"@.is_prefix_of(lowercase(name)) {
        None
    } else {
        match a {
            Ip::V4(n) => if private_v4(n) {
                Some(Net { addr: a, prefix: 24 })
            } else {
                None
            },
            Ip::V6(n) => if unique_local_v6(n) {
                Some(Net { addr: a, prefix: 64 })
            } else {
                None
            },
        }
    }
}

/// The local networks that this node is in.
pub open spec fn lans(list: Seq<(String, Ip)>) -> Seq<Net>
    decreases list.len(),
{
    if list.len() == 0 {
        Seq::empty()
    } else {
        let front = lans(list.drop_last());
        match lan_of(list.last().0@, list.last().1) {
            Some(net) => front.push(net),
            None => front,
        }
    }
}

/// The local networks that this node is in, by the addresses of the system.
pub fn get_local_lan_networks(list: &Vec<SystemAddress>) -> (r: Vec<Net>)
    ensures
        r@ == lans(list@),
        nets_wf(r@),
{
    let mut nets: Vec<Net> = Vec::new();
    let mut i: usize = 0;
    assert(nets@ =~= lans(list@.take(0)));
    while i < list.len()
        invariant
            i <= list@.len(),
            nets@ == lans(list@.take(i as int)),
            nets_wf(nets@),
        decreases list.len() - i,
    {
        assert(list@.take(i + 1).drop_last() =~= list@.take(i as int));
        if !starts_with_text(lowercase_of(list[i].0.as_str()).as_str(), "wg") {
            match list[i].1 {
                Ip::V4(n) => {
                    if is_private_v4(n) {
                        nets.push(Net { addr: list[i].1, prefix: 24 });
                    }
                },
                Ip::V6(n) => {
                    if should_report_ipv6(n) {
                        nets.push(Net { addr: list[i].1, prefix: 64 });
                    }
                },
            }
        }
        i += 1;
    }
    assert(list@.take(list@.len() as int) =~= list@);
    nets
}

/// The endpoints that this node reports of itself: its addresses in the local networks, with the
/// port that it listens on.
pub open spec fn reported_endpoints(nets: Seq<Net>, port: u16) -> Seq<Text> {
    nets.map_values(|net: Net| local_endpoint(net.addr, port))
}

/// The endpoints that this node reports of itself.
pub fn collect_my_local_endpoints(port: u16, nets: &Vec<Net>) -> (r: Vec<String>)
    ensures
        r.deep_view() == reported_endpoints(nets@, port),
{
    let mut out: Vec<String> = Vec::new();
    let mut i: usize = 0;
    while i < nets.len()
        invariant
            i <= nets@.len(),
            out@.len() == i,
            forall|j: int| 0 <= j < i ==> #[trigger] out@[j]@ == local_endpoint(nets@[j].addr, port),
        decreases nets.len() - i,
    {
        out.push(local_endpoint_of(nets[i].addr, port));
        i += 1;
    }
    assert(out.deep_view() =~= reported_endpoints(nets@, port));
    out
}

/// The first of a peer's endpoints that is in one of the networks.
pub open spec fn same_lan(endpoints: Seq<Text>, nets: Seq<Net>) -> Option<(Ip, u16)>
    decreases endpoints.len(),
{
    if endpoints.len() == 0 {
        None
    } else {
        match endpoint(endpoints[0]) {
            Some((a, port)) => if in_nets(nets, a) {
                Some((a, port))
            } else {
                same_lan(endpoints.drop_first(), nets)
            },
            None => same_lan(endpoints.drop_first(), nets),
        }
    }
}

/// Finds an endpoint of a peer that is in one of the networks.
pub fn find_same_lan_endpoint(peer_local_endpoints: &Vec<String>, my_nets: &Vec<Net>) -> (r: Option<
    (String, u16),
>)
    requires
        nets_wf(my_nets@),
    ensures
        r.deep_view() == match same_lan(peer_local_endpoints.deep_view(), my_nets@) {
            Some((a, port)) => Some((ip_text(a), port)),
            None => None,
        },
{
    let ghost all = peer_local_endpoints.deep_view();
    let mut i: usize = 0;
    assert(all.skip(0) =~= all);
    while i < peer_local_endpoints.len()
        invariant
            nets_wf(my_nets@),
            all == peer_local_endpoints.deep_view(),
            i <= peer_local_endpoints@.len(),
            same_lan(all, my_nets@) == same_lan(all.skip(i as int), my_nets@),
        decreases peer_local_endpoints.len() - i,
    {
        proof {
            assert(all.skip(i as int)[0] == peer_local_endpoints@[i as int]@);
            assert(all.skip(i as int).drop_first() =~= all.skip(i + 1));
        }
        if let Some((a, port)) = parse_endpoint(peer_local_endpoints[i].as_str()) {
            if nets_contain(my_nets, &a) {
                return Some((ip_to_text(a), port));
            }
        }
        i += 1;
    }
    None
}

// ---------- Whether a peer is in use over the local network ----------

/// Whether a switch of the environment is set to `1` or to `true` in any case.
pub open spec fn switch(value: Option<Text>) -> bool {
    match value {
        Some(v) => v == "1"@ || lowercase(v) == "true"@,
        None => false,
    }
}

/// Whether a switch of the environment is set to `1` or to `true` in any case.
pub fn is_switch_on(value: &Option<String>) -> (r: bool)
    ensures
        r == switch(value.deep_view()),
{
    match value {
        Some(v) => text_eq(v.as_str(), "1") || text_eq(lowercase_of(v.as_str()).as_str(), "true"),
        None => false,
    }
}

/// Whether peers may be reached over the local network, by the switch `ENABLE_LAN_SWITCHING`.
pub fn is_lan_switching_enabled(env: &Option<String>) -> (r: bool)
    ensures
        r == switch(env.deep_view()),
{
    is_switch_on(env)
}

/// Whether an endpoint is in one of the networks.
pub open spec fn endpoint_in_nets(ep: Text, nets: Seq<Net>) -> bool {
    match endpoint(ep) {
        Some((a, _)) => in_nets(nets, a),
        None => false,
    }
}

/// Whether an endpoint is in one of the networks.
pub fn is_endpoint_in_nets(ep: &str, nets: &Vec<Net>) -> (r: bool)
    requires
        nets_wf(nets@),
    ensures
        r == endpoint_in_nets(ep@, nets@),
{
    match parse_endpoint(ep) {
        Some((a, _)) => nets_contain(nets, &a),
        None => false,
    }
}

/// Whether a peer is in use over the local network: this is allowed, its endpoint is in one of the
/// networks, and it shook hands lately.
pub fn is_lan_active(
    enabled: bool,
    my_nets: &Vec<Net>,
    handshakes: &Option<CommandOutput>,
    pubkey: &str,
    endpoint: &str,
    now_secs: u64,
) -> (r: bool)
    requires
        nets_wf(my_nets@),
    ensures
        r == (enabled && endpoint_in_nets(endpoint@, my_nets@) && recent(
            handshake_seconds(*handshakes, pubkey@),
            now_secs,
            HANDSHAKE_MAX_AGE_SECS,
        )),
{
    enabled && is_endpoint_in_nets(endpoint, my_nets) && has_recent_handshake(
        handshakes,
        pubkey,
        now_secs,
        HANDSHAKE_MAX_AGE_SECS,
    )
}

// ---------- Switching a peer to the local network ----------

/// A peer that was switched to the local network and has to prove itself there. Times are in
/// nanoseconds of a clock that only goes forward.
pub struct LanVerificationTask {
    pub interface: String,
    pub pubkey: String,
    pub new_endpoint: String,
    /// The endpoint to go back to.
    pub fallback: Option<String>,
    pub start: u128,
    pub timeout: u128,
}

/// The contents of a [`LanVerificationTask`].
pub struct TaskView {
    pub interface: Text,
    pub pubkey: Text,
    pub new_endpoint: Text,
    pub fallback: Option<Text>,
    pub start: u128,
    pub timeout: u128,
}

impl DeepView for LanVerificationTask {
    type V = TaskView;

    open spec fn deep_view(&self) -> TaskView {
        TaskView {
            interface: self.interface@,
            pubkey: self.pubkey@,
            new_endpoint: self.new_endpoint@,
            fallback: self.fallback.deep_view(),
            start: self.start,
            timeout: self.timeout,
        }
    }
}

/// The endpoint that a peer should be switched to: the first of its endpoints that is in one of the
/// networks, where switching is allowed and the peer was not tried lately.
pub open spec fn lan_candidate(
    enabled: bool,
    attempts: Map<Text, u128>,
    nets: Seq<Net>,
    pubkey: Text,
    endpoints: Seq<Text>,
    now: u128,
) -> Option<Text> {
    if !enabled || (attempts.contains_key(pubkey) && now - attempts[pubkey]
        < MIN_LAN_RETRY_INTERVAL) {
        None
    } else {
        match same_lan(endpoints, nets) {
            Some((a, port)) => Some(plain_endpoint(a, port)),
            None => None,
        }
    }
}

/// Decides whether a peer should be switched to the local network, and to which endpoint. The
/// attempt is remembered.
pub fn try_switch_to_lan_endpoint(
    enabled: bool,
    attempts: &mut StrMap<u128>,
    my_nets: &Vec<Net>,
    pubkey: &String,
    local_endpoints: &Vec<String>,
    now: u128,
) -> (r: Option<String>)
    requires
        old(attempts).wf(),
        nets_wf(my_nets@),
    ensures
        final(attempts).wf(),
        r.deep_view() == lan_candidate(
            enabled,
            old(attempts)@,
            my_nets@,
            pubkey@,
            local_endpoints.deep_view(),
            now,
        ),
        final(attempts)@ == if r is Some {
            old(attempts)@.insert(pubkey@, now)
        } else {
            old(attempts)@
        },
{
    if !enabled {
        return None;
    }
    if let Some(last) = attempts.get(pubkey.as_str()) {
        if now < *last || now - *last < MIN_LAN_RETRY_INTERVAL {
            return None;
        }
    }
    match find_same_lan_endpoint(local_endpoints, my_nets) {
        Some((lan_ip, lan_port)) => {
            attempts.insert(pubkey.clone(), now);
            Some(lan_ip.concat(":").concat(decimal_of(lan_port as u64).as_str()))
        },
        None => None,
    }
}

/// The task that watches over a switch.
pub open spec fn switch_task(
    interface: Text,
    pubkey: Text,
    new_endpoint: Text,
    current: Option<Text>,
    now: u128,
) -> TaskView {
    TaskView {
        interface,
        pubkey,
        new_endpoint,
        fallback: current,
        start: now,
        timeout: LAN_HANDSHAKE_TIMEOUT,
    }
}

/// Goes on with a switch once the peer's current endpoint is known. Returns whether the peer has to
/// be given the new endpoint; the peer is then watched.
pub fn start_lan_switch(
    tasks: &mut Vec<LanVerificationTask>,
    interface: &String,
    pubkey: &String,
    new_endpoint: &String,
    current: Option<String>,
    now: u128,
) -> (r: bool)
    ensures
        r == (current.deep_view() != Some(new_endpoint@)),
        final(tasks).deep_view() == if r {
            old(tasks).deep_view().push(
                switch_task(interface@, pubkey@, new_endpoint@, current.deep_view(), now),
            )
        } else {
            old(tasks).deep_view()
        },
{
    let same = match &current {
        Some(c) => text_eq(c.as_str(), new_endpoint.as_str()),
        None => false,
    };
    if same {
        return false;
    }
    let ghost before = tasks.deep_view();
    let ghost told = current.deep_view();
    tasks.push(
        LanVerificationTask {
            interface: interface.clone(),
            pubkey: pubkey.clone(),
            new_endpoint: new_endpoint.clone(),
            fallback: current,
            start: now,
            timeout: LAN_HANDSHAKE_TIMEOUT,
        },
    );
    assert(tasks.deep_view() =~= before.push(
        switch_task(interface@, pubkey@, new_endpoint@, told, now),
    ));
    true
}

// ---------- Watching switched peers ----------

/// Where a round over the switched peers stands.
#[derive(Clone, Copy)]
pub enum LanStage {
    /// Waiting for the current endpoint of the peer at hand.
    Asking,
    /// Waiting to hear whether it shook hands lately.
    Confirming,
    /// Waiting for it to be given back its former endpoint.
    Reverting,
    /// The round is over.
    Over,
}

/// A round over the switched peers.
pub struct LanCheck {
    todo: Vec<LanVerificationTask>,
    kept: Vec<LanVerificationTask>,
    stage: LanStage,
}

/// The contents of a [`LanCheck`].
pub struct LanView {
    /// The peers left to look at; the first one is at hand.
    pub todo: Seq<TaskView>,
    /// The peers to go on watching.
    pub kept: Seq<TaskView>,
    pub stage: LanStage,
}

impl View for LanCheck {
    type V = LanView;

    closed spec fn view(&self) -> LanView {
        LanView { todo: self.todo.deep_view(), kept: self.kept.deep_view(), stage: self.stage }
    }
}

/// Going on with the peers that are left.
pub open spec fn lan_from(todo: Seq<TaskView>, kept: Seq<TaskView>) -> LanView {
    LanView {
        todo,
        kept,
        stage: if todo.len() == 0 {
            LanStage::Over
        } else {
            LanStage::Asking
        },
    }
}

/// What a round asks next.
pub open spec fn lan_ask(v: LanView) -> Ask {
    match v.stage {
        LanStage::Asking => Ask::Endpoint { pubkey: v.todo[0].pubkey },
        LanStage::Confirming => Ask::Recent {
            pubkey: v.todo[0].pubkey,
            max_age: HANDSHAKE_MAX_AGE_SECS,
        },
        LanStage::Reverting => Ask::SetEndpoint {
            pubkey: v.todo[0].pubkey,
            endpoint: v.todo[0].fallback->0,
        },
        LanStage::Over => Ask::Done,
    }
}

/// Where an answer takes a round. A peer whose endpoint was changed since, or that shook hands, is
/// watched no longer; one that did not in time goes back to its former endpoint.
pub open spec fn lan_step(v: LanView, told: Told, now: u128) -> LanView {
    let task = v.todo[0];
    let rest = v.todo.skip(1);
    match v.stage {
        LanStage::Asking => if told == Told::Text(Some(task.new_endpoint)) {
            LanView { stage: LanStage::Confirming, ..v }
        } else {
            lan_from(rest, v.kept)
        },
        LanStage::Confirming => if told == Told::Flag(true) {
            lan_from(rest, v.kept)
        } else if now - task.start >= task.timeout || (task.timeout == 0 && now < task.start) {
            if task.fallback is Some {
                LanView { stage: LanStage::Reverting, ..v }
            } else {
                lan_from(rest, v.kept)
            }
        } else {
            lan_from(rest, v.kept.push(task))
        },
        LanStage::Reverting => lan_from(rest, v.kept),
        LanStage::Over => v,
    }
}

/// A round that is not over has a peer at hand.
pub open spec fn lan_wf(v: LanView) -> bool {
    match v.stage {
        LanStage::Asking | LanStage::Confirming => v.todo.len() > 0,
        LanStage::Reverting => v.todo.len() > 0 && v.todo[0].fallback is Some,
        LanStage::Over => true,
    }
}

/// Starts a round over the switched peers, which are taken out of the list.
pub fn process_lan_verification_tasks(tasks: &mut Vec<LanVerificationTask>) -> (r: LanCheck)
    ensures
        r@ == lan_from(old(tasks).deep_view(), Seq::empty()),
        lan_wf(r@),
        final(tasks)@.len() == 0,
{
    let mut todo: Vec<LanVerificationTask> = Vec::new();
    let ghost before = tasks.deep_view();
    todo.append(tasks);
    assert(todo.deep_view() =~= before);
    let kept: Vec<LanVerificationTask> = Vec::new();
    assert(kept.deep_view() =~= Seq::<TaskView>::empty());
    let stage = if todo.len() == 0 {
        LanStage::Over
    } else {
        LanStage::Asking
    };
    assert(todo.deep_view().len() == todo@.len());
    LanCheck { todo, kept, stage }
}

impl LanCheck {
    /// What the round asks next.
    pub fn request(&self) -> (r: Request)
        requires
            lan_wf(self@),
        ensures
            r.deep_view() == lan_ask(self@),
    {
        assert(self.todo.deep_view().len() == self.todo@.len());
        match self.stage {
            LanStage::Asking => Request::Endpoint { pubkey: self.todo[0].pubkey.clone() },
            LanStage::Confirming => Request::Recent {
                pubkey: self.todo[0].pubkey.clone(),
                max_age: HANDSHAKE_MAX_AGE_SECS,
            },
            LanStage::Reverting => match &self.todo[0].fallback {
                Some(f) => Request::SetEndpoint {
                    pubkey: self.todo[0].pubkey.clone(),
                    endpoint: f.clone(),
                },
                None => Request::Done,
            },
            LanStage::Over => Request::Done,
        }
    }

    fn next(&mut self, keep: bool)
        requires
            old(self)@.todo.len() > 0,
        ensures
            final(self)@ == lan_from(
                old(self)@.todo.skip(1),
                if keep {
                    old(self)@.kept.push(old(self)@.todo[0])
                } else {
                    old(self)@.kept
                },
            ),
    {
        assert(self.todo.deep_view().len() == self.todo@.len());
        let ghost todo = self.todo.deep_view();
        let ghost kept = self.kept.deep_view();
        let task = self.todo.remove(0);
        assert(self.todo.deep_view() =~= todo.skip(1));
        assert(task.deep_view() == todo[0]);
        if keep {
            self.kept.push(task);
            assert(self.kept.deep_view() =~= kept.push(todo[0]));
        }
        assert(self.todo.deep_view().len() == self.todo@.len());
        self.stage = if self.todo.len() == 0 {
            LanStage::Over
        } else {
            LanStage::Asking
        };
    }

    /// Takes the answer to the last request and says what to ask next.
    pub fn step(&mut self, answer: Answer, now: u128) -> (r: Request)
        requires
            lan_wf(old(self)@),
            fits(lan_ask(old(self)@), answer.deep_view()),
        ensures
            final(self)@ == lan_step(old(self)@, answer.deep_view(), now),
            lan_wf(final(self)@),
            r.deep_view() == lan_ask(final(self)@),
    {
        assert(self.todo.deep_view().len() == self.todo@.len());
        match self.stage {
            LanStage::Asking => {
                let there = match answer.text() {
                    Some(ep) => text_eq(ep.as_str(), self.todo[0].new_endpoint.as_str()),
                    None => false,
                };
                if there {
                    self.stage = LanStage::Confirming;
                } else {
                    self.next(false);
                }
            },
            LanStage::Confirming => {
                let elapsed: u128 = if now >= self.todo[0].start {
                    now - self.todo[0].start
                } else {
                    0
                };
                if answer.flag() {
                    self.next(false);
                } else if elapsed >= self.todo[0].timeout {
                    if self.todo[0].fallback.is_some() {
                        self.stage = LanStage::Reverting;
                    } else {
                        self.next(false);
                    }
                } else {
                    self.next(true);
                }
            },
            LanStage::Reverting => {
                self.next(false);
            },
            LanStage::Over => {},
        }
        assert(self.todo.deep_view().len() == self.todo@.len());
        self.request()
    }

    /// The interface of the peers, that of the first one.
    pub fn interface(&self) -> (r: Option<String>)
        ensures
            r.deep_view() == if self@.todo.len() > 0 {
                Some(self@.todo[0].interface)
            } else {
                None
            },
    {
        assert(self.todo.deep_view().len() == self.todo@.len());
        if self.todo.len() > 0 {
            Some(self.todo[0].interface.clone())
        } else {
            None
        }
    }

    /// The peers to go on watching after the round.
    pub fn into_tasks(self) -> (r: Vec<LanVerificationTask>)
        ensures
            r.deep_view() == self@.kept,
    {
        self.kept
    }
}

// ---------- Laws ----------

/// A peer that did not shake hands over the local network in time is given back its former
/// endpoint, and is watched no longer.
pub proof fn law_lan_switch_falls_back(v: LanView, now: u128, former: Text)
    requires
        lan_wf(v),
        v.stage is Confirming,
        now - v.todo[0].start >= v.todo[0].timeout,
        v.todo[0].fallback == Some(former),
    ensures
        ({
            let w = lan_step(v, Told::Flag(false), now);
            &&& lan_ask(w) == (Ask::SetEndpoint { pubkey: v.todo[0].pubkey, endpoint: former })
            &&& forall|told: Told|
                #[trigger] lan_step(w, told, now) == lan_from(v.todo.skip(1), v.kept)
        }),
{
}

/// A peer that shook hands keeps the endpoint in the local network: the round makes no change for
/// it.
pub proof fn law_confirmed_switch_stays(v: LanView, now: u128)
    requires
        lan_wf(v),
        v.stage is Confirming,
    ensures
        lan_step(v, Told::Flag(true), now) == lan_from(v.todo.skip(1), v.kept),
{
}

/// A peer whose endpoint is no longer the one it was switched to is left alone.
pub proof fn law_moved_peer_is_left_alone(v: LanView, told: Told, now: u128)
    requires
        lan_wf(v),
        v.stage is Asking,
        told != Told::Text(Some(v.todo[0].new_endpoint)),
    ensures
        lan_step(v, told, now) == lan_from(v.todo.skip(1), v.kept),
{
}

/// Every answer brings a round nearer to its end, and a round never watches more peers than before.
pub proof fn law_lan_round_ends(v: LanView, told: Told, now: u128)
    requires
        lan_wf(v),
        v.stage !is Over,
    ensures
        ({
            let w = lan_step(v, told, now);
            &&& lan_wf(w)
            &&& w.todo.len() + w.kept.len() <= v.todo.len() + v.kept.len()
            &&& lan_left(w) < lan_left(v)
        }),
{
}

/// How many steps a round has left at most.
pub open spec fn lan_left(v: LanView) -> nat {
    let n = 3 * v.todo.len();
    match v.stage {
        LanStage::Asking => n,
        LanStage::Confirming => (n - 1) as nat,
        LanStage::Reverting => (n - 2) as nat,
        LanStage::Over => 0,
    }
}

/// A peer is tried over the local network only where this is allowed, at an endpoint that it
/// reported and that is in one of this node's networks, and not again before the set time has gone
/// by.
pub proof fn law_lan_candidate(
    enabled: bool,
    attempts: Map<Text, u128>,
    nets: Seq<Net>,
    pubkey: Text,
    endpoints: Seq<Text>,
    now: u128,
)
    requires
        lan_candidate(enabled, attempts, nets, pubkey, endpoints, now) is Some,
    ensures
        enabled,
        attempts.contains_key(pubkey) ==> now - attempts[pubkey] >= MIN_LAN_RETRY_INTERVAL,
        exists|i: int|
            0 <= i < endpoints.len() && endpoint_in_nets(#[trigger] endpoints[i], nets),
        forall|later: u128|
            later - now < MIN_LAN_RETRY_INTERVAL ==> #[trigger] lan_candidate(
                enabled,
                attempts.insert(pubkey, now),
                nets,
                pubkey,
                endpoints,
                later,
            ) is None,
{
    lemma_same_lan(endpoints, nets);
}

proof fn lemma_same_lan(endpoints: Seq<Text>, nets: Seq<Net>)
    requires
        same_lan(endpoints, nets) is Some,
    ensures
        exists|i: int|
            0 <= i < endpoints.len() && endpoint_in_nets(#[trigger] endpoints[i], nets),
    decreases endpoints.len(),
{
    if endpoint_in_nets(endpoints[0], nets) {
    } else {
        let rest = endpoints.drop_first();
        lemma_same_lan(rest, nets);
        let i = choose|i: int| 0 <= i < rest.len() && endpoint_in_nets(#[trigger] rest[i], nets);
        assert(endpoints[i + 1] == rest[i]);
    }
}

/// Whatever node reports an endpoint of its own, the node that hears of it reads the same address
/// and port.
pub proof fn law_reported_endpoints_are_understood(nets: Seq<Net>, port: u16, i: int)
    requires
        0 <= i < nets.len(),
    ensures
        endpoint(reported_endpoints(nets, port)[i]) == Some((nets[i].addr, port)),
{
    crate::ip_text::law_local_endpoint_reads_back(nets[i].addr, port);
}

} // verus!
