//! Bringing advertised routes into force.
use vstd::prelude::*;

use crate::commands::{Call, Invocation};
use crate::ip_text::dotted;
use crate::model::{AdvertisedRoutes, RoutesView};
use crate::number::{decimal, decimal_of, read_u8};
use crate::routes::{
    cidr_valid, find_route_v4, is_valid_cidr, netmask, prefix_to_v4_netmask, route_v6_exists,
    v4_route_in, v6_route_in,
};
use crate::self_ips::bare_address;
use crate::text::{
    copy_list, distinct, distinct_texts, lemma_distinct, lemma_list_len, lemma_minus, minus,
    minus_texts, owned, split_first, split_once, Text,
};
use crate::wg::CommandOutput;
use crate::wg_state::number_or;

verus! {

// ---------- What has to change ----------

/// The length of a network's prefix, after the slash.
pub open spec fn prefix_of(cidr: Text, default: nat) -> nat {
    match split_first(cidr, '/') {
        Some((_, prefix)) => number_or(prefix, u8::MAX as nat, default),
        None => default,
    }
}

fn split_cidr(cidr: &String, default: u8) -> (r: (String, u8))
    ensures
        r.0@ == bare_address(cidr@),
        r.1 == prefix_of(cidr@, default as nat),
{
    match split_once(cidr.as_str(), '/') {
        Some((net, prefix)) => {
            let n: u8 = match read_u8(prefix.as_str()) {
                Some(n) => n,
                None => default,
            };
            (net, n)
        },
        None => (cidr.clone(), default),
    }
}

/// An IPv4 route to add: the network as advertised, its address and its netmask.
pub open spec fn v4_addition(cidr: Text) -> (Text, Text, Text) {
    (cidr, bare_address(cidr), dotted(netmask(prefix_of(cidr, 32))))
}

/// The IPv4 routes to add, without what names no network.
pub open spec fn v4_additions(list: Seq<Text>) -> Seq<(Text, Text, Text)>
    decreases list.len(),
{
    if list.len() == 0 {
        Seq::empty()
    } else {
        let front = v4_additions(list.drop_last());
        if cidr_valid(list.last()) {
            front.push(v4_addition(list.last()))
        } else {
            front
        }
    }
}

/// An IPv6 route to add: the network as advertised, its address and the length of its prefix.
pub open spec fn v6_addition(cidr: Text) -> (Text, Text, u8) {
    (cidr, bare_address(cidr), prefix_of(cidr, 128) as u8)
}

/// The IPv6 routes to add, without what names no network.
pub open spec fn v6_additions(list: Seq<Text>) -> Seq<(Text, Text, u8)>
    decreases list.len(),
{
    if list.len() == 0 {
        Seq::empty()
    } else {
        let front = v6_additions(list.drop_last());
        if cidr_valid(list.last()) {
            front.push(v6_addition(list.last()))
        } else {
            front
        }
    }
}

/// Whether one of the networks has a prefix that no IPv4 netmask is long enough for.
pub open spec fn unmaskable(list: Seq<Text>) -> bool {
    exists|i: int|
        0 <= i < list.len() && cidr_valid(#[trigger] list[i]) && prefix_of(list[i], 32) > 32
}

fn v4_additions_of(list: &Vec<String>) -> (r: Option<Vec<(String, String, String)>>)
    ensures
        match r {
            Some(v) => !unmaskable(list.deep_view()) && v.deep_view() == v4_additions(
                list.deep_view(),
            ),
            None => unmaskable(list.deep_view()),
        },
{
    let ghost all = list.deep_view();
    let mut out: Vec<(String, String, String)> = Vec::new();
    let mut i: usize = 0;
    assert(out.deep_view() =~= v4_additions(all.take(0)));
    while i < list.len()
        invariant
            all == list.deep_view(),
            i <= list@.len(),
            out.deep_view() == v4_additions(all.take(i as int)),
            forall|k: int|
                0 <= k < i ==> !(cidr_valid(#[trigger] all[k]) && prefix_of(all[k], 32) > 32),
        decreases list.len() - i,
    {
        proof {
            assert(all.take(i + 1).drop_last() =~= all.take(i as int));
            assert(all[i as int] == list@[i as int]@);
        }
        if is_valid_cidr(list[i].as_str()) {
            let (net, prefix) = split_cidr(&list[i], 32);
            if prefix > 32 {
                assert(unmaskable(all));
                return None;
            }
            let mask = prefix_to_v4_netmask(prefix);
            let ghost before = out.deep_view();
            out.push((list[i].clone(), net, mask));
            assert(out.deep_view() =~= before.push(v4_addition(all[i as int])));
        }
        i += 1;
    }
    assert(all.take(list@.len() as int) =~= all);
    assert(all.len() == list@.len());
    Some(out)
}

fn v6_additions_of(list: &Vec<String>) -> (r: Vec<(String, String, u8)>)
    ensures
        r.deep_view() == v6_additions(list.deep_view()),
{
    let ghost all = list.deep_view();
    let mut out: Vec<(String, String, u8)> = Vec::new();
    let mut i: usize = 0;
    assert(out.deep_view() =~= v6_additions(all.take(0)));
    while i < list.len()
        invariant
            all == list.deep_view(),
            i <= list@.len(),
            out.deep_view() == v6_additions(all.take(i as int)),
        decreases list.len() - i,
    {
        proof {
            assert(all.take(i + 1).drop_last() =~= all.take(i as int));
            assert(all[i as int] == list@[i as int]@);
        }
        if is_valid_cidr(list[i].as_str()) {
            let (net, prefix) = split_cidr(&list[i], 128);
            let ghost before = out.deep_view();
            out.push((list[i].clone(), net, prefix));
            assert(out.deep_view() =~= before.push(v6_addition(all[i as int])));
        }
        i += 1;
    }
    assert(all.take(list@.len() as int) =~= all);
    out
}

// ---------- The steps ----------

/// Where the change of routes stands; `i` counts routes and `idx` is the interface's number.
#[derive(Clone, Copy)]
pub enum RouteStage {
    /// Waiting for an old IPv4 route to be deleted.
    Deleting4 { i: usize },
    /// Waiting for the interface's number, to delete an old IPv6 route.
    Locating6 { i: usize },
    /// Waiting for an old IPv6 route to be deleted.
    Deleting6 { i: usize, idx: u32 },
    /// Waiting for the interface's number, to add new routes.
    Locating,
    /// Waiting before asking for it again.
    Pausing,
    /// Waiting for the interface's number once more.
    Relocating,
    /// Waiting for the IPv4 routing table, to see whether a route is there.
    Checking4 { i: usize, idx: u32 },
    /// Waiting for a new IPv4 route to be added.
    Adding4 { i: usize, idx: u32 },
    /// Waiting for the IPv6 routing table, to see whether a route is there.
    Checking6 { i: usize, idx: u32 },
    /// Waiting for a new IPv6 route to be added.
    Adding6 { i: usize, idx: u32 },
    /// The routes are in force.
    Applied,
    /// The interface's number could not be found.
    Failed,
}

/// A running change of routes.
pub struct RouteSync {
    old4: Vec<String>,
    old6: Vec<String>,
    add4: Vec<(String, String, String)>,
    add6: Vec<(String, String, u8)>,
    new4: Vec<String>,
    new6: Vec<String>,
    stage: RouteStage,
}

/// The contents of a [`RouteSync`].
pub struct SyncView {
    /// The routes to delete.
    pub old4: Seq<Text>,
    pub old6: Seq<Text>,
    /// The routes to add.
    pub add4: Seq<(Text, Text, Text)>,
    pub add6: Seq<(Text, Text, u8)>,
    /// The routes that will be in force.
    pub new4: Seq<Text>,
    pub new6: Seq<Text>,
    pub stage: RouteStage,
}

impl View for RouteSync {
    type V = SyncView;

    closed spec fn view(&self) -> SyncView {
        SyncView {
            old4: self.old4.deep_view(),
            old6: self.old6.deep_view(),
            add4: self.add4.deep_view(),
            add6: self.add6.deep_view(),
            new4: self.new4.deep_view(),
            new6: self.new6.deep_view(),
            stage: self.stage,
        }
    }
}

/// What a change of routes needs done next.
pub enum RouteRequest {
    /// Run a command.
    Run(Invocation),
    /// Run a command and tell what it wrote.
    Table(Invocation),
    /// Find the interface's number.
    Index,
    /// Wait for so many seconds.
    Pause { secs: u64 },
    /// Nothing: the change is over.
    Over { applied: bool },
}

/// The contents of a [`RouteRequest`].
pub enum RouteAsk {
    Run(Call),
    Table(Call),
    Index,
    Pause { secs: u64 },
    Over { applied: bool },
}

impl DeepView for RouteRequest {
    type V = RouteAsk;

    open spec fn deep_view(&self) -> RouteAsk {
        match *self {
            RouteRequest::Run(c) => RouteAsk::Run(c.deep_view()),
            RouteRequest::Table(c) => RouteAsk::Table(c.deep_view()),
            RouteRequest::Index => RouteAsk::Index,
            RouteRequest::Pause { secs } => RouteAsk::Pause { secs },
            RouteRequest::Over { applied } => RouteAsk::Over { applied },
        }
    }
}

/// What came back on a [`RouteRequest`].
pub enum RouteAnswer {
    /// It was done, or tried.
    Done,
    /// The interface's number, if it was found.
    Index(Option<u32>),
    /// What the command wrote, if it was run.
    Table(Option<CommandOutput>),
}

/// The call that deletes an IPv4 route.
pub open spec fn delete_v4(cidr: Text) -> Call {
    Call { program: "cmd"@, args: seq!["/c"@, "route"@, "delete"@, cidr] }
}

/// The call that deletes an IPv6 route.
pub open spec fn delete_v6(cidr: Text, idx: u32) -> Call {
    Call { program: "route"@, args: seq!["delete"@, cidr, "::"@, "if"@, decimal(idx as nat)] }
}

/// The call that adds an IPv4 route.
pub open spec fn add_v4(cidr: Text, idx: u32) -> Call {
    Call {
        program: "cmd"@,
        args: seq![
            "/c"@,
            "route"@,
            "-p"@,
            "add"@,
            cidr,
            "0.0.0.0"@,
            "if"@,
            decimal(idx as nat),
        ],
    }
}

/// The call that adds an IPv6 route.
pub open spec fn add_v6(cidr: Text, idx: u32) -> Call {
    Call {
        program: "route"@,
        args: seq!["-p"@, "add"@, cidr, "::"@, "if"@, decimal(idx as nat)],
    }
}

/// The call that prints a routing table.
pub open spec fn print_table(family: Text) -> Call {
    Call { program: "route"@, args: seq!["print"@, family] }
}

/// Going on with the old IPv6 routes from the `i`-th.
pub open spec fn delete6_from(v: SyncView, i: int) -> RouteStage {
    if i < v.old6.len() {
        RouteStage::Locating6 { i: i as usize }
    } else {
        RouteStage::Locating
    }
}

/// Going on with the old IPv4 routes from the `i`-th.
pub open spec fn delete4_from(v: SyncView, i: int) -> RouteStage {
    if i < v.old4.len() {
        RouteStage::Deleting4 { i: i as usize }
    } else {
        delete6_from(v, 0)
    }
}

/// Going on with the new IPv6 routes from the `i`-th.
pub open spec fn add6_from(v: SyncView, i: int, idx: u32) -> RouteStage {
    if i < v.add6.len() {
        RouteStage::Checking6 { i: i as usize, idx }
    } else {
        RouteStage::Applied
    }
}

/// Going on with the new IPv4 routes from the `i`-th.
pub open spec fn add4_from(v: SyncView, i: int, idx: u32) -> RouteStage {
    if i < v.add4.len() {
        RouteStage::Checking4 { i: i as usize, idx }
    } else {
        add6_from(v, 0, idx)
    }
}

/// The start of a change from the routes in force to those advertised: routes that are advertised
/// no longer are deleted, and new ones are added.
pub open spec fn sync_start(routes: RoutesView, last: RoutesView) -> SyncView {
    let new4 = distinct(routes.ipv4);
    let new6 = distinct(routes.ipv6);
    let v = SyncView {
        old4: minus(last.ipv4, new4),
        old6: minus(last.ipv6, new6),
        add4: v4_additions(minus(new4, last.ipv4)),
        add6: v6_additions(minus(new6, last.ipv6)),
        new4,
        new6,
        stage: RouteStage::Locating,
    };
    SyncView { stage: delete4_from(v, 0), ..v }
}

/// What a change of routes needs done next.
pub open spec fn sync_ask(v: SyncView) -> RouteAsk {
    match v.stage {
        RouteStage::Deleting4 { i } => RouteAsk::Run(delete_v4(v.old4[i as int])),
        RouteStage::Locating6 { .. } | RouteStage::Locating | RouteStage::Relocating =>
            RouteAsk::Index,
        RouteStage::Deleting6 { i, idx } => RouteAsk::Run(delete_v6(v.old6[i as int], idx)),
        RouteStage::Pausing => RouteAsk::Pause { secs: 1 },
        RouteStage::Checking4 { .. } => RouteAsk::Table(print_table("-4"@)),
        RouteStage::Adding4 { i, idx } => RouteAsk::Run(add_v4(v.add4[i as int].0, idx)),
        RouteStage::Checking6 { .. } => RouteAsk::Table(print_table("-6"@)),
        RouteStage::Adding6 { i, idx } => RouteAsk::Run(add_v6(v.add6[i as int].0, idx)),
        RouteStage::Applied => RouteAsk::Over { applied: true },
        RouteStage::Failed => RouteAsk::Over { applied: false },
    }
}

/// The interface's number, where the answer tells it.
pub open spec fn told_index(answer: RouteAnswer) -> Option<u32> {
    match answer {
        RouteAnswer::Index(i) => i,
        _ => None,
    }
}

/// What a command wrote, where the answer tells it.
pub open spec fn told_table(answer: RouteAnswer) -> Option<CommandOutput> {
    match answer {
        RouteAnswer::Table(o) => o,
        _ => None,
    }
}

/// Where an answer takes a change of routes. A route that the system already has, on whatever
/// interface, is not added.
pub open spec fn sync_next(v: SyncView, answer: RouteAnswer) -> RouteStage {
    match v.stage {
        RouteStage::Deleting4 { i } => delete4_from(v, i + 1),
        RouteStage::Locating6 { i } => match told_index(answer) {
            Some(idx) => RouteStage::Deleting6 { i, idx },
            None => delete6_from(v, i + 1),
        },
        RouteStage::Deleting6 { i, .. } => delete6_from(v, i + 1),
        RouteStage::Locating => match told_index(answer) {
            Some(idx) => add4_from(v, 0, idx),
            None => RouteStage::Pausing,
        },
        RouteStage::Pausing => RouteStage::Relocating,
        RouteStage::Relocating => match told_index(answer) {
            Some(idx) => add4_from(v, 0, idx),
            None => RouteStage::Failed,
        },
        RouteStage::Checking4 { i, idx } => if v4_route_in(
            told_table(answer),
            v.add4[i as int].1,
            v.add4[i as int].2,
        ) is Some {
            add4_from(v, i + 1, idx)
        } else {
            RouteStage::Adding4 { i, idx }
        },
        RouteStage::Adding4 { i, idx } => add4_from(v, i + 1, idx),
        RouteStage::Checking6 { i, idx } => if v6_route_in(
            told_table(answer),
            v.add6[i as int].1,
            v.add6[i as int].2,
        ) {
            add6_from(v, i + 1, idx)
        } else {
            RouteStage::Adding6 { i, idx }
        },
        RouteStage::Adding6 { i, idx } => add6_from(v, i + 1, idx),
        RouteStage::Applied => RouteStage::Applied,
        RouteStage::Failed => RouteStage::Failed,
    }
}

/// The routes in force after an answer: the advertised ones once the change is through.
pub open spec fn sync_last(v: SyncView, last: RoutesView, answer: RouteAnswer) -> RoutesView {
    if v.stage !is Applied && sync_next(v, answer) is Applied {
        RoutesView { ipv4: v.new4, ipv6: v.new6 }
    } else {
        last
    }
}

/// The routes that a change refers to exist.
pub open spec fn sync_wf(v: SyncView) -> bool {
    match v.stage {
        RouteStage::Deleting4 { i } => i < v.old4.len(),
        RouteStage::Locating6 { i } => i < v.old6.len(),
        RouteStage::Deleting6 { i, .. } => i < v.old6.len(),
        RouteStage::Checking4 { i, .. } => i < v.add4.len(),
        RouteStage::Adding4 { i, .. } => i < v.add4.len(),
        RouteStage::Checking6 { i, .. } => i < v.add6.len(),
        RouteStage::Adding6 { i, .. } => i < v.add6.len(),
        _ => true,
    }
}

/// Starts the change from the routes in force to those advertised. There is no such change, and
/// `None` is returned, where a new network among the IPv4 routes has a prefix of more than 32.
pub fn apply_advertised_routes(routes: &AdvertisedRoutes, last: &AdvertisedRoutes) -> (r: Option<
    RouteSync,
>)
    ensures
        ({
            let fresh = minus(distinct(routes.deep_view().ipv4), last.deep_view().ipv4);
            match r {
                Some(s) => {
                    &&& !unmaskable(fresh)
                    &&& s@ == sync_start(routes.deep_view(), last.deep_view())
                    &&& sync_wf(s@)
                },
                None => unmaskable(fresh),
            }
        }),
{
    let new4 = distinct_texts(&routes.ipv4);
    let new6 = distinct_texts(&routes.ipv6);
    let add4 = match v4_additions_of(&minus_texts(&new4, &last.ipv4)) {
        Some(v) => v,
        None => return None,
    };
    let add6 = v6_additions_of(&minus_texts(&new6, &last.ipv6));
    let mut r = RouteSync {
        old4: minus_texts(&last.ipv4, &new4),
        old6: minus_texts(&last.ipv6, &new6),
        add4,
        add6,
        new4,
        new6,
        stage: RouteStage::Locating,
    };
    proof {
        lemma_list_len(&r.old4);
        lemma_list_len(&r.old6);
    }
    let stage = r.delete4(0);
    r.stage = stage;
    Some(r)
}

impl RouteSync {
    fn delete6(&self, i: usize) -> (r: RouteStage)
        ensures
            r == delete6_from(self@, i as int),
    {
        proof {
            lemma_list_len(&self.old6);
        }
        if i < self.old6.len() {
            RouteStage::Locating6 { i }
        } else {
            RouteStage::Locating
        }
    }

    fn delete4(&self, i: usize) -> (r: RouteStage)
        ensures
            r == delete4_from(self@, i as int),
    {
        proof {
            lemma_list_len(&self.old4);
        }
        if i < self.old4.len() {
            RouteStage::Deleting4 { i }
        } else {
            self.delete6(0)
        }
    }

    fn add6(&self, i: usize, idx: u32) -> (r: RouteStage)
        ensures
            r == add6_from(self@, i as int, idx),
    {
        assert(self.add6.deep_view().len() == self.add6@.len());
        if i < self.add6.len() {
            RouteStage::Checking6 { i, idx }
        } else {
            RouteStage::Applied
        }
    }

    fn add4(&self, i: usize, idx: u32) -> (r: RouteStage)
        ensures
            r == add4_from(self@, i as int, idx),
    {
        assert(self.add4.deep_view().len() == self.add4@.len());
        if i < self.add4.len() {
            RouteStage::Checking4 { i, idx }
        } else {
            self.add6(0, idx)
        }
    }

    /// What the change needs done next.
    pub fn request(&self) -> (r: RouteRequest)
        requires
            sync_wf(self@),
        ensures
            r.deep_view() == sync_ask(self@),
    {
        match self.stage {
            RouteStage::Deleting4 { i } => {
                let args = vec![
                    owned("/c"),
                    owned("route"),
                    owned("delete"),
                    self.old4[i].clone(),
                ];
                assert(args.deep_view() =~= delete_v4(self@.old4[i as int]).args);
                RouteRequest::Run(Invocation { program: owned("cmd"), args })
            },
            RouteStage::Locating6 { .. } => RouteRequest::Index,
            RouteStage::Locating => RouteRequest::Index,
            RouteStage::Relocating => RouteRequest::Index,
            RouteStage::Deleting6 { i, idx } => {
                let args = vec![
                    owned("delete"),
                    self.old6[i].clone(),
                    owned("::"),
                    owned("if"),
                    decimal_of(idx as u64),
                ];
                assert(args.deep_view() =~= delete_v6(self@.old6[i as int], idx).args);
                RouteRequest::Run(Invocation { program: owned("route"), args })
            },
            RouteStage::Pausing => RouteRequest::Pause { secs: 1 },
            RouteStage::Checking4 { .. } => table_request("-4"),
            RouteStage::Adding4 { i, idx } => {
                assert(self.add4.deep_view().len() == self.add4@.len());
                let args = vec![
                    owned("/c"),
                    owned("route"),
                    owned("-p"),
                    owned("add"),
                    self.add4[i].0.clone(),
                    owned("0.0.0.0"),
                    owned("if"),
                    decimal_of(idx as u64),
                ];
                assert(args.deep_view() =~= add_v4(self@.add4[i as int].0, idx).args);
                RouteRequest::Run(Invocation { program: owned("cmd"), args })
            },
            RouteStage::Checking6 { .. } => table_request("-6"),
            RouteStage::Adding6 { i, idx } => {
                assert(self.add6.deep_view().len() == self.add6@.len());
                let args = vec![
                    owned("-p"),
                    owned("add"),
                    self.add6[i].0.clone(),
                    owned("::"),
                    owned("if"),
                    decimal_of(idx as u64),
                ];
                assert(args.deep_view() =~= add_v6(self@.add6[i as int].0, idx).args);
                RouteRequest::Run(Invocation { program: owned("route"), args })
            },
            RouteStage::Applied => RouteRequest::Over { applied: true },
            RouteStage::Failed => RouteRequest::Over { applied: false },
        }
    }

    fn next(&self, answer: &RouteAnswer) -> (r: RouteStage)
        requires
            sync_wf(self@),
        ensures
            r == sync_next(self@, *answer),
    {
        proof {
            lemma_list_len(&self.old4);
            lemma_list_len(&self.old6);
            assert(self.add4.deep_view().len() == self.add4@.len());
            assert(self.add6.deep_view().len() == self.add6@.len());
            assert(self.add4@.len() == self.add4.len());
            assert(self.add6@.len() == self.add6.len());
        }
        match self.stage {
            RouteStage::Deleting4 { i } => self.delete4(i + 1),
            RouteStage::Locating6 { i } => match index_from(answer) {
                Some(idx) => RouteStage::Deleting6 { i, idx },
                None => self.delete6(i + 1),
            },
            RouteStage::Deleting6 { i, .. } => self.delete6(i + 1),
            RouteStage::Locating => match index_from(answer) {
                Some(idx) => self.add4(0, idx),
                None => RouteStage::Pausing,
            },
            RouteStage::Pausing => RouteStage::Relocating,
            RouteStage::Relocating => match index_from(answer) {
                Some(idx) => self.add4(0, idx),
                None => RouteStage::Failed,
            },
            RouteStage::Checking4 { i, idx } => {
                let there = match answer {
                    RouteAnswer::Table(o) => find_route_v4(
                        o,
                        self.add4[i].1.as_str(),
                        self.add4[i].2.as_str(),
                    ).is_some(),
                    _ => false,
                };
                if there {
                    self.add4(i + 1, idx)
                } else {
                    RouteStage::Adding4 { i, idx }
                }
            },
            RouteStage::Adding4 { i, idx } => self.add4(i + 1, idx),
            RouteStage::Checking6 { i, idx } => {
                let there = match answer {
                    RouteAnswer::Table(o) => route_v6_exists(
                        o,
                        self.add6[i].1.as_str(),
                        self.add6[i].2,
                    ),
                    _ => false,
                };
                if there {
                    self.add6(i + 1, idx)
                } else {
                    RouteStage::Adding6 { i, idx }
                }
            },
            RouteStage::Adding6 { i, idx } => self.add6(i + 1, idx),
            RouteStage::Applied => RouteStage::Applied,
            RouteStage::Failed => RouteStage::Failed,
        }
    }

    /// Takes the answer to the last request and says what is needed next. Once the change is
    /// through the advertised routes are remembered as those in force.
    pub fn step(&mut self, last: &mut AdvertisedRoutes, answer: &RouteAnswer) -> (r: RouteRequest)
        requires
            sync_wf(old(self)@),
        ensures
            final(self)@ == (SyncView { stage: sync_next(old(self)@, *answer), ..old(self)@ }),
            final(last).deep_view() == sync_last(old(self)@, old(last).deep_view(), *answer),
            sync_wf(final(self)@),
            r.deep_view() == sync_ask(final(self)@),
    {
        let before = self.stage;
        let stage = self.next(answer);
        self.stage = stage;
        let was = match before {
            RouteStage::Applied => true,
            _ => false,
        };
        if let RouteStage::Applied = stage {
            if !was {
                last.ipv4 = copy_list(&self.new4);
                last.ipv6 = copy_list(&self.new6);
            }
        }
        proof {
            lemma_list_len(&self.old4);
            lemma_list_len(&self.old6);
            assert(self.add4.deep_view().len() == self.add4@.len());
            assert(self.add6.deep_view().len() == self.add6@.len());
            assert(self.add4@.len() == self.add4.len());
            assert(self.add6@.len() == self.add6.len());
        }
        self.request()
    }
}

fn table_request(family: &str) -> (r: RouteRequest)
    ensures
        r.deep_view() == RouteAsk::Table(print_table(family@)),
{
    let args = vec![owned("print"), owned(family)];
    assert(args.deep_view() =~= seq!["print"@, family@]);
    RouteRequest::Table(Invocation { program: owned("route"), args })
}

fn index_from(answer: &RouteAnswer) -> (r: Option<u32>)
    ensures
        r == told_index(*answer),
{
    match answer {
        RouteAnswer::Index(i) => *i,
        _ => None,
    }
}

// ---------- Laws ----------

proof fn lemma_minus_self(a: Seq<Text>, b: Seq<Text>)
    requires
        forall|x: Text| #[trigger] a.contains(x) ==> b.contains(x),
    ensures
        minus(a, b).len() == 0,
{
    lemma_minus(a, b);
    if minus(a, b).len() > 0 {
        let x = minus(a, b)[0];
        assert(a.contains(x));
    }
}

/// Whether two lists name the same routes, in whatever order and however often.
pub open spec fn same_routes(a: Seq<Text>, b: Seq<Text>) -> bool {
    forall|x: Text| #[trigger] a.contains(x) <==> b.contains(x)
}

/// Advertising routes that are in force changes nothing: no route is deleted and none is added,
/// in whatever order and however often they are named.
pub proof fn law_same_routes_change_nothing(routes: RoutesView, last: RoutesView, v: SyncView)
    requires
        same_routes(routes.ipv4, last.ipv4),
        same_routes(routes.ipv6, last.ipv6),
        v == (SyncView { stage: v.stage, ..sync_start(routes, last) }),
        sync_wf(v),
    ensures
        sync_ask(v) !is Run,
        same_routes(v.new4, last.ipv4),
        same_routes(v.new6, last.ipv6),
{
    lemma_same_distinct(routes.ipv4, last.ipv4);
    lemma_same_distinct(routes.ipv6, last.ipv6);
    lemma_minus_self(distinct(routes.ipv4), last.ipv4);
    lemma_minus_self(distinct(routes.ipv6), last.ipv6);
    lemma_minus_self(last.ipv4, distinct(routes.ipv4));
    lemma_minus_self(last.ipv6, distinct(routes.ipv6));
    assert(v.add4 =~= Seq::<(Text, Text, Text)>::empty());
    assert(v.add6 =~= Seq::<(Text, Text, u8)>::empty());
}

proof fn lemma_same_distinct(a: Seq<Text>, b: Seq<Text>)
    requires
        same_routes(a, b),
    ensures
        same_routes(distinct(a), b),
{
    lemma_distinct(a);
}

proof fn lemma_v4_additions(list: Seq<Text>)
    ensures
        forall|i: int|
            0 <= i < v4_additions(list).len() ==> list.contains((#[trigger] v4_additions(list)[i]).0)
                && cidr_valid(v4_additions(list)[i].0),
    decreases list.len(),
{
    if list.len() > 0 {
        let front = list.drop_last();
        lemma_v4_additions(front);
        assert forall|i: int| 0 <= i < v4_additions(list).len() implies list.contains(
            (#[trigger] v4_additions(list)[i]).0,
        ) && cidr_valid(v4_additions(list)[i].0) by {
            if i < v4_additions(front).len() {
                let x = v4_additions(front)[i].0;
                assert(v4_additions(list)[i] == v4_additions(front)[i]);
                assert(list[front.index_of(x)] == x);
            } else {
                assert(list.contains(list.last()));
            }
        }
    }
}

proof fn lemma_v6_additions(list: Seq<Text>)
    ensures
        forall|i: int|
            0 <= i < v6_additions(list).len() ==> list.contains((#[trigger] v6_additions(list)[i]).0)
                && cidr_valid(v6_additions(list)[i].0),
    decreases list.len(),
{
    if list.len() > 0 {
        let front = list.drop_last();
        lemma_v6_additions(front);
        assert forall|i: int| 0 <= i < v6_additions(list).len() implies list.contains(
            (#[trigger] v6_additions(list)[i]).0,
        ) && cidr_valid(v6_additions(list)[i].0) by {
            if i < v6_additions(front).len() {
                let x = v6_additions(front)[i].0;
                assert(v6_additions(list)[i] == v6_additions(front)[i]);
                assert(list[front.index_of(x)] == x);
            } else {
                assert(list.contains(list.last()));
            }
        }
    }
}

/// The network that a change of routes is about to delete or add.
pub open spec fn changed_route(v: SyncView) -> Text {
    match v.stage {
        RouteStage::Deleting4 { i } => v.old4[i as int],
        RouteStage::Deleting6 { i, .. } => v.old6[i as int],
        RouteStage::Adding4 { i, .. } => v.add4[i as int].0,
        RouteStage::Adding6 { i, .. } => v.add6[i as int].0,
        _ => Seq::empty(),
    }
}

/// A route is deleted only if it was in force and is advertised no longer, and added only if it is
/// advertised, names a network and was not in force.
pub proof fn law_only_differences_change(routes: RoutesView, last: RoutesView, v: SyncView)
    requires
        v == (SyncView { stage: v.stage, ..sync_start(routes, last) }),
        sync_wf(v),
    ensures
        ({
            let c = changed_route(v);
            match v.stage {
                RouteStage::Deleting4 { .. } => last.ipv4.contains(c) && !routes.ipv4.contains(c),
                RouteStage::Deleting6 { .. } => last.ipv6.contains(c) && !routes.ipv6.contains(c),
                RouteStage::Adding4 { .. } => routes.ipv4.contains(c) && !last.ipv4.contains(c)
                    && cidr_valid(c),
                RouteStage::Adding6 { .. } => routes.ipv6.contains(c) && !last.ipv6.contains(c)
                    && cidr_valid(c),
                _ => sync_ask(v) !is Run,
            }
        }),
{
    let n4 = distinct(routes.ipv4);
    let n6 = distinct(routes.ipv6);
    lemma_distinct(routes.ipv4);
    lemma_distinct(routes.ipv6);
    lemma_minus(last.ipv4, n4);
    lemma_minus(last.ipv6, n6);
    lemma_minus(n4, last.ipv4);
    lemma_minus(n6, last.ipv6);
    lemma_v4_additions(minus(n4, last.ipv4));
    lemma_v6_additions(minus(n6, last.ipv6));
    let c = changed_route(v);
    match v.stage {
        RouteStage::Adding4 { i, .. } => {
            let d = minus(n4, last.ipv4);
            assert(d.contains(c));
            assert(d[d.index_of(c)] == c);
        },
        RouteStage::Adding6 { i, .. } => {
            let d = minus(n6, last.ipv6);
            assert(d.contains(c));
            assert(d[d.index_of(c)] == c);
        },
        _ => {},
    }
}

/// How many steps a change of routes has left at most.
pub open spec fn sync_left(v: SyncView) -> int {
    let adds = (2 * v.add4.len() + 2 * v.add6.len() + 1) as int;
    match v.stage {
        RouteStage::Deleting4 { i } => (v.old4.len() - i) + 2 * v.old6.len() + 3 + adds,
        RouteStage::Locating6 { i } => 2 * (v.old6.len() - i) + 3 + adds,
        RouteStage::Deleting6 { i, .. } => 2 * (v.old6.len() - i) + 2 + adds,
        RouteStage::Locating => 3 + adds,
        RouteStage::Pausing => 2 + adds,
        RouteStage::Relocating => 1 + adds,
        RouteStage::Checking4 { i, .. } => 2 * (v.add4.len() - i) + 2 * v.add6.len() + 1,
        RouteStage::Adding4 { i, .. } => 2 * (v.add4.len() - i) + 2 * v.add6.len(),
        RouteStage::Checking6 { i, .. } => 2 * (v.add6.len() - i) + 1,
        RouteStage::Adding6 { i, .. } => 2 * (v.add6.len() - i),
        RouteStage::Applied | RouteStage::Failed => 0,
    }
}

/// Every answer brings a change of routes nearer to its end.
pub proof fn law_route_sync_ends(v: SyncView, answer: RouteAnswer)
    requires
        sync_wf(v),
        v.stage !is Applied && v.stage !is Failed,
        v.old4.len() <= usize::MAX,
        v.old6.len() <= usize::MAX,
        v.add4.len() <= usize::MAX,
        v.add6.len() <= usize::MAX,
    ensures
        0 <= sync_left(SyncView { stage: sync_next(v, answer), ..v }) < sync_left(v),
{
}

/// A change of routes that fails leaves the record of the routes in force as it was, so that the
/// next snapshot makes the same changes again.
pub proof fn law_failed_sync_is_not_remembered(v: SyncView, last: RoutesView, answer: RouteAnswer)
    requires
        sync_next(v, answer) is Failed,
    ensures
        sync_last(v, last, answer) == last,
{
}

/// Where a change of routes stands after the given answers, and the routes in force then.
pub open spec fn sync_run(v: SyncView, last: RoutesView, answers: Seq<RouteAnswer>) -> (
    SyncView,
    RoutesView,
)
    decreases answers.len(),
{
    if answers.len() == 0 {
        (v, last)
    } else {
        let (w, l) = sync_run(v, last, answers.drop_last());
        (
            SyncView { stage: sync_next(w, answers.last()), ..w },
            sync_last(w, l, answers.last()),
        )
    }
}

/// Whether the interface's number was found whenever it was asked for.
pub open spec fn index_found(v: SyncView, last: RoutesView, answers: Seq<RouteAnswer>) -> bool
    decreases answers.len(),
{
    answers.len() > 0 ==> {
        &&& index_found(v, last, answers.drop_last())
        &&& sync_ask(sync_run(v, last, answers.drop_last()).0) is Index ==> told_index(
            answers.last(),
        ) is Some
    }
}

proof fn lemma_sync_run(v: SyncView, last: RoutesView, answers: Seq<RouteAnswer>)
    requires
        sync_wf(v),
        v.stage !is Applied && v.stage !is Failed && v.stage !is Pausing,
        index_found(v, last, answers),
        v.old4.len() <= usize::MAX,
        v.old6.len() <= usize::MAX,
        v.add4.len() <= usize::MAX,
        v.add6.len() <= usize::MAX,
    ensures
        ({
            let (w, l) = sync_run(v, last, answers);
            &&& w == (SyncView { stage: w.stage, ..v })
            &&& sync_wf(w)
            &&& w.stage !is Failed && w.stage !is Pausing
            &&& w.stage is Applied ==> l == (RoutesView { ipv4: v.new4, ipv6: v.new6 })
            &&& w.stage !is Applied ==> l == last && sync_left(w) + answers.len() <= sync_left(v)
        }),
    decreases answers.len(),
{
    if answers.len() > 0 {
        let front = answers.drop_last();
        lemma_sync_run(v, last, front);
        let (w, l) = sync_run(v, last, front);
        if w.stage !is Applied {
            law_route_sync_ends(w, answers.last());
        }
    }
}

/// Advertised routes come into force: where the interface's number is found whenever it is asked
/// for, a change of routes ends well, and then the routes in force are those advertised.
pub proof fn law_routes_come_into_force(
    routes: RoutesView,
    last: RoutesView,
    answers: Seq<RouteAnswer>,
)
    requires
        index_found(sync_start(routes, last), last, answers),
        answers.len() >= sync_left(sync_start(routes, last)),
        sync_start(routes, last).old4.len() <= usize::MAX,
        sync_start(routes, last).old6.len() <= usize::MAX,
        sync_start(routes, last).add4.len() <= usize::MAX,
        sync_start(routes, last).add6.len() <= usize::MAX,
    ensures
        sync_run(sync_start(routes, last), last, answers).0.stage is Applied,
        sync_run(sync_start(routes, last), last, answers).1 == (RoutesView {
            ipv4: distinct(routes.ipv4),
            ipv6: distinct(routes.ipv6),
        }),
{
    let v = sync_start(routes, last);
    lemma_sync_run(v, last, answers);
    let w = sync_run(v, last, answers).0;
    assert(w.stage !is Applied ==> sync_left(w) > 0);
}

} // verus!
