//! Changes to single peers, and to the routes, that the broker announces.
use vstd::prelude::*;

use crate::model::{
    fits, AdvertisedRoutes, Answer, Ask, NodeStatus, PeerUpdate, Request, RoutesView, Told,
    UpdateView,
};
use crate::relay::{forgotten, RelayTables, TablesView};
use crate::route_sync::{
    index_found, law_routes_come_into_force, sync_left, sync_run, sync_start, RouteAnswer,
};
use crate::text::{copy_list, copy_opt, copy_opt_list, distinct, lemma_list_len, text_eq, Text};

verus! {

// ---------- Reading the message ----------

/// A member of a JSON object, as far as messages are concerned.
pub enum Member {
    /// There is no such member.
    Absent,
    Text(String),
    /// A number that is a `u64`.
    Number(u64),
    /// A list, with those of its elements that are texts.
    List(Vec<Option<String>>),
    /// Anything else.
    Other,
}

/// The contents of a [`Member`].
pub enum MemberView {
    Absent,
    Text(Text),
    Number(u64),
    List(Seq<Option<Text>>),
    Other,
}

impl DeepView for Member {
    type V = MemberView;

    open spec fn deep_view(&self) -> MemberView {
        match *self {
            Member::Absent => MemberView::Absent,
            Member::Text(t) => MemberView::Text(t@),
            Member::Number(n) => MemberView::Number(n),
            Member::List(l) => MemberView::List(l.deep_view()),
            Member::Other => MemberView::Other,
        }
    }
}

/// What `serde_json::from_slice` into a `Value` gives, at a place in it: `None` where the data is
/// not JSON.
pub uninterp spec fn json_at(data: Seq<u8>, place: Seq<char>) -> Option<MemberView>;

/// `serde_json::from_slice::<Value>` of the `serde_json` crate, and `Value::pointer` on what it
/// reads, which follows a place such as `/routes/ipv4` from member to member (in a list, from
/// element to element by number); where one of them is missing, nothing is there. What is read is
/// named, not described: the grammar of JSON is left unsaid.
#[verifier::external_body]
fn serde_json_pointer(data: &[u8], place: &str) -> (r: Option<Member>)
    ensures
        r.deep_view() == json_at(data@, place@),
{
    let value = serde_json::from_slice::<serde_json::Value>(data).ok()?;
    Some(match value.pointer(place) {
        None => Member::Absent,
        Some(serde_json::Value::String(s)) => Member::Text(s.clone()),
        Some(serde_json::Value::Number(n)) => match n.as_u64() {
            Some(n) => Member::Number(n),
            None => Member::Other,
        },
        Some(serde_json::Value::Array(a)) =>
            Member::List(a.iter().map(|x| x.as_str().map(String::from)).collect()),
        Some(_) => Member::Other,
    })
}

/// The members of a message that matter.
pub struct DeltaMembers {
    pub action: Member,
    pub pubkey: Member,
    pub endpoint: Member,
    pub allowed_ips: Member,
    pub persistent_keepalive: Member,
    pub preshared_key: Member,
    pub local_ips: Member,
    /// The two lists of the routes.
    pub routes_ipv4: Member,
    pub routes_ipv6: Member,
}

/// The contents of [`DeltaMembers`].
pub struct MembersView {
    pub action: MemberView,
    pub pubkey: MemberView,
    pub endpoint: MemberView,
    pub allowed_ips: MemberView,
    pub persistent_keepalive: MemberView,
    pub preshared_key: MemberView,
    pub local_ips: MemberView,
    pub routes_ipv4: MemberView,
    pub routes_ipv6: MemberView,
}

impl DeepView for DeltaMembers {
    type V = MembersView;

    open spec fn deep_view(&self) -> MembersView {
        MembersView {
            action: self.action.deep_view(),
            pubkey: self.pubkey.deep_view(),
            endpoint: self.endpoint.deep_view(),
            allowed_ips: self.allowed_ips.deep_view(),
            persistent_keepalive: self.persistent_keepalive.deep_view(),
            preshared_key: self.preshared_key.deep_view(),
            local_ips: self.local_ips.deep_view(),
            routes_ipv4: self.routes_ipv4.deep_view(),
            routes_ipv6: self.routes_ipv6.deep_view(),
        }
    }
}

/// A change to a peer, or to the routes.
pub struct DeltaMessage {
    pub action: String,
    /// The change to the peer; where the routes change it says nothing.
    pub update: PeerUpdate,
    pub local_ips: Option<Vec<String>>,
    /// The routes to advertise from now on, where they change.
    pub routes: AdvertisedRoutes,
}

/// The contents of a [`DeltaMessage`].
pub struct DeltaContents {
    pub action: Text,
    pub update: UpdateView,
    pub local_ips: Option<Seq<Text>>,
    pub routes: RoutesView,
}

impl DeepView for DeltaMessage {
    type V = DeltaContents;

    open spec fn deep_view(&self) -> DeltaContents {
        DeltaContents {
            action: self.action@,
            update: self.update.deep_view(),
            local_ips: self.local_ips.deep_view(),
            routes: self.routes.deep_view(),
        }
    }
}

/// Why a message could not be read.
#[derive(Debug, Clone, Copy, PartialEq, Eq, Structural)]
pub enum DeltaError {
    /// It is not JSON.
    NotJson,
    /// It does not say what to do.
    MissingAction,
    /// It does not say which peer it is about.
    MissingPubkey,
    /// It changes the routes, and lacks one of their two lists.
    MissingRoutes,
}

/// The text that a member holds.
pub open spec fn text_in(m: MemberView) -> Option<Text> {
    match m {
        MemberView::Text(t) => Some(t),
        _ => None,
    }
}

/// The number that a member holds.
pub open spec fn number_in(m: MemberView) -> Option<u64> {
    match m {
        MemberView::Number(n) => Some(n),
        _ => None,
    }
}

/// The texts among the elements of a list.
pub open spec fn texts_of(list: Seq<Option<Text>>) -> Seq<Text>
    decreases list.len(),
{
    if list.len() == 0 {
        Seq::empty()
    } else {
        let front = texts_of(list.drop_last());
        match list.last() {
            Some(t) => front.push(t),
            None => front,
        }
    }
}

/// The texts in the list that a member holds.
pub open spec fn texts_in(m: MemberView) -> Option<Seq<Text>> {
    match m {
        MemberView::List(l) => Some(texts_of(l)),
        _ => None,
    }
}

fn text_from(m: Member) -> (r: Option<String>)
    ensures
        r.deep_view() == text_in(m.deep_view()),
{
    match m {
        Member::Text(t) => Some(t),
        _ => None,
    }
}

fn number_from(m: Member) -> (r: Option<u64>)
    ensures
        r == number_in(m.deep_view()),
{
    match m {
        Member::Number(n) => Some(n),
        _ => None,
    }
}

fn texts_from(m: Member) -> (r: Option<Vec<String>>)
    ensures
        r.deep_view() == texts_in(m.deep_view()),
{
    match m {
        Member::List(list) => {
            let mut out: Vec<String> = Vec::new();
            let ghost all = list.deep_view();
            let mut i: usize = 0;
            assert(out.deep_view() =~= texts_of(all.take(0)));
            while i < list.len()
                invariant
                    all == list.deep_view(),
                    i <= list@.len(),
                    out.deep_view() == texts_of(all.take(i as int)),
                decreases list.len() - i,
            {
                proof {
                    assert(all.take(i + 1).drop_last() =~= all.take(i as int));
                    assert(all[i as int] == list@[i as int].deep_view());
                }
                if let Some(t) = &list[i] {
                    let ghost before = out.deep_view();
                    out.push(t.clone());
                    assert(out.deep_view() =~= before.push(t@));
                }
                i += 1;
            }
            assert(all.take(list@.len() as int) =~= all);
            Some(out)
        },
        _ => None,
    }
}

/// The texts in a list, none where there is no list.
pub open spec fn texts_or_none(list: Option<Seq<Text>>) -> Seq<Text> {
    match list {
        Some(l) => l,
        None => Seq::empty(),
    }
}

/// The change that the members of a message describe. One that changes the routes needs both of
/// their lists and no peer; any other one needs a peer.
pub open spec fn delta_in(m: MembersView) -> Result<DeltaContents, DeltaError> {
    let sets_routes = text_in(m.action) == Some("set_routes"@);
    if text_in(m.action) is None {
        Err(DeltaError::MissingAction)
    } else if sets_routes && (texts_in(m.routes_ipv4) is None || texts_in(m.routes_ipv6) is None) {
        Err(DeltaError::MissingRoutes)
    } else if !sets_routes && text_in(m.pubkey) is None {
        Err(DeltaError::MissingPubkey)
    } else {
        Ok(
            DeltaContents {
                action: text_in(m.action)->0,
                update: UpdateView {
                    pubkey: match text_in(m.pubkey) {
                        Some(t) => t,
                        None => Seq::empty(),
                    },
                    endpoint: text_in(m.endpoint),
                    allowed_ips: texts_in(m.allowed_ips),
                    persistent_keepalive: number_in(m.persistent_keepalive),
                    preshared_key: text_in(m.preshared_key),
                },
                local_ips: texts_in(m.local_ips),
                routes: RoutesView {
                    ipv4: texts_or_none(texts_in(m.routes_ipv4)),
                    ipv6: texts_or_none(texts_in(m.routes_ipv6)),
                },
            },
        )
    }
}

fn list_or_none(list: Option<Vec<String>>) -> (r: Vec<String>)
    ensures
        r.deep_view() == texts_or_none(list.deep_view()),
{
    match list {
        Some(l) => l,
        None => {
            let none: Vec<String> = Vec::new();
            assert(none.deep_view() =~= Seq::<Text>::empty());
            none
        },
    }
}

/// The contents of the outcome of reading a message.
pub open spec fn outcome(r: Result<DeltaMessage, DeltaError>) -> Result<DeltaContents, DeltaError> {
    match r {
        Ok(m) => Ok(m.deep_view()),
        Err(e) => Err(e),
    }
}

/// Puts a change together from the members of a message.
pub fn delta_from_members(m: DeltaMembers) -> (r: Result<DeltaMessage, DeltaError>)
    ensures
        outcome(r) == delta_in(m.deep_view()),
{
    let action = match text_from(m.action) {
        Some(t) => t,
        None => return Err(DeltaError::MissingAction),
    };
    let sets_routes = text_eq(action.as_str(), "set_routes");
    let ipv4 = texts_from(m.routes_ipv4);
    let ipv6 = texts_from(m.routes_ipv6);
    if sets_routes && (ipv4.is_none() || ipv6.is_none()) {
        return Err(DeltaError::MissingRoutes);
    }
    let pubkey = match text_from(m.pubkey) {
        Some(t) => t,
        None => {
            if !sets_routes {
                return Err(DeltaError::MissingPubkey);
            }
            let none = String::new();
            assert(none@ =~= Seq::<char>::empty());
            none
        },
    };
    Ok(
        DeltaMessage {
            action,
            update: PeerUpdate {
                pubkey,
                endpoint: text_from(m.endpoint),
                allowed_ips: texts_from(m.allowed_ips),
                persistent_keepalive: number_from(m.persistent_keepalive),
                preshared_key: text_from(m.preshared_key),
            },
            local_ips: texts_from(m.local_ips),
            routes: AdvertisedRoutes { ipv4: list_or_none(ipv4), ipv6: list_or_none(ipv6) },
        },
    )
}

/// What a message holds at a place, nothing where the message is not JSON.
pub open spec fn member(data: Seq<u8>, place: Text) -> MemberView {
    match json_at(data, place) {
        Some(m) => m,
        None => MemberView::Absent,
    }
}

/// The members of a message that matter.
pub open spec fn members(data: Seq<u8>) -> MembersView {
    MembersView {
        action: member(data, "/action"@),
        pubkey: member(data, "/pubkey"@),
        endpoint: member(data, "/endpoint"@),
        allowed_ips: member(data, "/allowed_ips"@),
        persistent_keepalive: member(data, "/persistent_keepalive"@),
        preshared_key: member(data, "/preshared_key"@),
        local_ips: member(data, "/local_ips"@),
        routes_ipv4: member(data, "/routes/ipv4"@),
        routes_ipv6: member(data, "/routes/ipv6"@),
    }
}

/// The change that a message describes.
pub open spec fn delta_of(data: Seq<u8>) -> Result<DeltaContents, DeltaError> {
    if json_at(data, "/action"@) is None {
        Err(DeltaError::NotJson)
    } else {
        delta_in(members(data))
    }
}

fn member_of(data: &[u8], place: &str) -> (r: Member)
    ensures
        r.deep_view() == member(data@, place@),
{
    match serde_json_pointer(data, place) {
        Some(m) => m,
        None => Member::Absent,
    }
}

/// Reads the change that a message describes.
pub fn read_delta(payload: &[u8]) -> (r: Result<DeltaMessage, DeltaError>)
    ensures
        outcome(r) == delta_of(payload@),
{
    let action = match serde_json_pointer(payload, "/action") {
        Some(m) => m,
        None => return Err(DeltaError::NotJson),
    };
    delta_from_members(
        DeltaMembers {
            action,
            pubkey: member_of(payload, "/pubkey"),
            endpoint: member_of(payload, "/endpoint"),
            allowed_ips: member_of(payload, "/allowed_ips"),
            persistent_keepalive: member_of(payload, "/persistent_keepalive"),
            preshared_key: member_of(payload, "/preshared_key"),
            local_ips: member_of(payload, "/local_ips"),
            routes_ipv4: member_of(payload, "/routes/ipv4"),
            routes_ipv6: member_of(payload, "/routes/ipv6"),
        },
    )
}

// ---------- The steps ----------

/// Where the work on a change stands.
#[derive(Clone, Copy)]
pub enum DeltaStage {
    /// Waiting for the current endpoint of the peer.
    Locating,
    /// Waiting to hear whether it is in use over the local network.
    Comparing,
    /// Waiting for it to be updated, with the endpoint that it has.
    Keeping,
    /// Waiting for it to be updated.
    Updating,
    /// Waiting for it to be given its new endpoint.
    Redirecting,
    /// Waiting for it to be tried over the local network.
    Switching,
    /// Waiting for it to be removed.
    Removing,
    /// Waiting for the routes to be brought into force.
    Routing,
    /// The change was made, or there was nothing to do.
    Done,
    /// The change could not be made.
    Failed,
}

/// The work on a change.
pub struct DeltaRun {
    update: PeerUpdate,
    lan_ips: Vec<String>,
    routes: AdvertisedRoutes,
    current: Option<String>,
    stage: DeltaStage,
}

/// The contents of a [`DeltaRun`].
pub struct DeltaView {
    pub update: UpdateView,
    /// The endpoints of the peer in its local networks.
    pub lan_ips: Seq<Text>,
    /// The routes to bring into force.
    pub routes: RoutesView,
    /// The current endpoint of the peer.
    pub current: Option<Text>,
    pub stage: DeltaStage,
}

impl View for DeltaRun {
    type V = DeltaView;

    closed spec fn view(&self) -> DeltaView {
        DeltaView {
            update: self.update.deep_view(),
            lan_ips: self.lan_ips.deep_view(),
            routes: self.routes.deep_view(),
            current: self.current.deep_view(),
            stage: self.stage,
        }
    }
}

/// The start of the work on a change. Changes to this node itself are ignored, and so is every
/// change until the tunnel is installed.
pub open spec fn delta_start(
    m: DeltaContents,
    local: Text,
    status: NodeStatus,
    lan: bool,
) -> DeltaView {
    DeltaView {
        update: m.update,
        lan_ips: texts_or_none(m.local_ips),
        routes: m.routes,
        current: None,
        stage: if !status.configured {
            DeltaStage::Done
        } else if m.action == "set_routes"@ {
            DeltaStage::Routing
        } else if m.update.pubkey == local {
            DeltaStage::Done
        } else if m.action == "add"@ || m.action == "update"@ {
            if lan && m.update.endpoint is Some {
                DeltaStage::Locating
            } else {
                DeltaStage::Updating
            }
        } else if m.action == "remove"@ {
            DeltaStage::Removing
        } else {
            DeltaStage::Done
        },
    }
}

/// What the work on a change asks next.
pub open spec fn delta_ask(v: DeltaView) -> Ask {
    let pubkey = v.update.pubkey;
    match v.stage {
        DeltaStage::Locating => Ask::Endpoint { pubkey },
        DeltaStage::Comparing => Ask::LanActive { pubkey, endpoint: v.current->0 },
        DeltaStage::Keeping => Ask::UpdatePeer(UpdateView { endpoint: v.current, ..v.update }),
        DeltaStage::Updating => Ask::UpdatePeer(v.update),
        DeltaStage::Redirecting => Ask::SetEndpoint { pubkey, endpoint: v.update.endpoint->0 },
        DeltaStage::Switching => Ask::SwitchToLan { pubkey, endpoints: v.lan_ips },
        DeltaStage::Removing => Ask::RemovePeer { pubkey },
        DeltaStage::Routing => Ask::ApplyRoutes,
        DeltaStage::Done | DeltaStage::Failed => Ask::Done,
    }
}

/// Going on with the local network.
pub open spec fn switch_or_done(v: DeltaView) -> DeltaStage {
    if v.lan_ips.len() > 0 {
        DeltaStage::Switching
    } else {
        DeltaStage::Done
    }
}

/// Where an answer takes the work on a change, and what it makes of the tables.
pub open spec fn delta_step(v: DeltaView, t: TablesView, told: Told) -> (DeltaView, TablesView) {
    let yes = told == Told::Flag(true);
    match v.stage {
        DeltaStage::Locating => match told {
            Told::Text(Some(ep)) => (
                DeltaView { current: Some(ep), stage: DeltaStage::Comparing, ..v },
                t,
            ),
            _ => (DeltaView { stage: DeltaStage::Updating, ..v }, t),
        },
        DeltaStage::Comparing => (
            DeltaView {
                stage: if yes {
                    DeltaStage::Keeping
                } else {
                    DeltaStage::Updating
                },
                ..v
            },
            t,
        ),
        DeltaStage::Keeping => (DeltaView { stage: switch_or_done(v), ..v }, t),
        DeltaStage::Updating => (
            DeltaView {
                stage: if !yes {
                    DeltaStage::Failed
                } else if v.update.endpoint is Some {
                    DeltaStage::Redirecting
                } else {
                    switch_or_done(v)
                },
                ..v
            },
            t,
        ),
        DeltaStage::Redirecting => (DeltaView { stage: switch_or_done(v), ..v }, t),
        DeltaStage::Switching | DeltaStage::Routing => (
            DeltaView { stage: DeltaStage::Done, ..v },
            t,
        ),
        DeltaStage::Removing => if yes {
            (DeltaView { stage: DeltaStage::Done, ..v }, forgotten(t, v.update.pubkey))
        } else {
            (DeltaView { stage: DeltaStage::Failed, ..v }, t)
        },
        DeltaStage::Done | DeltaStage::Failed => (v, t),
    }
}

/// The endpoints that the work on a change refers to exist.
pub open spec fn delta_wf(v: DeltaView) -> bool {
    match v.stage {
        DeltaStage::Comparing => v.current is Some,
        DeltaStage::Redirecting => v.update.endpoint is Some,
        _ => true,
    }
}

/// Starts the work on a change.
pub fn handle_delta_message(
    message: DeltaMessage,
    local_pubkey: &str,
    status: &NodeStatus,
    lan: bool,
) -> (r: DeltaRun)
    ensures
        r@ == delta_start(message.deep_view(), local_pubkey@, *status, lan),
        delta_wf(r@),
{
    let stage = if !status.configured {
        DeltaStage::Done
    } else if text_eq(message.action.as_str(), "set_routes") {
        DeltaStage::Routing
    } else if text_eq(message.update.pubkey.as_str(), local_pubkey) {
        DeltaStage::Done
    } else if text_eq(message.action.as_str(), "add") || text_eq(
        message.action.as_str(),
        "update",
    ) {
        if lan && message.update.endpoint.is_some() {
            DeltaStage::Locating
        } else {
            DeltaStage::Updating
        }
    } else if text_eq(message.action.as_str(), "remove") {
        DeltaStage::Removing
    } else {
        DeltaStage::Done
    };
    DeltaRun {
        update: message.update,
        lan_ips: list_or_none(message.local_ips),
        routes: message.routes,
        current: None,
        stage,
    }
}

impl DeltaRun {
    fn update_with(&self, endpoint: &Option<String>) -> (r: PeerUpdate)
        ensures
            r.deep_view() == (UpdateView { endpoint: endpoint.deep_view(), ..self@.update }),
    {
        PeerUpdate {
            pubkey: self.update.pubkey.clone(),
            endpoint: copy_opt(endpoint),
            allowed_ips: copy_opt_list(&self.update.allowed_ips),
            persistent_keepalive: self.update.persistent_keepalive,
            preshared_key: copy_opt(&self.update.preshared_key),
        }
    }

    /// The routes to bring into force.
    pub fn routes(&self) -> (r: &AdvertisedRoutes)
        ensures
            r.deep_view() == self@.routes,
    {
        &self.routes
    }

    /// What the work on the change asks next.
    pub fn request(&self) -> (r: Request)
        requires
            delta_wf(self@),
        ensures
            r.deep_view() == delta_ask(self@),
    {
        let pubkey = self.update.pubkey.clone();
        match self.stage {
            DeltaStage::Locating => Request::Endpoint { pubkey },
            DeltaStage::Comparing => match &self.current {
                Some(ep) => Request::LanActive { pubkey, endpoint: ep.clone() },
                None => Request::Done,
            },
            DeltaStage::Keeping => Request::UpdatePeer(self.update_with(&self.current)),
            DeltaStage::Updating => Request::UpdatePeer(self.update_with(&self.update.endpoint)),
            DeltaStage::Redirecting => match &self.update.endpoint {
                Some(ep) => Request::SetEndpoint { pubkey, endpoint: ep.clone() },
                None => Request::Done,
            },
            DeltaStage::Switching => Request::SwitchToLan {
                pubkey,
                endpoints: copy_list(&self.lan_ips),
            },
            DeltaStage::Removing => Request::RemovePeer { pubkey },
            DeltaStage::Routing => Request::ApplyRoutes,
            DeltaStage::Done => Request::Done,
            DeltaStage::Failed => Request::Done,
        }
    }

    /// Whether the change could not be made.
    pub fn failed(&self) -> (r: bool)
        ensures
            r == (self@.stage is Failed),
    {
        match self.stage {
            DeltaStage::Failed => true,
            _ => false,
        }
    }

    fn go_switch(&self) -> (r: DeltaStage)
        ensures
            r == switch_or_done(self@),
    {
        proof {
            lemma_list_len(&self.lan_ips);
        }
        if self.lan_ips.len() > 0 {
            DeltaStage::Switching
        } else {
            DeltaStage::Done
        }
    }

    /// Takes the answer to the last request and says what to ask next.
    pub fn step(&mut self, t: &mut RelayTables, answer: Answer) -> (r: Request)
        requires
            delta_wf(old(self)@),
            old(t).wf(),
            fits(delta_ask(old(self)@), answer.deep_view()),
        ensures
            final(t).wf(),
            (final(self)@, final(t)@) == delta_step(old(self)@, old(t)@, answer.deep_view()),
            delta_wf(final(self)@),
            r.deep_view() == delta_ask(final(self)@),
    {
        match self.stage {
            DeltaStage::Locating => {
                match answer.text() {
                    Some(ep) => {
                        self.current = Some(ep);
                        self.stage = DeltaStage::Comparing;
                    },
                    None => {
                        self.stage = DeltaStage::Updating;
                    },
                }
            },
            DeltaStage::Comparing => {
                self.stage = if answer.flag() {
                    DeltaStage::Keeping
                } else {
                    DeltaStage::Updating
                };
            },
            DeltaStage::Keeping => {
                let stage = self.go_switch();
                self.stage = stage;
            },
            DeltaStage::Updating => {
                let stage = if !answer.flag() {
                    DeltaStage::Failed
                } else if self.update.endpoint.is_some() {
                    DeltaStage::Redirecting
                } else {
                    self.go_switch()
                };
                self.stage = stage;
            },
            DeltaStage::Redirecting => {
                let stage = self.go_switch();
                self.stage = stage;
            },
            DeltaStage::Switching => {
                self.stage = DeltaStage::Done;
            },
            DeltaStage::Routing => {
                self.stage = DeltaStage::Done;
            },
            DeltaStage::Removing => {
                if answer.flag() {
                    t.forget(&self.update.pubkey);
                    self.stage = DeltaStage::Done;
                } else {
                    self.stage = DeltaStage::Failed;
                }
            },
            DeltaStage::Done => {},
            DeltaStage::Failed => {},
        }
        self.request()
    }
}

// ---------- Laws ----------

/// A change to this node itself, a change that comes before the tunnel is installed, and a change
/// of an unknown kind are not acted on.
pub proof fn law_foreign_changes_only(m: DeltaContents, local: Text, status: NodeStatus, lan: bool)
    requires
        ({
            ||| m.update.pubkey == local && m.action != "set_routes"@
            ||| !status.configured
            ||| m.action != "add"@ && m.action != "update"@ && m.action != "remove"@ && m.action
                != "set_routes"@
        }),
    ensures
        delta_ask(delta_start(m, local, status, lan)) == Ask::Done,
{
}

/// A change of the routes brings just them into force: they are what the work asks for, after which
/// it is done, and once the routes were gone through, the interface's number being found, the
/// routes in force are those of the message.
pub proof fn law_set_routes_come_into_force(
    m: DeltaContents,
    local: Text,
    status: NodeStatus,
    lan: bool,
    t: TablesView,
    told: Told,
    last: RoutesView,
    answers: Seq<RouteAnswer>,
)
    requires
        status.configured,
        m.action == "set_routes"@,
        index_found(sync_start(m.routes, last), last, answers),
        answers.len() >= sync_left(sync_start(m.routes, last)),
        sync_start(m.routes, last).old4.len() <= usize::MAX,
        sync_start(m.routes, last).old6.len() <= usize::MAX,
        sync_start(m.routes, last).add4.len() <= usize::MAX,
        sync_start(m.routes, last).add6.len() <= usize::MAX,
    ensures
        ({
            let v = delta_start(m, local, status, lan);
            let (w, u) = delta_step(v, t, told);
            &&& delta_ask(v) == Ask::ApplyRoutes
            &&& v.routes == m.routes
            &&& w.stage is Done
            &&& u == t
        }),
        sync_run(sync_start(m.routes, last), last, answers).0.stage is Applied,
        sync_run(sync_start(m.routes, last), last, answers).1 == (RoutesView {
            ipv4: distinct(m.routes.ipv4),
            ipv6: distinct(m.routes.ipv6),
        }),
{
    law_routes_come_into_force(m.routes, last, answers);
}

/// The endpoint of a peer that is in use over the local network survives a change, and the other
/// fields are changed all the same.
pub proof fn law_delta_keeps_lan_endpoint(v: DeltaView, t: TablesView)
    requires
        delta_wf(v),
        v.stage is Comparing,
    ensures
        delta_ask(delta_step(v, t, Told::Flag(true)).0) == Ask::UpdatePeer(
            UpdateView { endpoint: v.current, ..v.update },
        ),
{
}

/// A peer that was removed stands behind no relay; where it could not be removed the tables are as
/// they were.
pub proof fn law_removal_forgets_peer(v: DeltaView, t: TablesView, told: Told)
    requires
        v.stage is Removing,
    ensures
        ({
            let u = delta_step(v, t, told).1;
            if told == Told::Flag(true) {
                !u.assigned.contains_key(v.update.pubkey)
            } else {
                u == t
            }
        }),
{
}

/// The work on a change concerns no other peer; a change of the routes concerns none.
pub proof fn law_delta_concerns_one_peer(v: DeltaView)
    ensures
        match delta_ask(v) {
            Ask::Endpoint { pubkey }
            | Ask::LanActive { pubkey, .. }
            | Ask::SetEndpoint { pubkey, .. }
            | Ask::SwitchToLan { pubkey, .. }
            | Ask::RemovePeer { pubkey } => pubkey == v.update.pubkey,
            Ask::UpdatePeer(u) => u.pubkey == v.update.pubkey,
            _ => delta_ask(v) == Ask::Done || delta_ask(v) == Ask::ApplyRoutes,
        },
{
}

proof fn lemma_actions_told_apart()
    ensures
        "add"@ != "set_routes"@,
        "update"@ != "set_routes"@,
        "remove"@ != "set_routes"@,
        "add"@ != "remove"@,
        "update"@ != "remove"@,
{
    reveal_strlit("add");
    reveal_strlit("update");
    reveal_strlit("remove");
    reveal_strlit("set_routes");
    assert("update"@[0] == 'u');
    assert("remove"@[0] == 'r');
    assert("add"@.len() == 3);
    assert("set_routes"@.len() == 10);
}

/// Every kind of change to another peer is made once the tunnel is installed. An addition and an
/// update alike ask for the peer to be updated with all the fields of the message; where local
/// networks are used and the message names an endpoint, the peer is updated after the question for
/// its endpoint and, if it has one, the question whether that is in use over the local network: if
/// so, it is kept and every other field is changed. A removal asks for the peer to be removed.
pub proof fn law_every_change_is_made(
    m: DeltaContents,
    local: Text,
    status: NodeStatus,
    lan: bool,
    t: TablesView,
    current: Text,
)
    requires
        status.configured,
        m.update.pubkey != local,
    ensures
        ({
            let v = delta_start(m, local, status, lan);
            &&& m.action == "add"@ || m.action == "update"@ ==> if lan && m.update.endpoint is Some {
                let unknown = delta_step(v, t, Told::Text(None)).0;
                let known = delta_step(v, t, Told::Text(Some(current))).0;
                let far = delta_step(known, t, Told::Flag(false)).0;
                let near = delta_step(known, t, Told::Flag(true)).0;
                &&& delta_ask(v) == Ask::Endpoint { pubkey: m.update.pubkey }
                &&& delta_ask(unknown) == Ask::UpdatePeer(m.update)
                &&& delta_ask(known) == Ask::LanActive {
                    pubkey: m.update.pubkey,
                    endpoint: current,
                }
                &&& delta_ask(far) == Ask::UpdatePeer(m.update)
                &&& delta_ask(near) == Ask::UpdatePeer(
                    UpdateView {
                        pubkey: m.update.pubkey,
                        endpoint: Some(current),
                        allowed_ips: m.update.allowed_ips,
                        persistent_keepalive: m.update.persistent_keepalive,
                        preshared_key: m.update.preshared_key,
                    },
                )
            } else {
                delta_ask(v) == Ask::UpdatePeer(m.update)
            }
            &&& m.action == "remove"@ ==> delta_ask(v) == Ask::RemovePeer {
                pubkey: m.update.pubkey,
            }
            &&& m.action == "add"@ || m.action == "update"@ || m.action == "remove"@ ==> v.stage
                !is Done && v.stage !is Failed
        }),
{
    lemma_actions_told_apart();
}

/// What follows an update: a peer that was updated is given the endpoint of the message, if there is
/// one, and is then tried over the local network at all the places that the message names, if there
/// are any; whatever comes of these, the change counts as made. One that could not be updated ends
/// the work as failed. A peer whose endpoint is kept is tried over the local network all the same.
pub proof fn law_update_is_followed_up(v: DeltaView, t: TablesView, told: Told)
    requires
        v.stage is Updating || v.stage is Keeping,
    ensures
        ({
            let none = v.stage is Updating && told != Told::Flag(true);
            let w = delta_step(v, t, told).0;
            let redirected = v.stage is Updating && !none && v.update.endpoint is Some;
            let x = if redirected {
                delta_step(w, t, Told::Flag(false)).0
            } else {
                w
            };
            let y = if redirected {
                delta_step(w, t, Told::Flag(true)).0
            } else {
                w
            };
            &&& none ==> w.stage is Failed
            &&& redirected ==> delta_ask(w) == Ask::SetEndpoint {
                pubkey: v.update.pubkey,
                endpoint: v.update.endpoint->0,
            }
            &&& x == y
            &&& !none && v.lan_ips.len() > 0 ==> {
                &&& delta_ask(x) == Ask::SwitchToLan {
                    pubkey: v.update.pubkey,
                    endpoints: v.lan_ips,
                }
                &&& delta_step(x, t, Told::Flag(true)).0.stage is Done
                &&& delta_step(x, t, Told::Flag(false)).0.stage is Done
            }
            &&& !none && v.lan_ips.len() == 0 ==> x.stage is Done
        }),
{
}

/// The work starts with what the message holds: all its fields, and all the places in the local
/// network.
pub proof fn law_message_is_taken_over(
    m: DeltaContents,
    local: Text,
    status: NodeStatus,
    lan: bool,
    t: TablesView,
    told: Told,
)
    ensures
        ({
            let v = delta_start(m, local, status, lan);
            &&& v.update == m.update
            &&& m.local_ips is Some ==> v.lan_ips == m.local_ips->0
            &&& m.local_ips is None ==> v.lan_ips == Seq::<Text>::empty()
            &&& v.routes == m.routes
        }),
        ({
            let v = delta_start(m, local, status, lan);
            let w = delta_step(v, t, told).0;
            w.update == v.update && w.lan_ips == v.lan_ips && w.routes == v.routes
        }),
{
}

/// A removal that was made ends the work as done, and one that could not be made as failed.
pub proof fn law_removal_is_answered(v: DeltaView, t: TablesView, told: Told)
    requires
        v.stage is Removing,
    ensures
        told == Told::Flag(true) ==> delta_step(v, t, told).0.stage is Done,
        told != Told::Flag(true) ==> delta_step(v, t, told).0.stage is Failed,
{
}

/// A message is read just as it stands: every member that is of its kind is taken over, and one
/// that is not counts as absent. It is refused exactly if it does not say what to do, if it changes
/// the routes without both of their lists, or if it changes a peer without naming it.
pub proof fn law_every_member_is_read(m: MembersView)
    ensures
        (delta_in(m) == Err::<DeltaContents, DeltaError>(DeltaError::MissingAction)) <==> m.action
            !is Text,
        m.action matches MemberView::Text(a) && a == "set_routes"@ ==> ((delta_in(m) is Ok
            <==> m.routes_ipv4 is List && m.routes_ipv6 is List) && (delta_in(m) is Err
            ==> delta_in(m)->Err_0 == DeltaError::MissingRoutes)),
        m.action matches MemberView::Text(a) && a != "set_routes"@ ==> ((delta_in(m) is Ok
            <==> m.pubkey is Text) && (delta_in(m) is Err ==> delta_in(m)->Err_0
            == DeltaError::MissingPubkey)),
        delta_in(m) matches Ok(d) ==> {
            &&& m.action == MemberView::Text(d.action)
            &&& m.pubkey is Text ==> m.pubkey == MemberView::Text(d.update.pubkey)
            &&& match m.endpoint {
                MemberView::Text(t) => d.update.endpoint == Some(t),
                _ => d.update.endpoint is None,
            }
            &&& match m.allowed_ips {
                MemberView::List(l) => d.update.allowed_ips == Some(texts_of(l)),
                _ => d.update.allowed_ips is None,
            }
            &&& match m.persistent_keepalive {
                MemberView::Number(n) => d.update.persistent_keepalive == Some(n),
                _ => d.update.persistent_keepalive is None,
            }
            &&& match m.preshared_key {
                MemberView::Text(t) => d.update.preshared_key == Some(t),
                _ => d.update.preshared_key is None,
            }
            &&& match m.local_ips {
                MemberView::List(l) => d.local_ips == Some(texts_of(l)),
                _ => d.local_ips is None,
            }
            &&& m.routes_ipv4 matches MemberView::List(l) ==> d.routes.ipv4 == texts_of(l)
            &&& m.routes_ipv6 matches MemberView::List(l) ==> d.routes.ipv6 == texts_of(l)
        },
{
}

/// The members of a message are looked for under their own names.
pub proof fn law_members_have_their_names(data: Seq<u8>)
    requires
        json_at(data, "/action"@) is Some,
    ensures
        delta_of(data) == delta_in(
            MembersView {
                action: member(data, "/action"@),
                pubkey: member(data, "/pubkey"@),
                endpoint: member(data, "/endpoint"@),
                allowed_ips: member(data, "/allowed_ips"@),
                persistent_keepalive: member(data, "/persistent_keepalive"@),
                preshared_key: member(data, "/preshared_key"@),
                local_ips: member(data, "/local_ips"@),
                routes_ipv4: member(data, "/routes/ipv4"@),
                routes_ipv6: member(data, "/routes/ipv6"@),
            },
        ),
        member(data, "/action"@) == json_at(data, "/action"@)->0,
{
}

/// Of a list all the texts are taken, in their order, and only what is no text is left out.
pub proof fn law_texts_of_a_list(list: Seq<Option<Text>>, x: Option<Text>)
    ensures
        x is Some ==> texts_of(list.push(x)) == texts_of(list).push(x->0),
        x is None ==> texts_of(list.push(x)) == texts_of(list),
        texts_of(Seq::empty()) == Seq::<Text>::empty(),
        (forall|i: int| 0 <= i < list.len() ==> #[trigger] list[i] is Some) ==> texts_of(list).len()
            == list.len() && forall|i: int|
            0 <= i < list.len() ==> #[trigger] texts_of(list)[i] == list[i]->0,
    decreases list.len(),
{
    assert(list.push(x).drop_last() =~= list);
    if list.len() > 0 {
        let front = list.drop_last();
        law_texts_of_a_list(front, x);
        if forall|i: int| 0 <= i < list.len() ==> #[trigger] list[i] is Some {
            assert forall|i: int| 0 <= i < front.len() implies #[trigger] front[i] is Some by {
                assert(front[i] == list[i]);
            }
            assert(list[list.len() - 1] is Some);
            assert forall|i: int| 0 <= i < list.len() implies #[trigger] texts_of(list)[i]
                == list[i]->0 by {
                if i < front.len() {
                    assert(texts_of(list)[i] == texts_of(front)[i]);
                    assert(front[i] == list[i]);
                }
            }
        }
    }
}

/// How many steps the work on a change has left at most.
pub open spec fn delta_left(stage: DeltaStage) -> int {
    match stage {
        DeltaStage::Locating => 5,
        DeltaStage::Comparing => 4,
        DeltaStage::Keeping => 3,
        DeltaStage::Updating => 3,
        DeltaStage::Redirecting => 2,
        DeltaStage::Switching => 1,
        DeltaStage::Removing => 1,
        DeltaStage::Routing => 1,
        DeltaStage::Done | DeltaStage::Failed => 0,
    }
}

/// Every answer brings the work on a change nearer to its end.
pub proof fn law_delta_ends(v: DeltaView, t: TablesView, told: Told)
    requires
        v.stage !is Done && v.stage !is Failed,
    ensures
        0 <= delta_left(delta_step(v, t, told).0.stage) < delta_left(v.stage),
{
}

} // verus!
