//! What the agent works on: peers as the broker describes them, the commands that change the
//! interface, and the questions that a running procedure asks of its surroundings.
use vstd::prelude::*;

use crate::strmap::StrMap;
use crate::text::{copy_opt, copy_opt_list, Text};

verus! {

/// A peer of a full snapshot.
pub struct PeerInfo {
    pub endpoint: Option<String>,
    pub allowed_ips: Option<Vec<String>>,
    pub persistent_keepalive: Option<u16>,
    pub preshared_key: PskField,
    pub local_ips: Option<Vec<String>>,
}

/// The contents of a [`PeerInfo`].
pub struct PeerView {
    pub endpoint: Option<Text>,
    pub allowed_ips: Option<Seq<Text>>,
    pub persistent_keepalive: Option<u16>,
    pub preshared_key: PskView,
    pub local_ips: Option<Seq<Text>>,
}

impl DeepView for PeerInfo {
    type V = PeerView;

    open spec fn deep_view(&self) -> PeerView {
        PeerView {
            endpoint: self.endpoint.deep_view(),
            allowed_ips: self.allowed_ips.deep_view(),
            persistent_keepalive: self.persistent_keepalive,
            preshared_key: self.preshared_key.deep_view(),
            local_ips: self.local_ips.deep_view(),
        }
    }
}

/// Peers by public key.
pub type PeerMap = StrMap<PeerInfo>;

/// How the preshared key of a peer stands in a snapshot.
pub enum PskField {
    /// The field is absent.
    Missing,
    /// The field is there and null.
    Null,
    /// The field holds a text.
    Key(String),
}

/// The contents of a [`PskField`].
pub enum PskView {
    Missing,
    Null,
    Key(Text),
}

impl DeepView for PskField {
    type V = PskView;

    open spec fn deep_view(&self) -> PskView {
        match *self {
            PskField::Missing => PskView::Missing,
            PskField::Null => PskView::Null,
            PskField::Key(k) => PskView::Key(k@),
        }
    }
}

/// What a preshared key field means for a peer of the interface: an absent field keeps the current
/// key, and null asks for the key to be cleared, which the empty text stands for.
pub open spec fn psk_meant(field: PskView) -> Option<Text> {
    match field {
        PskView::Missing => None,
        PskView::Null => Some(Seq::empty()),
        PskView::Key(k) => Some(k),
    }
}

/// What a preshared key field means for a peer of the interface.
pub fn deserialize_psk(field: &PskField) -> (r: Option<String>)
    ensures
        r.deep_view() == psk_meant(field.deep_view()),
{
    match field {
        PskField::Missing => None,
        PskField::Null => {
            let none = String::new();
            assert(none@ =~= Seq::<char>::empty());
            Some(none)
        },
        PskField::Key(k) => Some(k.clone()),
    }
}

/// The routes to advertise.
pub struct AdvertisedRoutes {
    pub ipv4: Vec<String>,
    pub ipv6: Vec<String>,
}

/// The contents of [`AdvertisedRoutes`].
pub struct RoutesView {
    pub ipv4: Seq<Text>,
    pub ipv6: Seq<Text>,
}

impl DeepView for AdvertisedRoutes {
    type V = RoutesView;

    open spec fn deep_view(&self) -> RoutesView {
        RoutesView { ipv4: self.ipv4.deep_view(), ipv6: self.ipv6.deep_view() }
    }
}

/// A change to one peer of the interface. Fields that are `None` are left as they are.
pub struct PeerUpdate {
    pub pubkey: String,
    pub endpoint: Option<String>,
    pub allowed_ips: Option<Vec<String>>,
    pub persistent_keepalive: Option<u64>,
    pub preshared_key: Option<String>,
}

/// The contents of a [`PeerUpdate`].
pub struct UpdateView {
    pub pubkey: Text,
    pub endpoint: Option<Text>,
    pub allowed_ips: Option<Seq<Text>>,
    pub persistent_keepalive: Option<u64>,
    pub preshared_key: Option<Text>,
}

impl DeepView for PeerUpdate {
    type V = UpdateView;

    open spec fn deep_view(&self) -> UpdateView {
        UpdateView {
            pubkey: self.pubkey@,
            endpoint: self.endpoint.deep_view(),
            allowed_ips: self.allowed_ips.deep_view(),
            persistent_keepalive: self.persistent_keepalive,
            preshared_key: self.preshared_key.deep_view(),
        }
    }
}

/// The keepalive interval widened to the type of updates.
pub open spec fn widened(k: Option<u16>) -> Option<u64> {
    match k {
        Some(k) => Some(k as u64),
        None => None,
    }
}

/// The update that gives the interface what the snapshot says of a peer.
pub open spec fn update_from(pubkey: Text, p: PeerView) -> UpdateView {
    UpdateView {
        pubkey,
        endpoint: p.endpoint,
        allowed_ips: p.allowed_ips,
        persistent_keepalive: widened(p.persistent_keepalive),
        preshared_key: psk_meant(p.preshared_key),
    }
}

/// Widens a keepalive interval.
pub fn widen(k: Option<u16>) -> (r: Option<u64>)
    ensures
        r == widened(k),
{
    match k {
        Some(k) => Some(k as u64),
        None => None,
    }
}

/// The update that gives the interface what the snapshot says of a peer.
pub fn update_from_peer(pubkey: &String, p: &PeerInfo) -> (r: PeerUpdate)
    ensures
        r.deep_view() == update_from(pubkey@, p.deep_view()),
{
    PeerUpdate {
        pubkey: pubkey.clone(),
        endpoint: copy_opt(&p.endpoint),
        allowed_ips: copy_opt_list(&p.allowed_ips),
        persistent_keepalive: widen(p.persistent_keepalive),
        preshared_key: deserialize_psk(&p.preshared_key),
    }
}

/// The addresses that the snapshot gave a peer; none for an unknown peer.
pub open spec fn original_ips(peers: Map<Text, PeerView>, pubkey: Text) -> Seq<Text> {
    if peers.contains_key(pubkey) && peers[pubkey].allowed_ips is Some {
        peers[pubkey].allowed_ips->0
    } else {
        Seq::empty()
    }
}

/// The addresses that the last snapshot gave a peer.
pub fn get_original_ips_from_snapshot(peers: &PeerMap, pubkey: &str) -> (r: Vec<String>)
    requires
        peers.wf(),
    ensures
        r.deep_view() == original_ips(peers@, pubkey@),
{
    let none: Vec<String> = Vec::new();
    assert(none.deep_view() =~= Seq::<Text>::empty());
    match peers.get(pubkey) {
        Some(p) => match &p.allowed_ips {
            Some(ips) => crate::text::copy_list(ips),
            None => none,
        },
        None => none,
    }
}

/// Whether this node is known to the server.
#[derive(Debug, Clone, Copy, PartialEq, Eq, Structural)]
pub enum RegistrationState {
    NotRegistered,
    /// The registration was sent.
    InProgress,
    /// A snapshot came that this node is part of.
    Registered,
}

/// How far this node has come.
#[derive(Debug, Clone, Copy, PartialEq, Eq, Structural)]
pub struct NodeStatus {
    pub registration: RegistrationState,
    /// Whether the tunnel was installed with this node's addresses.
    pub configured: bool,
}

// ---------- Questions and answers ----------

/// What a running procedure asks of its surroundings next.
pub enum Request {
    /// Nothing: the procedure is over.
    Done,
    /// Whether the peer shook hands within so many seconds.
    Recent { pubkey: String, max_age: u64 },
    /// The public keys that the interface lists handshakes for.
    Handshakes,
    /// The public keys of the interface's peers.
    Peers,
    /// The public keys of the peers that have a preshared key.
    PeersWithPsk,
    /// The peer's current endpoint.
    Endpoint { pubkey: String },
    /// The peer's current allowed addresses.
    AllowedIps { pubkey: String },
    /// Whether the peer is in use over the local network through the endpoint.
    LanActive { pubkey: String, endpoint: String },
    /// Give the peer another endpoint.
    SetEndpoint { pubkey: String, endpoint: String },
    /// Add to the peer's allowed addresses.
    AddIps { pubkey: String, ips: Vec<String> },
    /// Take away from the peer's allowed addresses.
    RemoveIps { pubkey: String, ips: Vec<String> },
    /// Remove the peer from the interface.
    RemovePeer { pubkey: String },
    /// Add or change the peer.
    UpdatePeer(PeerUpdate),
    /// Try to reach the peer over the local network at one of the endpoints.
    SwitchToLan { pubkey: String, endpoints: Vec<String> },
    /// Give the interface these addresses, an empty text standing for none.
    ConfigureSelfIp { ipv4: String, ipv6: String },
    /// Apply the snapshot's obfuscation settings.
    ApplyAmnezia,
    /// Install the tunnel with these addresses and the snapshot's peers.
    Install { ipv4: String, ipv6: String },
    /// Bring the routes of the snapshot, or of the change, into force.
    ApplyRoutes,
    /// Give the interface another listen port.
    SetListenPort { port: u16 },
}

/// The contents of a [`Request`].
pub enum Ask {
    Done,
    Recent { pubkey: Text, max_age: u64 },
    Handshakes,
    Peers,
    PeersWithPsk,
    Endpoint { pubkey: Text },
    AllowedIps { pubkey: Text },
    LanActive { pubkey: Text, endpoint: Text },
    SetEndpoint { pubkey: Text, endpoint: Text },
    AddIps { pubkey: Text, ips: Seq<Text> },
    RemoveIps { pubkey: Text, ips: Seq<Text> },
    RemovePeer { pubkey: Text },
    UpdatePeer(UpdateView),
    SwitchToLan { pubkey: Text, endpoints: Seq<Text> },
    ConfigureSelfIp { ipv4: Text, ipv6: Text },
    ApplyAmnezia,
    Install { ipv4: Text, ipv6: Text },
    ApplyRoutes,
    SetListenPort { port: u16 },
}

impl DeepView for Request {
    type V = Ask;

    open spec fn deep_view(&self) -> Ask {
        match *self {
            Request::Done => Ask::Done,
            Request::Recent { pubkey, max_age } => Ask::Recent { pubkey: pubkey@, max_age },
            Request::Handshakes => Ask::Handshakes,
            Request::Peers => Ask::Peers,
            Request::PeersWithPsk => Ask::PeersWithPsk,
            Request::Endpoint { pubkey } => Ask::Endpoint { pubkey: pubkey@ },
            Request::AllowedIps { pubkey } => Ask::AllowedIps { pubkey: pubkey@ },
            Request::LanActive { pubkey, endpoint } => Ask::LanActive {
                pubkey: pubkey@,
                endpoint: endpoint@,
            },
            Request::SetEndpoint { pubkey, endpoint } => Ask::SetEndpoint {
                pubkey: pubkey@,
                endpoint: endpoint@,
            },
            Request::AddIps { pubkey, ips } => Ask::AddIps {
                pubkey: pubkey@,
                ips: ips.deep_view(),
            },
            Request::RemoveIps { pubkey, ips } => Ask::RemoveIps {
                pubkey: pubkey@,
                ips: ips.deep_view(),
            },
            Request::RemovePeer { pubkey } => Ask::RemovePeer { pubkey: pubkey@ },
            Request::UpdatePeer(u) => Ask::UpdatePeer(u.deep_view()),
            Request::SwitchToLan { pubkey, endpoints } => Ask::SwitchToLan {
                pubkey: pubkey@,
                endpoints: endpoints.deep_view(),
            },
            Request::ConfigureSelfIp { ipv4, ipv6 } => Ask::ConfigureSelfIp {
                ipv4: ipv4@,
                ipv6: ipv6@,
            },
            Request::ApplyAmnezia => Ask::ApplyAmnezia,
            Request::Install { ipv4, ipv6 } => Ask::Install { ipv4: ipv4@, ipv6: ipv6@ },
            Request::ApplyRoutes => Ask::ApplyRoutes,
            Request::SetListenPort { port } => Ask::SetListenPort { port },
        }
    }
}

/// What came back on a [`Request`].
pub enum Answer {
    /// Yes or no; for a change, whether it was made.
    Flag(bool),
    /// A text, if there is one.
    Text(Option<String>),
    /// A list of texts, if the question could be answered.
    List(Option<Vec<String>>),
}

/// The contents of an [`Answer`].
pub enum Told {
    Flag(bool),
    Text(Option<Text>),
    List(Option<Seq<Text>>),
}

impl DeepView for Answer {
    type V = Told;

    open spec fn deep_view(&self) -> Told {
        match *self {
            Answer::Flag(b) => Told::Flag(b),
            Answer::Text(t) => Told::Text(t.deep_view()),
            Answer::List(l) => Told::List(l.deep_view()),
        }
    }
}

/// Whether an answer is of the kind that the request asks for.
pub open spec fn fits(ask: Ask, told: Told) -> bool {
    match ask {
        Ask::Handshakes | Ask::Peers | Ask::PeersWithPsk | Ask::AllowedIps { .. } => told is List,
        Ask::Endpoint { .. } => told is Text,
        _ => told is Flag,
    }
}

impl Answer {
    /// The answer to a question that is answered with yes or no.
    pub fn flag(&self) -> (r: bool)
        requires
            self.deep_view() is Flag,
        ensures
            self.deep_view() == Told::Flag(r),
    {
        match self {
            Answer::Flag(b) => *b,
            _ => false,
        }
    }

    /// The answer to a question that is answered with a text.
    pub fn text(self) -> (r: Option<String>)
        requires
            self.deep_view() is Text,
        ensures
            self.deep_view() == Told::Text(r.deep_view()),
    {
        match self {
            Answer::Text(t) => t,
            _ => None,
        }
    }

    /// The answer to a question that is answered with a list.
    pub fn list(self) -> (r: Option<Vec<String>>)
        requires
            self.deep_view() is List,
        ensures
            self.deep_view() == Told::List(r.deep_view()),
    {
        match self {
            Answer::List(l) => l,
            _ => None,
        }
    }
}

} // verus!
