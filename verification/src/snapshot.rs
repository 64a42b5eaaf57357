//! Bringing the interface in line with a full snapshot.
use vstd::prelude::*;

use crate::commands::AmneziaConfig;
use crate::model::{
    deserialize_psk, fits, psk_meant, widen, widened, AdvertisedRoutes, Answer, Ask, NodeStatus,
    PeerInfo, PeerMap, PeerUpdate, PeerView, RegistrationState, Request, Told, UpdateView,
};
use crate::relay::{
    candidates, discover_relay, forgotten, living, relay_candidates, sorted, RelayTables,
    TablesView, RELAY_FAIL_THRESHOLD,
};
use crate::self_ips::{
    extract_self_ips, host_addresses, pick_tunnel_addresses, tunnel_addresses,
};
use crate::text::{
    contains_string, copy_list, copy_opt, is_blank, lemma_list_len, owned, text_eq, Text,
};

verus! {

/// A full snapshot: all peers of the network, the routes to advertise and the obfuscation settings.
pub struct FullSnapshot {
    pub peers: PeerMap,
    pub routes: AdvertisedRoutes,
    pub amnezia: Option<AmneziaConfig>,
}

/// A snapshot of fewer peers is not taken for complete.
pub const MIN_PEERS: usize = 2;

/// Where the work on a snapshot stands; `i` counts peers.
#[derive(Clone, Copy)]
pub enum SnapshotStage {
    /// Waiting to hear whether a relay candidate is alive.
    Discovering { i: usize },
    /// Waiting for the interface to be given this node's addresses.
    Addressing,
    /// Waiting for the obfuscation settings to be applied.
    Obfuscating,
    /// Waiting for the tunnel to be installed.
    Installing,
    /// Waiting for the routes of a new tunnel to be brought into force.
    RoutingNew,
    /// Waiting for the peers that have a preshared key.
    ListingKeys,
    /// Waiting for the current addresses of a peer that the snapshot gives none.
    Reading { i: usize },
    /// Waiting for the current endpoint of a peer.
    Locating { i: usize },
    /// Waiting to hear whether it is in use over the local network.
    Comparing { i: usize },
    /// Waiting for a peer to be updated.
    Updating { i: usize },
    /// Waiting for a peer to be tried over the local network.
    Switching { i: usize },
    /// Waiting for the peers of the interface.
    Listing,
    /// Waiting for a peer that the snapshot lacks to be removed.
    Pruning { i: usize },
    /// Waiting for the routes to be brought into force.
    Routing,
    /// The snapshot was worked through.
    Done,
    /// The tunnel could not be installed.
    Failed,
}

/// The settings that the work on a snapshot depends on.
pub struct SnapshotSettings {
    /// Whether the obfuscating tool is in use.
    pub awg: bool,
    /// Whether peers may be reached over the local network.
    pub lan: bool,
    /// The networks that relays are known by.
    pub relay_v4: String,
    pub relay_v6: String,
}

/// The work on a snapshot.
pub struct SnapshotRun {
    local: String,
    awg: bool,
    lan: bool,
    snapshot: FullSnapshot,
    candidates: Vec<String>,
    alive: Vec<bool>,
    with_psk: Vec<String>,
    ips: Vec<String>,
    endpoint: Option<String>,
    listed: Vec<String>,
    stage: SnapshotStage,
}

/// The contents of a [`SnapshotRun`].
pub struct SnapshotView {
    /// The public key of this node.
    pub local: Text,
    pub awg: bool,
    pub lan: bool,
    /// The peers of the snapshot, and the order in which they are walked.
    pub keys: Seq<Text>,
    pub peers: Map<Text, PeerView>,
    /// Whether the snapshot has obfuscation settings.
    pub amnezia: bool,
    /// The peers that are meant as relays.
    pub candidates: Seq<Text>,
    /// Which of them were found alive so far.
    pub alive: Seq<bool>,
    /// The peers that have a preshared key.
    pub with_psk: Seq<Text>,
    /// The addresses and the endpoint for the peer at hand.
    pub ips: Seq<Text>,
    pub endpoint: Option<Text>,
    /// The peers of the interface.
    pub listed: Seq<Text>,
    pub stage: SnapshotStage,
}

impl View for SnapshotRun {
    type V = SnapshotView;

    closed spec fn view(&self) -> SnapshotView {
        SnapshotView {
            local: self.local@,
            awg: self.awg,
            lan: self.lan,
            keys: self.snapshot.peers.keys(),
            peers: self.snapshot.peers@,
            amnezia: self.snapshot.amnezia is Some,
            candidates: self.candidates.deep_view(),
            alive: self.alive@,
            with_psk: self.with_psk.deep_view(),
            ips: self.ips.deep_view(),
            endpoint: self.endpoint.deep_view(),
            listed: self.listed.deep_view(),
            stage: self.stage,
        }
    }
}

// ---------- What comes next ----------

/// Whether a snapshot is complete: this node is in it, and is not alone.
pub open spec fn complete(keys: Seq<Text>, peers: Map<Text, PeerView>, local: Text) -> bool {
    peers.contains_key(local) && keys.len() >= MIN_PEERS
}

/// The addresses of this node in the snapshot, none where it has none.
pub open spec fn own_ips(v: SnapshotView) -> Seq<Text> {
    if v.peers[v.local].allowed_ips is Some {
        v.peers[v.local].allowed_ips->0
    } else {
        Seq::empty()
    }
}

/// Going on with the main part: the tunnel is installed if it is not yet, and else brought in line
/// with the snapshot.
pub open spec fn main_part(v: SnapshotView, configured: bool) -> SnapshotView {
    let (a, b) = tunnel_addresses(own_ips(v));
    SnapshotView {
        stage: if configured {
            SnapshotStage::ListingKeys
        } else if a.len() > 0 || b.len() > 0 {
            SnapshotStage::Installing
        } else {
            SnapshotStage::Done
        },
        ..v
    }
}

/// Going on with the obfuscation settings.
pub open spec fn obfuscation(v: SnapshotView, configured: bool) -> SnapshotView {
    if v.awg && v.amnezia {
        SnapshotView { stage: SnapshotStage::Obfuscating, ..v }
    } else {
        main_part(v, configured)
    }
}

/// Going on with this node's addresses.
pub open spec fn addressing(v: SnapshotView, configured: bool) -> SnapshotView {
    let (a, b) = host_addresses(own_ips(v));
    if a.len() > 0 || b.len() > 0 {
        SnapshotView { stage: SnapshotStage::Addressing, ..v }
    } else {
        obfuscation(v, configured)
    }
}

/// Going on with the relay candidates from the `i`-th; when none is left those alive are the
/// relays.
pub open spec fn discover_from(v: SnapshotView, t: TablesView, configured: bool, i: int) -> (
    SnapshotView,
    TablesView,
) {
    if i < v.candidates.len() {
        (SnapshotView { stage: SnapshotStage::Discovering { i: i as usize }, ..v }, t)
    } else {
        (
            addressing(v, configured),
            TablesView { pool: sorted(living(v.candidates, v.alive)), ..t },
        )
    }
}

/// The first place at or after `i` of a peer to update: neither this node nor one behind a relay.
pub open spec fn next_update(v: SnapshotView, t: TablesView, i: int) -> int
    decreases v.keys.len() - i,
{
    if i >= v.keys.len() {
        v.keys.len() as int
    } else if v.keys[i] == v.local || t.assigned.contains_key(v.keys[i]) {
        next_update(v, t, i + 1)
    } else {
        i
    }
}

/// Whether the snapshot asks for the preshared key of a peer to be cleared.
pub open spec fn clears_psk(p: PeerView) -> bool {
    psk_meant(p.preshared_key) is Some && psk_meant(p.preshared_key)->0.len() == 0
}

/// Going on with a peer once its addresses are known. The endpoint of a peer that may be in use
/// over the local network is looked at first, unless its preshared key is to be cleared.
pub open spec fn update_with(v: SnapshotView, i: int, ips: Seq<Text>) -> SnapshotView {
    let p = v.peers[v.keys[i]];
    if v.lan && !clears_psk(p) {
        SnapshotView {
            ips,
            endpoint: p.endpoint,
            stage: SnapshotStage::Locating { i: i as usize },
            ..v
        }
    } else {
        SnapshotView {
            ips,
            endpoint: p.endpoint,
            stage: SnapshotStage::Updating { i: i as usize },
            ..v
        }
    }
}

/// Going on with the peers to update from the `i`-th.
pub open spec fn update_from(v: SnapshotView, t: TablesView, i: int) -> SnapshotView {
    let n = next_update(v, t, i);
    if n < v.keys.len() {
        let p = v.peers[v.keys[n]];
        if p.allowed_ips is Some && p.allowed_ips->0.len() > 0 {
            update_with(v, n, p.allowed_ips->0)
        } else {
            SnapshotView { stage: SnapshotStage::Reading { i: n as usize }, ..v }
        }
    } else {
        SnapshotView { stage: SnapshotStage::Listing, ..v }
    }
}

/// The first place at or after `i` of a peer to remove: the snapshot lacks it and it is not this
/// node.
pub open spec fn next_stray(v: SnapshotView, i: int) -> int
    decreases v.listed.len() - i,
{
    if i >= v.listed.len() {
        v.listed.len() as int
    } else if v.listed[i] == v.local || v.peers.contains_key(v.listed[i]) {
        next_stray(v, i + 1)
    } else {
        i
    }
}

/// Going on with the peers to remove from the `i`-th.
pub open spec fn prune_from(v: SnapshotView, i: int) -> SnapshotView {
    let n = next_stray(v, i);
    SnapshotView {
        stage: if n < v.listed.len() {
            SnapshotStage::Pruning { i: n as usize }
        } else {
            SnapshotStage::Routing
        },
        ..v
    }
}

/// The preshared key of an update. One that is to be cleared is left alone where the peer is known
/// to have none; where no peer is known to have one, it is cleared in any case.
pub open spec fn psk_for(v: SnapshotView, i: int) -> Option<Text> {
    let p = v.peers[v.keys[i]];
    if clears_psk(p) && v.with_psk.len() > 0 && !v.with_psk.contains(v.keys[i]) {
        None
    } else {
        psk_meant(p.preshared_key)
    }
}

/// The update of a peer.
pub open spec fn update_for(v: SnapshotView, i: int) -> UpdateView {
    UpdateView {
        pubkey: v.keys[i],
        endpoint: v.endpoint,
        allowed_ips: Some(v.ips),
        persistent_keepalive: widened(v.peers[v.keys[i]].persistent_keepalive),
        preshared_key: psk_for(v, i),
    }
}

/// The endpoints of a peer in its local networks, none where it reported none.
pub open spec fn lan_endpoints(p: PeerView) -> Seq<Text> {
    if p.local_ips is Some {
        p.local_ips->0
    } else {
        Seq::empty()
    }
}

// ---------- The steps ----------

/// What the work on a snapshot asks next.
pub open spec fn snapshot_ask(v: SnapshotView) -> Ask {
    match v.stage {
        SnapshotStage::Discovering { i } => Ask::Recent {
            pubkey: v.candidates[i as int],
            max_age: RELAY_FAIL_THRESHOLD,
        },
        SnapshotStage::Addressing => {
            let (ipv4, ipv6) = host_addresses(own_ips(v));
            Ask::ConfigureSelfIp { ipv4, ipv6 }
        },
        SnapshotStage::Obfuscating => Ask::ApplyAmnezia,
        SnapshotStage::Installing => {
            let (ipv4, ipv6) = tunnel_addresses(own_ips(v));
            Ask::Install { ipv4, ipv6 }
        },
        SnapshotStage::RoutingNew | SnapshotStage::Routing => Ask::ApplyRoutes,
        SnapshotStage::ListingKeys => Ask::PeersWithPsk,
        SnapshotStage::Reading { i } => Ask::AllowedIps { pubkey: v.keys[i as int] },
        SnapshotStage::Locating { i } => Ask::Endpoint { pubkey: v.keys[i as int] },
        SnapshotStage::Comparing { i } => Ask::LanActive {
            pubkey: v.keys[i as int],
            endpoint: v.endpoint->0,
        },
        SnapshotStage::Updating { i } => Ask::UpdatePeer(update_for(v, i as int)),
        SnapshotStage::Switching { i } => Ask::SwitchToLan {
            pubkey: v.keys[i as int],
            endpoints: lan_endpoints(v.peers[v.keys[i as int]]),
        },
        SnapshotStage::Listing => Ask::Peers,
        SnapshotStage::Pruning { i } => Ask::RemovePeer { pubkey: v.listed[i as int] },
        SnapshotStage::Done | SnapshotStage::Failed => Ask::Done,
    }
}

/// Where an answer takes the work on a snapshot, and what it makes of the tables and of this node's
/// status.
pub open spec fn snapshot_step(v: SnapshotView, t: TablesView, status: NodeStatus, told: Told) -> (
    SnapshotView,
    TablesView,
    NodeStatus,
) {
    let yes = told == Told::Flag(true);
    match v.stage {
        SnapshotStage::Discovering { i } => {
            let (w, u) = discover_from(
                SnapshotView { alive: v.alive.push(yes), ..v },
                t,
                status.configured,
                i + 1,
            );
            (w, u, status)
        },
        SnapshotStage::Addressing => (obfuscation(v, status.configured), t, status),
        SnapshotStage::Obfuscating => (main_part(v, status.configured), t, status),
        SnapshotStage::Installing => if yes {
            (
                SnapshotView { stage: SnapshotStage::RoutingNew, ..v },
                t,
                NodeStatus { configured: true, ..status },
            )
        } else {
            (SnapshotView { stage: SnapshotStage::Failed, ..v }, t, status)
        },
        SnapshotStage::RoutingNew | SnapshotStage::Routing => (
            SnapshotView { stage: SnapshotStage::Done, ..v },
            t,
            status,
        ),
        SnapshotStage::ListingKeys => {
            let with_psk = match told {
                Told::List(Some(l)) => l,
                _ => Seq::empty(),
            };
            (update_from(SnapshotView { with_psk, ..v }, t, 0), t, status)
        },
        SnapshotStage::Reading { i } => match told {
            Told::List(Some(ips)) => if ips.len() > 0 {
                (update_with(v, i as int, ips), t, status)
            } else {
                (update_from(v, t, i + 1), t, status)
            },
            _ => (update_from(v, t, i + 1), t, status),
        },
        SnapshotStage::Locating { i } => match told {
            Told::Text(Some(ep)) => (
                SnapshotView { endpoint: Some(ep), stage: SnapshotStage::Comparing { i }, ..v },
                t,
                status,
            ),
            _ => (SnapshotView { stage: SnapshotStage::Updating { i }, ..v }, t, status),
        },
        SnapshotStage::Comparing { i } => (
            SnapshotView {
                endpoint: if yes {
                    v.endpoint
                } else {
                    v.peers[v.keys[i as int]].endpoint
                },
                stage: SnapshotStage::Updating { i },
                ..v
            },
            t,
            status,
        ),
        SnapshotStage::Updating { i } => if lan_endpoints(v.peers[v.keys[i as int]]).len() > 0 {
            (SnapshotView { stage: SnapshotStage::Switching { i }, ..v }, t, status)
        } else {
            (update_from(v, t, i + 1), t, status)
        },
        SnapshotStage::Switching { i } => (update_from(v, t, i + 1), t, status),
        SnapshotStage::Listing => match told {
            Told::List(Some(listed)) => (
                prune_from(SnapshotView { listed, ..v }, 0),
                t,
                status,
            ),
            _ => (SnapshotView { stage: SnapshotStage::Routing, ..v }, t, status),
        },
        SnapshotStage::Pruning { i } => (
            prune_from(v, i + 1),
            forgotten(t, v.listed[i as int]),
            status,
        ),
        SnapshotStage::Done | SnapshotStage::Failed => (v, t, status),
    }
}

/// The peers that the work on a snapshot refers to exist.
pub open spec fn snapshot_wf(v: SnapshotView) -> bool {
    &&& v.stage !is Done ==> v.peers.contains_key(v.local)
    &&& match v.stage {
        SnapshotStage::Discovering { i } => i < v.candidates.len() && i == v.alive.len(),
        SnapshotStage::Reading { i }
        | SnapshotStage::Locating { i }
        | SnapshotStage::Updating { i }
        | SnapshotStage::Switching { i } => i < v.keys.len(),
        SnapshotStage::Comparing { i } => i < v.keys.len() && v.endpoint is Some,
        SnapshotStage::Pruning { i } => i < v.listed.len(),
        _ => true,
    }
}

/// The keys of the walk are keys of the snapshot.
pub open spec fn keys_fit(v: SnapshotView) -> bool {
    forall|i: int| 0 <= i < v.keys.len() ==> v.peers.contains_key(#[trigger] v.keys[i])
}

/// The start of the work on a snapshot, an incomplete one being done with at once.
pub open spec fn snapshot_start(
    v: SnapshotView,
    t: TablesView,
    status: NodeStatus,
) -> (SnapshotView, TablesView, NodeStatus) {
    if complete(v.keys, v.peers, v.local) {
        let s = NodeStatus { registration: RegistrationState::Registered, ..status };
        let (w, u) = discover_from(v, t, status.configured, 0);
        (w, u, s)
    } else {
        (SnapshotView { stage: SnapshotStage::Done, ..v }, t, status)
    }
}

/// A snapshot that nothing was done about yet.
pub open spec fn fresh(
    local: Text,
    snapshot: FullSnapshot,
    awg: bool,
    lan: bool,
    relay_v4: Text,
    relay_v6: Text,
) -> SnapshotView {
    SnapshotView {
        local,
        awg,
        lan,
        keys: snapshot.peers.keys(),
        peers: snapshot.peers@,
        amnezia: snapshot.amnezia is Some,
        candidates: candidates(snapshot.peers.keys(), snapshot.peers@, relay_v4, relay_v6),
        alive: Seq::empty(),
        with_psk: Seq::empty(),
        ips: Seq::empty(),
        endpoint: None,
        listed: Seq::empty(),
        stage: SnapshotStage::Done,
    }
}

/// Starts the work on a snapshot.
pub fn handle_full_snapshot(
    local_pubkey: &str,
    snapshot: FullSnapshot,
    settings: &SnapshotSettings,
    t: &mut RelayTables,
    status: &mut NodeStatus,
) -> (r: SnapshotRun)
    requires
        snapshot.peers.wf(),
        old(t).wf(),
    ensures
        final(t).wf(),
        (r@, final(t)@, *final(status)) == snapshot_start(
            fresh(
                local_pubkey@,
                snapshot,
                settings.awg,
                settings.lan,
                settings.relay_v4@,
                settings.relay_v6@,
            ),
            old(t)@,
            *old(status),
        ),
        r.wf(),
        r.source() == snapshot,
{
    let candidates = relay_candidates(
        &snapshot.peers,
        settings.relay_v4.as_str(),
        settings.relay_v6.as_str(),
    );
    let whole = snapshot.peers.contains(local_pubkey) && snapshot.peers.len() >= MIN_PEERS;
    let mut r = SnapshotRun {
        local: owned(local_pubkey),
        awg: settings.awg,
        lan: settings.lan,
        snapshot,
        candidates,
        alive: Vec::new(),
        with_psk: Vec::new(),
        ips: Vec::new(),
        endpoint: None,
        listed: Vec::new(),
        stage: SnapshotStage::Done,
    };
    assert(r.with_psk.deep_view() =~= Seq::<Text>::empty());
    assert(r.ips.deep_view() =~= Seq::<Text>::empty());
    assert(r.listed.deep_view() =~= Seq::<Text>::empty());
    proof {
        r.lemma_keys_fit();
    }
    if whole {
        status.registration = RegistrationState::Registered;
        r.go_discover(t, status.configured, 0);
    }
    r
}

impl SnapshotRun {
    /// The places that the work refers to exist.
    pub closed spec fn wf(&self) -> bool {
        self.snapshot.peers.wf() && snapshot_wf(self@)
    }

    proof fn lemma_keys_fit(&self)
        requires
            self.snapshot.peers.wf(),
        ensures
            keys_fit(self@),
            self@.keys.len() <= usize::MAX,
    {
        self.snapshot.peers.lemma_keys();
    }

    /// The snapshot that is worked on.
    pub closed spec fn source(&self) -> FullSnapshot {
        self.snapshot
    }

    /// The snapshot that is worked on.
    pub fn snapshot(&self) -> (r: &FullSnapshot)
        requires
            self.wf(),
        ensures
            *r == self.source(),
            r.peers.wf(),
            r.peers@ == self@.peers,
            r.peers.keys() == self@.keys,
            r.amnezia is Some == self@.amnezia,
    {
        &self.snapshot
    }

    /// Ends the work: unless it failed, the peers of the snapshot are those that are known from now
    /// on.
    pub fn finish(self, known: &mut PeerMap) -> (r: bool)
        requires
            self.wf(),
            self@.stage is Done || self@.stage is Failed,
            old(known).wf(),
        ensures
            r == (self@.stage is Done),
            final(known).wf(),
            final(known)@ == if r {
                self@.peers
            } else {
                old(known)@
            },
            final(known).keys() == if r {
                self@.keys
            } else {
                old(known).keys()
            },
    {
        match self.stage {
            SnapshotStage::Done => {
                *known = self.snapshot.peers;
                true
            },
            _ => false,
        }
    }

    fn own_ips_of(&self) -> (r: Vec<String>)
        requires
            self.snapshot.peers.wf(),
            self@.peers.contains_key(self@.local),
        ensures
            r.deep_view() == own_ips(self@),
    {
        let none: Vec<String> = Vec::new();
        assert(none.deep_view() =~= Seq::<Text>::empty());
        match self.snapshot.peers.get(self.local.as_str()) {
            Some(p) => match &p.allowed_ips {
                Some(ips) => copy_list(ips),
                None => none,
            },
            None => none,
        }
    }

    fn go_main(&mut self, configured: bool)
        requires
            old(self).snapshot.peers.wf(),
            old(self)@.peers.contains_key(old(self)@.local),
        ensures
            final(self).snapshot == old(self).snapshot,
            final(self)@ == main_part(old(self)@, configured),
    {
        let (a, b) = pick_tunnel_addresses(&self.own_ips_of());
        self.stage = if configured {
            SnapshotStage::ListingKeys
        } else if !is_blank(a.as_str()) || !is_blank(b.as_str()) {
            SnapshotStage::Installing
        } else {
            SnapshotStage::Done
        };
    }

    fn go_obfuscate(&mut self, configured: bool)
        requires
            old(self).snapshot.peers.wf(),
            old(self)@.peers.contains_key(old(self)@.local),
        ensures
            final(self).snapshot == old(self).snapshot,
            final(self)@ == obfuscation(old(self)@, configured),
    {
        if self.awg && self.snapshot.amnezia.is_some() {
            self.stage = SnapshotStage::Obfuscating;
        } else {
            self.go_main(configured);
        }
    }

    fn go_discover(&mut self, t: &mut RelayTables, configured: bool, i: usize)
        requires
            old(self).snapshot.peers.wf(),
            old(self)@.peers.contains_key(old(self)@.local),
            old(t).wf(),
            i == old(self)@.alive.len(),
            i <= old(self)@.candidates.len(),
        ensures
            final(self).snapshot == old(self).snapshot,
            final(t).wf(),
            (final(self)@, final(t)@) == discover_from(old(self)@, old(t)@, configured, i as int),
    {
        proof {
            lemma_list_len(&self.candidates);
        }
        if i < self.candidates.len() {
            self.stage = SnapshotStage::Discovering { i };
            return;
        }
        t.pool = discover_relay(&self.candidates, &self.alive);
        let (a, b) = extract_self_ips(&self.own_ips_of());
        if !is_blank(a.as_str()) || !is_blank(b.as_str()) {
            self.stage = SnapshotStage::Addressing;
        } else {
            self.go_obfuscate(configured);
        }
    }

    fn peer_at(&self, i: usize) -> (r: &PeerInfo)
        requires
            self.snapshot.peers.wf(),
            i < self@.keys.len(),
        ensures
            r.deep_view() == self@.peers[self@.keys[i as int]],
    {
        self.snapshot.peers.value_at(i)
    }

    fn go_update_with(&mut self, i: usize, ips: Vec<String>)
        requires
            old(self).snapshot.peers.wf(),
            i < old(self)@.keys.len(),
        ensures
            final(self).snapshot == old(self).snapshot,
            final(self)@ == update_with(old(self)@, i as int, ips.deep_view()),
    {
        let p = self.snapshot.peers.value_at(i);
        let clears = match &deserialize_psk(&p.preshared_key) {
            Some(k) => is_blank(k.as_str()),
            None => false,
        };
        let endpoint = copy_opt(&p.endpoint);
        self.ips = ips;
        self.endpoint = endpoint;
        self.stage = if self.lan && !clears {
            SnapshotStage::Locating { i }
        } else {
            SnapshotStage::Updating { i }
        };
    }

    fn go_update(&mut self, t: &RelayTables, from: usize)
        requires
            old(self).snapshot.peers.wf(),
            t.wf(),
            from <= old(self)@.keys.len(),
        ensures
            final(self).snapshot == old(self).snapshot,
            final(self)@ == update_from(old(self)@, t@, from as int),
    {
        let ghost v = self@;
        let ghost s = self.snapshot;
        let mut n: usize = from;
        while n < self.snapshot.peers.len()
            invariant
                self@ == v,
                self.snapshot == s,
                old(self)@ == v,
                old(self).snapshot == s,
                self.snapshot.peers.wf(),
                t.wf(),
                n <= v.keys.len(),
                next_update(v, t@, from as int) == next_update(v, t@, n as int),
            decreases v.keys.len() - n,
        {
            let key = self.snapshot.peers.key_at(n);
            if !text_eq(key.as_str(), self.local.as_str()) && !t.assigned.contains(key.as_str()) {
                let none: Vec<String> = Vec::new();
                assert(none.deep_view() =~= Seq::<Text>::empty());
                let ips = match &self.peer_at(n).allowed_ips {
                    Some(ips) => copy_list(ips),
                    None => none,
                };
                proof {
                    lemma_list_len(&ips);
                }
                if ips.len() > 0 {
                    self.go_update_with(n, ips);
                } else {
                    self.stage = SnapshotStage::Reading { i: n };
                }
                return;
            }
            n += 1;
        }
        self.stage = SnapshotStage::Listing;
    }

    fn go_prune(&mut self, from: usize)
        requires
            old(self).snapshot.peers.wf(),
            from <= old(self)@.listed.len(),
        ensures
            final(self).snapshot == old(self).snapshot,
            final(self)@ == prune_from(old(self)@, from as int),
    {
        proof {
            lemma_list_len(&self.listed);
        }
        let ghost v = self@;
        let ghost s = self.snapshot;
        let mut n: usize = from;
        while n < self.listed.len()
            invariant
                self@ == v,
                self.snapshot == s,
                old(self)@ == v,
                old(self).snapshot == s,
                self.snapshot.peers.wf(),
                v.listed.len() == self.listed@.len(),
                n <= v.listed.len(),
                next_stray(v, from as int) == next_stray(v, n as int),
            decreases v.listed.len() - n,
        {
            if !text_eq(self.listed[n].as_str(), self.local.as_str())
                && !self.snapshot.peers.contains(self.listed[n].as_str()) {
                self.stage = SnapshotStage::Pruning { i: n };
                return;
            }
            n += 1;
        }
        self.stage = SnapshotStage::Routing;
    }

    fn lan_endpoints_of(&self, i: usize) -> (r: Vec<String>)
        requires
            self.snapshot.peers.wf(),
            i < self@.keys.len(),
        ensures
            r.deep_view() == lan_endpoints(self@.peers[self@.keys[i as int]]),
    {
        let none: Vec<String> = Vec::new();
        assert(none.deep_view() =~= Seq::<Text>::empty());
        match &self.peer_at(i).local_ips {
            Some(ips) => copy_list(ips),
            None => none,
        }
    }

    fn update_of(&self, i: usize) -> (r: PeerUpdate)
        requires
            self.snapshot.peers.wf(),
            i < self@.keys.len(),
        ensures
            r.deep_view() == update_for(self@, i as int),
    {
        let p = self.peer_at(i);
        let key = self.snapshot.peers.key_at(i);
        let clears = match &deserialize_psk(&p.preshared_key) {
            Some(k) => is_blank(k.as_str()),
            None => false,
        };
        proof {
            lemma_list_len(&self.with_psk);
        }
        let preshared_key = if clears && self.with_psk.len() > 0 && !contains_string(
            &self.with_psk,
            key.as_str(),
        ) {
            None
        } else {
            deserialize_psk(&p.preshared_key)
        };
        PeerUpdate {
            pubkey: key.clone(),
            endpoint: copy_opt(&self.endpoint),
            allowed_ips: Some(copy_list(&self.ips)),
            persistent_keepalive: widen(p.persistent_keepalive),
            preshared_key,
        }
    }

    /// What the work on the snapshot asks next.
    pub fn request(&self) -> (r: Request)
        requires
            self.wf(),
        ensures
            r.deep_view() == snapshot_ask(self@),
    {
        proof {
            lemma_list_len(&self.candidates);
            lemma_list_len(&self.listed);
        }
        match self.stage {
            SnapshotStage::Discovering { i } => Request::Recent {
                pubkey: self.candidates[i].clone(),
                max_age: RELAY_FAIL_THRESHOLD,
            },
            SnapshotStage::Addressing => {
                let (ipv4, ipv6) = extract_self_ips(&self.own_ips_of());
                Request::ConfigureSelfIp { ipv4, ipv6 }
            },
            SnapshotStage::Obfuscating => Request::ApplyAmnezia,
            SnapshotStage::Installing => {
                let (ipv4, ipv6) = pick_tunnel_addresses(&self.own_ips_of());
                Request::Install { ipv4, ipv6 }
            },
            SnapshotStage::RoutingNew => Request::ApplyRoutes,
            SnapshotStage::Routing => Request::ApplyRoutes,
            SnapshotStage::ListingKeys => Request::PeersWithPsk,
            SnapshotStage::Reading { i } => Request::AllowedIps {
                pubkey: self.snapshot.peers.key_at(i).clone(),
            },
            SnapshotStage::Locating { i } => Request::Endpoint {
                pubkey: self.snapshot.peers.key_at(i).clone(),
            },
            SnapshotStage::Comparing { i } => match &self.endpoint {
                Some(ep) => Request::LanActive {
                    pubkey: self.snapshot.peers.key_at(i).clone(),
                    endpoint: ep.clone(),
                },
                None => Request::Done,
            },
            SnapshotStage::Updating { i } => Request::UpdatePeer(self.update_of(i)),
            SnapshotStage::Switching { i } => Request::SwitchToLan {
                pubkey: self.snapshot.peers.key_at(i).clone(),
                endpoints: self.lan_endpoints_of(i),
            },
            SnapshotStage::Listing => Request::Peers,
            SnapshotStage::Pruning { i } => Request::RemovePeer { pubkey: self.listed[i].clone() },
            SnapshotStage::Done => Request::Done,
            SnapshotStage::Failed => Request::Done,
        }
    }

    /// Takes the answer to the last request and says what to ask next.
    pub fn step(&mut self, t: &mut RelayTables, status: &mut NodeStatus, answer: Answer) -> (r:
        Request)
        requires
            old(self).wf(),
            old(t).wf(),
            fits(snapshot_ask(old(self)@), answer.deep_view()),
        ensures
            final(self).wf(),
            final(self).source() == old(self).source(),
            final(t).wf(),
            (final(self)@, final(t)@, *final(status)) == snapshot_step(
                old(self)@,
                old(t)@,
                *old(status),
                answer.deep_view(),
            ),
            r.deep_view() == snapshot_ask(final(self)@),
    {
        proof {
            lemma_list_len(&self.candidates);
            lemma_list_len(&self.listed);
            self.lemma_keys_fit();
        }
        match self.stage {
            SnapshotStage::Discovering { i } => {
                self.alive.push(answer.flag());
                self.go_discover(t, status.configured, i + 1);
            },
            SnapshotStage::Addressing => {
                self.go_obfuscate(status.configured);
            },
            SnapshotStage::Obfuscating => {
                self.go_main(status.configured);
            },
            SnapshotStage::Installing => {
                if answer.flag() {
                    status.configured = true;
                    self.stage = SnapshotStage::RoutingNew;
                } else {
                    self.stage = SnapshotStage::Failed;
                }
            },
            SnapshotStage::RoutingNew => {
                self.stage = SnapshotStage::Done;
            },
            SnapshotStage::Routing => {
                self.stage = SnapshotStage::Done;
            },
            SnapshotStage::ListingKeys => {
                self.with_psk = match answer.list() {
                    Some(l) => l,
                    None => Vec::new(),
                };
                assert(answer.deep_view() == Told::List(None::<Seq<Text>>)
                    ==> self.with_psk.deep_view() =~= Seq::<Text>::empty());
                self.go_update(t, 0);
            },
            SnapshotStage::Reading { i } => {
                match answer.list() {
                    Some(ips) => {
                        proof {
                            lemma_list_len(&ips);
                        }
                        if ips.len() > 0 {
                            self.go_update_with(i, ips);
                        } else {
                            self.go_update(t, i + 1);
                        }
                    },
                    None => {
                        self.go_update(t, i + 1);
                    },
                }
            },
            SnapshotStage::Locating { i } => {
                match answer.text() {
                    Some(ep) => {
                        self.endpoint = Some(ep);
                        self.stage = SnapshotStage::Comparing { i };
                    },
                    None => {
                        self.stage = SnapshotStage::Updating { i };
                    },
                }
            },
            SnapshotStage::Comparing { i } => {
                if !answer.flag() {
                    let ep = copy_opt(&self.peer_at(i).endpoint);
                    self.endpoint = ep;
                }
                self.stage = SnapshotStage::Updating { i };
            },
            SnapshotStage::Updating { i } => {
                let eps = self.lan_endpoints_of(i);
                proof {
                    lemma_list_len(&eps);
                }
                if eps.len() > 0 {
                    self.stage = SnapshotStage::Switching { i };
                } else {
                    self.go_update(t, i + 1);
                }
            },
            SnapshotStage::Switching { i } => {
                self.go_update(t, i + 1);
            },
            SnapshotStage::Listing => {
                match answer.list() {
                    Some(listed) => {
                        self.listed = listed;
                        self.go_prune(0);
                    },
                    None => {
                        self.stage = SnapshotStage::Routing;
                    },
                }
            },
            SnapshotStage::Pruning { i } => {
                let gone = self.listed[i].clone();
                t.forget(&gone);
                self.go_prune(i + 1);
            },
            SnapshotStage::Done => {},
            SnapshotStage::Failed => {},
        }
        proof {
            lemma_list_len(&self.listed);
            lemma_snapshot_step_wf(old(self)@, old(t)@, *old(status), answer.deep_view());
        }
        self.request()
    }
}

pub(crate) proof fn lemma_next_update(v: SnapshotView, t: TablesView, i: int)
    requires
        0 <= i <= v.keys.len(),
    ensures
        i <= next_update(v, t, i) <= v.keys.len(),
        next_update(v, t, i) < v.keys.len() ==> {
            let k = v.keys[next_update(v, t, i)];
            k != v.local && !t.assigned.contains_key(k)
        },
    decreases v.keys.len() - i,
{
    if i < v.keys.len() && (v.keys[i] == v.local || t.assigned.contains_key(v.keys[i])) {
        lemma_next_update(v, t, i + 1);
    }
}

pub(crate) proof fn lemma_next_stray(v: SnapshotView, i: int)
    requires
        0 <= i <= v.listed.len(),
    ensures
        i <= next_stray(v, i) <= v.listed.len(),
        next_stray(v, i) < v.listed.len() ==> {
            let k = v.listed[next_stray(v, i)];
            k != v.local && !v.peers.contains_key(k)
        },
    decreases v.listed.len() - i,
{
    if i < v.listed.len() && (v.listed[i] == v.local || v.peers.contains_key(v.listed[i])) {
        lemma_next_stray(v, i + 1);
    }
}

proof fn lemma_snapshot_step_wf(v: SnapshotView, t: TablesView, status: NodeStatus, told: Told)
    requires
        snapshot_wf(v),
        v.keys.len() <= usize::MAX,
        v.candidates.len() <= usize::MAX,
        v.listed.len() <= usize::MAX,
        snapshot_step(v, t, status, told).0.listed.len() <= usize::MAX,
    ensures
        snapshot_wf(snapshot_step(v, t, status, told).0),
{
    match v.stage {
        SnapshotStage::ListingKeys => {
            let with_psk = match told {
                Told::List(Some(l)) => l,
                _ => Seq::empty(),
            };
            lemma_next_update(SnapshotView { with_psk, ..v }, t, 0);
        },
        SnapshotStage::Reading { i }
        | SnapshotStage::Updating { i }
        | SnapshotStage::Switching { i } => {
            lemma_next_update(v, t, i + 1);
        },
        SnapshotStage::Listing => {
            if let Told::List(Some(listed)) = told {
                lemma_next_stray(SnapshotView { listed, ..v }, 0);
            }
        },
        SnapshotStage::Pruning { i } => {
            lemma_next_stray(v, i + 1);
        },
        _ => {},
    }
}

} // verus!
