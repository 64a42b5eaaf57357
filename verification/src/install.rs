//! Installing the tunnel: the configuration file and the steps that put it in force.
use vstd::prelude::*;

use crate::commands::{show_interface, Call, Invocation};
use crate::model::{PeerInfo, PeerMap, PeerView, PskField, PskView};
use crate::number::{decimal, decimal_of};
use crate::strmap::StrMap;
use crate::text::{is_blank, join, join_texts, lemma_list_len, owned, trim, trimmed, Text};
use crate::wg::{port_number, DEFAULT_LISTEN_PORT};

verus! {

// ---------- The configuration ----------

/// The lines with one more that sets `name`, if there is a value for it.
pub open spec fn with_line(list: Seq<Text>, name: Text, value: Option<Text>) -> Seq<Text> {
    match value {
        Some(v) => list.push(name + v),
        None => list,
    }
}

/// The preshared key of a peer in the configuration: the text that the snapshot holds. A new
/// tunnel has no key that null could ask to be cleared.
pub open spec fn key_in_config(p: PeerView) -> Option<Text> {
    match p.preshared_key {
        PskView::Key(k) => Some(k),
        _ => None,
    }
}

/// The section of a peer.
pub open spec fn peer_section(pubkey: Text, p: PeerView) -> Seq<Text> {
    let a = seq![Seq::<char>::empty(), "[Peer]"@, "PublicKey = "@ + pubkey];
    let b = with_line(a, "Endpoint = "@, p.endpoint);
    let c = with_line(b, "PresharedKey = "@, key_in_config(p));
    let d = with_line(
        c,
        "PersistentKeepalive = "@,
        match p.persistent_keepalive {
            Some(k) => Some(decimal(k as nat)),
            None => None,
        },
    );
    with_line(
        d,
        "AllowedIPs = "@,
        match p.allowed_ips {
            Some(ips) => if ips.len() > 0 {
                Some(join(ips, ", "@))
            } else {
                None
            },
            None => None,
        },
    )
}

/// The sections of the peers that do not stand behind a relay.
pub open spec fn peer_sections(
    keys: Seq<Text>,
    peers: Map<Text, PeerView>,
    assigned: Map<Text, Text>,
) -> Seq<Text>
    decreases keys.len(),
{
    if keys.len() == 0 {
        Seq::empty()
    } else {
        let front = peer_sections(keys.drop_last(), peers, assigned);
        if assigned.contains_key(keys.last()) {
            front
        } else {
            front + peer_section(keys.last(), peers[keys.last()])
        }
    }
}

/// The addresses of this node that are there.
pub open spec fn own_addresses(ipv4: Text, ipv6: Text) -> Seq<Text> {
    if ipv4.len() > 0 && ipv6.len() > 0 {
        seq![ipv4, ipv6]
    } else if ipv4.len() > 0 {
        seq![ipv4]
    } else if ipv6.len() > 0 {
        seq![ipv6]
    } else {
        Seq::empty()
    }
}

/// The section of this node.
pub open spec fn interface_section(private_key: Text, port: u16, ipv4: Text, ipv6: Text) -> Seq<
    Text,
> {
    let own = own_addresses(ipv4, ipv6);
    with_line(
        seq![
            "[Interface]"@,
            "PrivateKey = "@ + private_key,
            "ListenPort = "@ + decimal(port as nat),
        ],
        "Address = "@,
        if own.len() > 0 {
            Some(join(own, ", "@))
        } else {
            None
        },
    )
}

/// The configuration file.
pub open spec fn config_text(
    private_key: Text,
    port: u16,
    ipv4: Text,
    ipv6: Text,
    keys: Seq<Text>,
    peers: Map<Text, PeerView>,
    assigned: Map<Text, Text>,
) -> Text {
    join(
        interface_section(private_key, port, ipv4, ipv6) + peer_sections(keys, peers, assigned),
        "\n"@,
    )
}

fn push_line(list: &mut Vec<String>, name: &str, value: &str)
    ensures
        final(list).deep_view() == with_line(old(list).deep_view(), name@, Some(value@)),
{
    let ghost before = list.deep_view();
    list.push(owned(name).concat(value));
    assert(list.deep_view() =~= before.push(name@ + value@));
}

fn peer_section_of(pubkey: &String, p: &PeerInfo) -> (r: Vec<String>)
    ensures
        r.deep_view() == peer_section(pubkey@, p.deep_view()),
{
    let mut list = vec![
        String::new(),
        owned("[Peer]"),
        owned("PublicKey = ").concat(pubkey.as_str()),
    ];
    assert(list.deep_view() =~= seq![Seq::<char>::empty(), "[Peer]"@, "PublicKey = "@ + pubkey@]);
    if let Some(ep) = &p.endpoint {
        push_line(&mut list, "Endpoint = ", ep.as_str());
    }
    if let PskField::Key(psk) = &p.preshared_key {
        push_line(&mut list, "PresharedKey = ", psk.as_str());
    }
    if let Some(ka) = p.persistent_keepalive {
        push_line(&mut list, "PersistentKeepalive = ", decimal_of(ka as u64).as_str());
    }
    if let Some(ips) = &p.allowed_ips {
        proof {
            lemma_list_len(ips);
        }
        if ips.len() > 0 {
            push_line(&mut list, "AllowedIPs = ", join_texts(ips, ", ").as_str());
        }
    }
    list
}

fn interface_section_of(private_key: &str, port: u16, ipv4: &str, ipv6: &str) -> (r: Vec<String>)
    ensures
        r.deep_view() == interface_section(private_key@, port, ipv4@, ipv6@),
{
    let mut list = vec![
        owned("[Interface]"),
        owned("PrivateKey = ").concat(private_key),
        owned("ListenPort = ").concat(decimal_of(port as u64).as_str()),
    ];
    assert(list.deep_view() =~= seq![
        "[Interface]"@,
        "PrivateKey = "@ + private_key@,
        "ListenPort = "@ + decimal(port as nat),
    ]);
    let mut own: Vec<String> = Vec::new();
    if !is_blank(ipv4) {
        own.push(owned(ipv4));
    }
    if !is_blank(ipv6) {
        own.push(owned(ipv6));
    }
    assert(own.deep_view() =~= own_addresses(ipv4@, ipv6@));
    if own.len() > 0 {
        push_line(&mut list, "Address = ", join_texts(&own, ", ").as_str());
    }
    list
}

/// Writes the configuration of the tunnel: this node with its addresses, and the peers of the
/// snapshot that do not stand behind a relay.
pub fn tunnel_config(
    private_key: &str,
    port: u16,
    ipv4: &str,
    ipv6: &str,
    peers: &PeerMap,
    assigned: &StrMap<String>,
) -> (r: String)
    requires
        peers.wf(),
        assigned.wf(),
    ensures
        r@ == config_text(
            private_key@,
            port,
            ipv4@,
            ipv6@,
            peers.keys(),
            peers@,
            assigned@,
        ),
{
    let mut list = interface_section_of(private_key, port, ipv4, ipv6);
    let ghost head = list.deep_view();
    let ghost keys = peers.keys();
    let mut i: usize = 0;
    assert(head + peer_sections(keys.take(0), peers@, assigned@) =~= head);
    while i < peers.len()
        invariant
            peers.wf(),
            assigned.wf(),
            keys == peers.keys(),
            i <= keys.len(),
            list.deep_view() == head + peer_sections(keys.take(i as int), peers@, assigned@),
        decreases keys.len() - i,
    {
        assert(keys.take(i + 1).drop_last() =~= keys.take(i as int));
        let key = peers.key_at(i);
        if !assigned.contains(key.as_str()) {
            let mut section = peer_section_of(key, peers.value_at(i));
            let ghost a = list.deep_view();
            let ghost b = section.deep_view();
            list.append(&mut section);
            assert(list.deep_view() =~= a + b);
            assert(list.deep_view() =~= head + (peer_sections(
                keys.take(i as int),
                peers@,
                assigned@,
            ) + b));
        }
        i += 1;
    }
    assert(keys.take(keys.len() as int) =~= keys);
    join_texts(&list, "\n")
}

/// The listen port of a new tunnel: the one that is set by hand, else the default.
pub fn tunnel_port(env: &Option<String>) -> (r: u16)
    ensures
        r == match port_number(env.deep_view()) {
            Some(p) => p,
            None => DEFAULT_LISTEN_PORT as nat,
        },
{
    if let Some(text) = env {
        if let Some(p) = crate::number::read_u16(text.as_str()) {
            return p;
        }
    }
    DEFAULT_LISTEN_PORT
}

// ---------- The steps ----------

/// How often a new interface is looked for before it is given up.
pub const INSTALL_CHECKS: u32 = 30;

/// Where an installation stands.
#[derive(Clone, Copy)]
pub enum InstallStage {
    /// Waiting for the configuration to be written.
    Writing,
    /// Waiting for a former tunnel service to be uninstalled.
    Uninstalling,
    /// Waiting for its service to be stopped.
    Stopping,
    /// Waiting for its service to be deleted.
    Deleting,
    /// Waiting for things to settle.
    Settling,
    /// Waiting for the tunnel service to be installed.
    Installing,
    /// Waiting for this node's addresses to be saved.
    Saving,
    /// Waiting for the interface to answer; so many questions went unanswered.
    Checking { n: u32 },
    /// Waiting before the next question.
    Waiting { n: u32 },
    /// The interface is there.
    Ready,
    /// The tunnel could not be installed.
    Failed,
}

/// What an installation needs done next.
pub enum InstallRequest {
    /// Write the configuration file.
    WriteConfig { text: String },
    /// Run a command.
    Run(Invocation),
    /// Wait for so many seconds.
    Pause { secs: u64 },
    /// Keep this node's addresses for the next start.
    SaveSelfIps { ipv4: String, ipv6: String },
    /// Nothing: the interface is there, or the installation failed.
    Over { ready: bool },
}

/// The contents of an [`InstallRequest`].
pub enum InstallAsk {
    WriteConfig { text: Text },
    Run(Call),
    Pause { secs: u64 },
    SaveSelfIps { ipv4: Text, ipv6: Text },
    Over { ready: bool },
}

impl DeepView for InstallRequest {
    type V = InstallAsk;

    open spec fn deep_view(&self) -> InstallAsk {
        match *self {
            InstallRequest::WriteConfig { text } => InstallAsk::WriteConfig { text: text@ },
            InstallRequest::Run(c) => InstallAsk::Run(c.deep_view()),
            InstallRequest::Pause { secs } => InstallAsk::Pause { secs },
            InstallRequest::SaveSelfIps { ipv4, ipv6 } => InstallAsk::SaveSelfIps {
                ipv4: ipv4@,
                ipv6: ipv6@,
            },
            InstallRequest::Over { ready } => InstallAsk::Over { ready },
        }
    }
}

/// What an installation is about: the command line tool, the interface, the place and contents of
/// the configuration, and this node's addresses.
pub struct Installation {
    pub tool: String,
    pub interface: String,
    pub config_path: String,
    pub config: String,
    pub ipv4: String,
    pub ipv6: String,
    pub stage: InstallStage,
}

/// The service of a tunnel.
pub open spec fn service_name(interface: Text) -> Text {
    "WireGuardTunnel$"@ + interface
}

/// What an installation needs done next.
pub open spec fn install_ask(i: Installation) -> InstallAsk {
    match i.stage {
        InstallStage::Writing => InstallAsk::WriteConfig { text: i.config@ },
        InstallStage::Uninstalling => InstallAsk::Run(
            Call { program: "wireguard"@, args: seq!["/uninstalltunnelservice"@, i.interface@] },
        ),
        InstallStage::Stopping => InstallAsk::Run(
            Call { program: "sc"@, args: seq!["stop"@, service_name(i.interface@)] },
        ),
        InstallStage::Deleting => InstallAsk::Run(
            Call { program: "sc"@, args: seq!["delete"@, service_name(i.interface@)] },
        ),
        InstallStage::Settling => InstallAsk::Pause { secs: 2 },
        InstallStage::Installing => InstallAsk::Run(
            Call { program: "wireguard"@, args: seq!["/installtunnelservice"@, i.config_path@] },
        ),
        InstallStage::Saving => InstallAsk::SaveSelfIps { ipv4: i.ipv4@, ipv6: i.ipv6@ },
        InstallStage::Checking { .. } => InstallAsk::Run(
            Call { program: i.tool@, args: seq!["show"@, i.interface@] },
        ),
        InstallStage::Waiting { .. } => InstallAsk::Pause { secs: 1 },
        InstallStage::Ready => InstallAsk::Over { ready: true },
        InstallStage::Failed => InstallAsk::Over { ready: false },
    }
}

/// Where an installation goes when what it needed was done, `ok` telling whether it succeeded.
/// Whether a former service could be taken away does not matter.
pub open spec fn install_step(stage: InstallStage, ok: bool) -> InstallStage {
    match stage {
        InstallStage::Writing => if ok {
            InstallStage::Uninstalling
        } else {
            InstallStage::Failed
        },
        InstallStage::Uninstalling => InstallStage::Stopping,
        InstallStage::Stopping => InstallStage::Deleting,
        InstallStage::Deleting => InstallStage::Settling,
        InstallStage::Settling => InstallStage::Installing,
        InstallStage::Installing => if ok {
            InstallStage::Saving
        } else {
            InstallStage::Failed
        },
        InstallStage::Saving => InstallStage::Checking { n: 0 },
        InstallStage::Checking { n } => if ok {
            InstallStage::Ready
        } else {
            InstallStage::Waiting { n }
        },
        InstallStage::Waiting { n } => if n + 1 < INSTALL_CHECKS {
            InstallStage::Checking { n: (n + 1) as u32 }
        } else {
            InstallStage::Failed
        },
        InstallStage::Ready => InstallStage::Ready,
        InstallStage::Failed => InstallStage::Failed,
    }
}

fn run2(program: &str, first: &str, second: &str) -> (r: InstallRequest)
    ensures
        r.deep_view() == InstallAsk::Run(Call { program: program@, args: seq![first@, second@] }),
{
    let args = vec![owned(first), owned(second)];
    assert(args.deep_view() =~= seq![first@, second@]);
    InstallRequest::Run(Invocation { program: owned(program), args })
}

impl Installation {
    /// Starts installing a tunnel with this node's addresses and the peers of the snapshot. The
    /// private key is what the key file holds, without the white space around it.
    pub fn install_with_config(
        tool: &str,
        interface: &str,
        config_path: &str,
        key_file: &str,
        listen_port: &Option<String>,
        self_ipv4: &str,
        self_ipv6: &str,
        all_peers: &PeerMap,
        assigned: &StrMap<String>,
    ) -> (r: Self)
        requires
            all_peers.wf(),
            assigned.wf(),
        ensures
            r.tool@ == tool@,
            r.interface@ == interface@,
            r.config_path@ == config_path@,
            r.config@ == config_text(
                trim(key_file@),
                (match port_number(listen_port.deep_view()) {
                    Some(p) => p,
                    None => DEFAULT_LISTEN_PORT as nat,
                }) as u16,
                self_ipv4@,
                self_ipv6@,
                all_peers.keys(),
                all_peers@,
                assigned@,
            ),
            r.ipv4@ == self_ipv4@,
            r.ipv6@ == self_ipv6@,
            r.stage is Writing,
    {
        let port = tunnel_port(listen_port);
        let private_key = trimmed(key_file);
        Installation {
            tool: owned(tool),
            interface: owned(interface),
            config_path: owned(config_path),
            config: tunnel_config(
                private_key.as_str(),
                port,
                self_ipv4,
                self_ipv6,
                all_peers,
                assigned,
            ),
            ipv4: owned(self_ipv4),
            ipv6: owned(self_ipv6),
            stage: InstallStage::Writing,
        }
    }

    /// What the installation needs done next.
    pub fn request(&self) -> (r: InstallRequest)
        ensures
            r.deep_view() == install_ask(*self),
    {
        match self.stage {
            InstallStage::Writing => InstallRequest::WriteConfig { text: self.config.clone() },
            InstallStage::Uninstalling => run2(
                "wireguard",
                "/uninstalltunnelservice",
                self.interface.as_str(),
            ),
            InstallStage::Stopping => run2(
                "sc",
                "stop",
                owned("WireGuardTunnel$").concat(self.interface.as_str()).as_str(),
            ),
            InstallStage::Deleting => run2(
                "sc",
                "delete",
                owned("WireGuardTunnel$").concat(self.interface.as_str()).as_str(),
            ),
            InstallStage::Settling => InstallRequest::Pause { secs: 2 },
            InstallStage::Installing => run2(
                "wireguard",
                "/installtunnelservice",
                self.config_path.as_str(),
            ),
            InstallStage::Saving => InstallRequest::SaveSelfIps {
                ipv4: self.ipv4.clone(),
                ipv6: self.ipv6.clone(),
            },
            InstallStage::Checking { .. } => InstallRequest::Run(
                show_interface(self.tool.as_str(), self.interface.as_str()),
            ),
            InstallStage::Waiting { .. } => InstallRequest::Pause { secs: 1 },
            InstallStage::Ready => InstallRequest::Over { ready: true },
            InstallStage::Failed => InstallRequest::Over { ready: false },
        }
    }

    /// Takes whether what was needed could be done, and says what is needed next.
    pub fn step(&mut self, ok: bool) -> (r: InstallRequest)
        ensures
            *final(self) == (Installation {
                stage: install_step(old(self).stage, ok),
                ..*old(self)
            }),
            r.deep_view() == install_ask(*final(self)),
    {
        self.stage = match self.stage {
            InstallStage::Writing => if ok {
                InstallStage::Uninstalling
            } else {
                InstallStage::Failed
            },
            InstallStage::Uninstalling => InstallStage::Stopping,
            InstallStage::Stopping => InstallStage::Deleting,
            InstallStage::Deleting => InstallStage::Settling,
            InstallStage::Settling => InstallStage::Installing,
            InstallStage::Installing => if ok {
                InstallStage::Saving
            } else {
                InstallStage::Failed
            },
            InstallStage::Saving => InstallStage::Checking { n: 0 },
            InstallStage::Checking { n } => if ok {
                InstallStage::Ready
            } else {
                InstallStage::Waiting { n }
            },
            InstallStage::Waiting { n } => if n < INSTALL_CHECKS - 1 {
                InstallStage::Checking { n: n + 1 }
            } else {
                InstallStage::Failed
            },
            InstallStage::Ready => InstallStage::Ready,
            InstallStage::Failed => InstallStage::Failed,
        };
        self.request()
    }
}

// ---------- Laws ----------

/// Where an installation stands after the given outcomes.
pub open spec fn install_run(outcomes: Seq<bool>) -> InstallStage
    decreases outcomes.len(),
{
    if outcomes.len() == 0 {
        InstallStage::Writing
    } else {
        install_step(install_run(outcomes.drop_last()), outcomes.last())
    }
}

/// An installation that is ready had its configuration written, its tunnel service installed and
/// its interface answer: these outcomes are among those it was told.
pub proof fn law_ready_interface_answered(outcomes: Seq<bool>)
    requires
        install_run(outcomes) is Ready,
    ensures
        outcomes.len() >= 8,
        outcomes[0],
        outcomes[5],
        exists|i: int| 7 <= i < outcomes.len() && #[trigger] outcomes[i],
{
    lemma_install_place(outcomes);
}

proof fn lemma_install_place(outcomes: Seq<bool>)
    ensures
        match install_run(outcomes) {
            InstallStage::Writing => outcomes.len() == 0,
            InstallStage::Uninstalling => outcomes.len() == 1 && outcomes[0],
            InstallStage::Stopping => outcomes.len() == 2 && outcomes[0],
            InstallStage::Deleting => outcomes.len() == 3 && outcomes[0],
            InstallStage::Settling => outcomes.len() == 4 && outcomes[0],
            InstallStage::Installing => outcomes.len() == 5 && outcomes[0],
            InstallStage::Saving => outcomes.len() == 6 && outcomes[0] && outcomes[5],
            InstallStage::Checking { n } => outcomes.len() == 7 + 2 * n && n < INSTALL_CHECKS
                && outcomes[0] && outcomes[5],
            InstallStage::Waiting { n } => outcomes.len() == 8 + 2 * n && n < INSTALL_CHECKS
                && outcomes[0] && outcomes[5],
            InstallStage::Ready => outcomes.len() >= 8 && outcomes[0] && outcomes[5] && (exists|
                i: int,
            |
                7 <= i < outcomes.len() && #[trigger] outcomes[i]),
            InstallStage::Failed => outcomes.len() >= 1,
        },
    decreases outcomes.len(),
{
    if outcomes.len() > 0 {
        let front = outcomes.drop_last();
        lemma_install_place(front);
        if install_run(front) is Ready {
            let i = choose|i: int| 7 <= i < front.len() && #[trigger] front[i];
            assert(outcomes[i]);
        }
        assert(outcomes[outcomes.len() - 1] == outcomes.last());
    }
}

/// An installation is over after a bounded number of steps, whatever their outcome.
pub proof fn law_installation_ends(outcomes: Seq<bool>)
    requires
        outcomes.len() >= 7 + 2 * INSTALL_CHECKS,
    ensures
        install_run(outcomes) is Ready || install_run(outcomes) is Failed,
{
    lemma_install_place(outcomes);
}

} // verus!
