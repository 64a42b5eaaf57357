use wg_subscriber::commands::AmneziaConfig;
use wg_subscriber::model::{
    AdvertisedRoutes, Answer, NodeStatus, PeerInfo, PeerMap, PskField, RegistrationState, Request,
};
use wg_subscriber::relay::RelayTables;
use wg_subscriber::snapshot::{handle_full_snapshot, FullSnapshot, SnapshotSettings};
use wg_subscriber::strmap::StrMap;

fn list(items: &[&str]) -> Vec<String> {
    items.iter().map(|s| s.to_string()).collect()
}

fn peer(ips: Option<&[&str]>, psk: Option<&str>, lan: &[&str]) -> PeerInfo {
    PeerInfo {
        endpoint: Some("1.1.1.1:1".to_string()),
        allowed_ips: ips.map(list),
        persistent_keepalive: Some(25),
        preshared_key: match psk {
            Some(k) => PskField::Key(k.to_string()),
            None => PskField::Missing,
        },
        local_ips: if lan.is_empty() { None } else { Some(list(lan)) },
    }
}

fn snapshot(items: Vec<(&str, PeerInfo)>, amnezia: bool) -> FullSnapshot {
    let mut peers: PeerMap = StrMap::new();
    for (k, p) in items {
        peers.insert(k.to_string(), p);
    }
    FullSnapshot {
        peers,
        routes: AdvertisedRoutes { ipv4: Vec::new(), ipv6: Vec::new() },
        amnezia: if amnezia {
            Some(AmneziaConfig {
                jc: 0, jmin: 0, jmax: 0, s1: 0, s2: 0, h1: 0, h2: 0, h3: 0, h4: 0,
                i1: None, i2: None, i3: None, i4: None, i5: None,
            })
        } else {
            None
        },
    }
}

fn me() -> PeerInfo {
    peer(Some(&["10.0.0.1/32", "fd00::1/128"]), None, &[])
}

fn settings(awg: bool, lan: bool) -> SnapshotSettings {
    SnapshotSettings {
        awg,
        lan,
        relay_v4: "10.254.1.0/24".to_string(),
        relay_v6: "fd00:1:1::/64".to_string(),
    }
}

fn show(r: &Request) -> String {
    match r {
        Request::Done => "done".to_string(),
        Request::Recent { pubkey, .. } => format!("recent {}", pubkey),
        Request::Peers => "peers".to_string(),
        Request::PeersWithPsk => "keys".to_string(),
        Request::Endpoint { pubkey } => format!("endpoint {}", pubkey),
        Request::AllowedIps { pubkey } => format!("ips {}", pubkey),
        Request::LanActive { pubkey, endpoint } => format!("lan {} {}", pubkey, endpoint),
        Request::RemovePeer { pubkey } => format!("remove {}", pubkey),
        Request::UpdatePeer(u) => format!(
            "update {} {} {} {}",
            u.pubkey,
            u.endpoint.clone().unwrap_or("-".to_string()),
            u.allowed_ips.clone().map(|l| l.join(",")).unwrap_or("-".to_string()),
            match &u.preshared_key {
                None => "keep".to_string(),
                Some(k) if k.is_empty() => "clear".to_string(),
                Some(k) => format!("psk={}", k),
            }
        ),
        Request::SwitchToLan { pubkey, endpoints } => format!("switch {} {}", pubkey, endpoints.join(",")),
        Request::ConfigureSelfIp { ipv4, ipv6 } => format!("address {} {}", ipv4, ipv6),
        Request::ApplyAmnezia => "amnezia".to_string(),
        Request::Install { ipv4, ipv6 } => format!("install {} {}", ipv4, ipv6),
        Request::ApplyRoutes => "routes".to_string(),
        _ => "other".to_string(),
    }
}

struct World {
    tables: RelayTables,
    status: NodeStatus,
    known: PeerMap,
    flags: Vec<(&'static str, bool)>,
    keys: Option<Vec<String>>,
    listed: Option<Vec<String>>,
    ips: Vec<String>,
    endpoint: Option<String>,
}

fn world(configured: bool) -> World {
    World {
        tables: RelayTables::new(),
        status: NodeStatus { registration: RegistrationState::NotRegistered, configured },
        known: StrMap::new(),
        flags: Vec::new(),
        keys: Some(Vec::new()),
        listed: Some(Vec::new()),
        ips: Vec::new(),
        endpoint: None,
    }
}

/// Works through a snapshot and returns what was asked, and whether it was worked through.
fn drive(w: &mut World, s: FullSnapshot, settings: &SnapshotSettings) -> (Vec<String>, bool) {
    let mut run = handle_full_snapshot("ME", s, settings, &mut w.tables, &mut w.status);
    let mut asked = Vec::new();
    let mut r = run.request();
    loop {
        let text = show(&r);
        asked.push(text.clone());
        let answer = match r {
            Request::Done => break,
            Request::PeersWithPsk => Answer::List(w.keys.clone()),
            Request::Peers => Answer::List(w.listed.clone()),
            Request::AllowedIps { .. } => Answer::List(Some(w.ips.clone())),
            Request::Endpoint { .. } => Answer::Text(w.endpoint.clone()),
            _ => Answer::Flag(w.flags.iter().find(|(k, _)| text.starts_with(k)).map(|x| x.1).unwrap_or(true)),
        };
        r = run.step(&mut w.tables, &mut w.status, answer);
    }
    assert!(run.snapshot().peers.contains("ME") || asked.len() == 1);
    let ok = run.finish(&mut w.known);
    (asked, ok)
}

#[test]
fn incomplete_snapshot_is_only_remembered() {
    let mut w = world(true);
    let (asked, ok) = drive(&mut w, snapshot(vec![("A", me()), ("B", me())], false), &settings(false, false));
    assert_eq!(asked, list(&["done"]));
    assert!(ok);
    assert_eq!(w.known.key_list(), list(&["A", "B"]));
    assert_eq!(w.status.registration, RegistrationState::NotRegistered);
    let (asked, _) = drive(&mut w, snapshot(vec![("ME", me())], false), &settings(false, false));
    assert_eq!(asked, list(&["done"]));
}

#[test]
fn first_snapshot_installs_the_tunnel() {
    let mut w = world(false);
    let s = snapshot(
        vec![("ME", me()), ("R", peer(Some(&["10.254.1.0/24"]), None, &[])), ("A", me())],
        true,
    );
    let (asked, ok) = drive(&mut w, s, &settings(true, false));
    assert!(ok);
    assert_eq!(
        asked,
        list(&[
            "recent R", "address 10.0.0.1/32 fd00::1/128", "amnezia",
            "install 10.0.0.1/32 fd00::1/128", "routes", "done",
        ])
    );
    assert_eq!(w.status, NodeStatus { registration: RegistrationState::Registered, configured: true });
    assert_eq!(w.tables.pool, list(&["R"]));
    assert_eq!(w.known.len(), 3);
}

#[test]
fn failed_installation_is_not_remembered() {
    let mut w = world(false);
    w.flags = vec![("install", false)];
    let (asked, ok) = drive(&mut w, snapshot(vec![("ME", me()), ("A", me())], true), &settings(false, false));
    assert!(!ok);
    assert!(!asked.contains(&"amnezia".to_string()));
    assert!(!asked.contains(&"routes".to_string()));
    assert!(!w.status.configured);
    assert_eq!(w.status.registration, RegistrationState::Registered);
    assert!(w.known.is_empty());
}

#[test]
fn node_without_addresses_is_not_installed() {
    let mut w = world(false);
    let s = snapshot(vec![("ME", peer(None, None, &[])), ("A", me())], false);
    let (asked, ok) = drive(&mut w, s, &settings(false, false));
    assert_eq!(asked, list(&["done"]));
    assert!(ok);
    assert!(!w.status.configured);
}

#[test]
fn later_snapshot_updates_and_prunes() {
    let mut w = world(true);
    w.tables.assigned.insert("RELAYED".to_string(), "R".to_string());
    w.tables.assigned.insert("GONE".to_string(), "R".to_string());
    w.tables.load.insert("R".to_string(), 2);
    w.listed = Some(list(&["ME", "A", "GONE", "STRAY"]));
    let s = snapshot(
        vec![
            ("ME", me()),
            ("A", peer(Some(&["10.0.0.2/32"]), Some("k"), &["192.168.1.9:1"])),
            ("RELAYED", peer(Some(&["10.0.0.3/32"]), None, &[])),
        ],
        true,
    );
    let (asked, ok) = drive(&mut w, s, &settings(false, false));
    assert!(ok);
    assert_eq!(
        asked,
        list(&[
            "address 10.0.0.1/32 fd00::1/128", "keys", "update A 1.1.1.1:1 10.0.0.2/32 psk=k",
            "switch A 192.168.1.9:1", "peers", "remove GONE", "remove STRAY", "routes", "done",
        ])
    );
    assert!(!w.tables.assigned.contains("GONE"));
    assert!(w.tables.assigned.contains("RELAYED"));
    assert_eq!(w.tables.load.get("R"), Some(&1));
}

#[test]
fn empty_addresses_are_filled_from_the_interface() {
    let mut w = world(true);
    w.ips = list(&["10.7.0.0/16"]);
    let s = || snapshot(vec![("ME", me()), ("A", peer(Some(&[]), None, &[])), ("B", peer(None, None, &["x"]))], false);
    let (asked, _) = drive(&mut w, s(), &settings(false, false));
    assert_eq!(
        asked[2..7].to_vec(),
        list(&[
            "ips A", "update A 1.1.1.1:1 10.7.0.0/16 keep", "ips B",
            "update B 1.1.1.1:1 10.7.0.0/16 keep", "switch B x",
        ])
    );
    w.ips = Vec::new();
    let (asked, _) = drive(&mut w, s(), &settings(false, false));
    assert_eq!(asked[2..5].to_vec(), list(&["ips A", "ips B", "peers"]));
}

#[test]
fn preshared_keys_are_cleared_where_there_are_any() {
    let s = |null: bool| {
        let mut a = peer(Some(&["10.0.0.2/32"]), Some(""), &[]);
        if null {
            a.preshared_key = PskField::Null;
        }
        snapshot(vec![("ME", me()), ("A", a)], false)
    };
    let clears = |keys: Option<Vec<String>>, null: bool| {
        let mut w = world(true);
        w.keys = keys;
        let (asked, _) = drive(&mut w, s(null), &settings(false, true));
        assert!(!asked.contains(&"endpoint A".to_string()));
        asked.contains(&"update A 1.1.1.1:1 10.0.0.2/32 clear".to_string())
    };
    for null in [false, true] {
        assert!(clears(Some(list(&["A"])), null));
        assert!(!clears(Some(list(&["B"])), null));
        assert!(clears(Some(Vec::new()), null));
        assert!(clears(None, null));
    }
}

#[test]
fn endpoint_in_use_over_the_local_network_is_kept() {
    let s = || snapshot(vec![("ME", me()), ("A", peer(Some(&["10.0.0.2/32"]), None, &[]))], false);
    let mut w = world(true);
    w.endpoint = Some("192.168.1.9:1".to_string());
    let (asked, _) = drive(&mut w, s(), &settings(false, true));
    assert_eq!(
        asked[2..5].to_vec(),
        list(&["endpoint A", "lan A 192.168.1.9:1", "update A 192.168.1.9:1 10.0.0.2/32 keep"])
    );
    w.flags = vec![("lan", false)];
    let (asked, _) = drive(&mut w, s(), &settings(false, true));
    assert_eq!(asked[4], "update A 1.1.1.1:1 10.0.0.2/32 keep");
    w.endpoint = None;
    let (asked, _) = drive(&mut w, s(), &settings(false, true));
    assert_eq!(asked[3], "update A 1.1.1.1:1 10.0.0.2/32 keep");
}

#[test]
fn unlisted_interface_is_not_pruned() {
    let mut w = world(true);
    w.listed = None;
    let (asked, ok) = drive(&mut w, snapshot(vec![("ME", me()), ("A", me())], false), &settings(false, false));
    assert!(ok);
    assert_eq!(asked[asked.len() - 3..].to_vec(), list(&["peers", "routes", "done"]));
}
