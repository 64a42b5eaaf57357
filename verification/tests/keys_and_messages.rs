use wg_subscriber::delta::{
    delta_from_members, handle_delta_message, read_delta, DeltaError, DeltaMembers, DeltaMessage,
    Member,
};
use wg_subscriber::digest::{
    client_id, contents_or_payload, digest_of, hex_of, is_repeated, receive_snapshot,
};
use wg_subscriber::keys::{load_or_generate_keys, KeyError, WireGuardKeys};
use wg_subscriber::model::{AdvertisedRoutes, Answer, NodeStatus, RegistrationState, Request};
use wg_subscriber::relay::RelayTables;
use wg_subscriber::route_sync::{apply_advertised_routes, RouteAnswer, RouteRequest};

fn list(items: &[&str]) -> Vec<String> {
    items.iter().map(|s| s.to_string()).collect()
}

#[test]
fn public_key_of_a_known_private_key() {
    let k = WireGuardKeys::from_private_key("dwdtCnMYpX08FsFyUbJmRd9ML4frwJkqsXf7pR25LCo=").ok().unwrap();
    assert_eq!(k.private_key, "dwdtCnMYpX08FsFyUbJmRd9ML4frwJkqsXf7pR25LCo=");
    assert_eq!(k.public_key, "hSDwCYkwp1R0i33ctD73Wg2/Og0mOBr066SpjqqbTmo=");
}

#[test]
fn random_bytes_are_clamped() {
    let mut bytes = [0u8; 32];
    for i in 0..32 {
        bytes[i] = i as u8;
    }
    let k = WireGuardKeys::from_random_bytes(bytes);
    assert_eq!(k.private_key, "AAECAwQFBgcICQoLDA0ODxAREhMUFRYXGBkaGxwdHl8=");
    assert_eq!(k.public_key, "j0DFrbaPJWJK5bIU6nZ6bslNgp09e14a0bpvPiE4KF8=");
    let k = WireGuardKeys::from_random_bytes([255; 32]);
    assert_eq!(k.private_key, "+P///////////////////////////////////////38=");
    assert_eq!(k.public_key, "hHwNLDdSNPNl5mCVUYejc1oPdhPRYJ06ak2MU66qWiI=");
}

#[test]
fn generated_keys_survive_a_restart() {
    let a = WireGuardKeys::generate();
    let b = WireGuardKeys::from_key_file(&format!("  {}\r\n", a.private_key)).ok().unwrap();
    assert_eq!(a.private_key, b.private_key);
    assert_eq!(a.public_key, b.public_key);
    assert_ne!(WireGuardKeys::generate().private_key, a.private_key);
}

#[test]
fn key_file_gives_the_pair_back() {
    let (made, write) = load_or_generate_keys(&None);
    let made = made.ok().unwrap();
    assert!(write);
    assert_eq!(made.private_key.len(), 44);
    let (read, write) = load_or_generate_keys(&Some(made.private_key.clone()));
    let read = read.ok().unwrap();
    assert!(!write);
    assert_eq!(read.private_key, made.private_key);
    assert_eq!(read.public_key, made.public_key);
    let (bad, write) = load_or_generate_keys(&Some("?".to_string()));
    assert!(matches!(bad, Err(KeyError::NotBase64)));
    assert!(!write);
}

#[test]
fn bad_private_keys_are_refused() {
    assert!(matches!(WireGuardKeys::from_private_key("no base64!"), Err(KeyError::NotBase64)));
    assert!(matches!(
        WireGuardKeys::from_private_key("AAAAAAAAAAAAAAAAAAAAAAAAAAAAAAAAAAAAAAAAAA=="),
        Err(KeyError::WrongLength)
    ));
    assert!(matches!(WireGuardKeys::from_private_key(""), Err(KeyError::WrongLength)));
    assert!(matches!(WireGuardKeys::from_decoded_key("x", None), Err(KeyError::NotBase64)));
    assert!(matches!(WireGuardKeys::from_decoded_key("x", Some(vec![0; 33])), Err(KeyError::WrongLength)));
}

#[test]
fn digests_and_names() {
    assert_eq!(hex_of(&vec![0x00, 0x9f, 0xf0]), "009ff0");
    assert_eq!(
        digest_of(b""),
        "af1349b9f5f9a1a6a0404dea36dcc9499bcb25c9adc112b7cc9a93cae41f3262"
    );
    let hex = blake3::hash(b"KEY=").to_hex().to_string();
    assert_eq!(digest_of(b"KEY="), hex);
    assert_eq!(client_id("KEY="), format!("wg-{}", &hex[..20]));
}

#[test]
fn repeated_message_is_read_once() {
    let packed = zstd::encode_all(&b"{\"peers\":{}}"[..], 3).unwrap();
    let mut last = None;
    assert_eq!(receive_snapshot(&mut last, &packed), Some(b"{\"peers\":{}}".to_vec()));
    assert_eq!(receive_snapshot(&mut last, &packed), None);
    assert_eq!(receive_snapshot(&mut last, b"plain"), Some(b"plain".to_vec()));
    assert_eq!(receive_snapshot(&mut last, &packed), Some(b"{\"peers\":{}}".to_vec()));
    assert_eq!(last, Some(digest_of(&packed)));
    assert!(is_repeated(&last, &digest_of(&packed)));
    assert_eq!(contents_or_payload(None, b"raw"), b"raw".to_vec());
    assert_eq!(contents_or_payload(Some(b"x".to_vec()), b"raw"), b"x".to_vec());
}

#[test]
fn change_is_read() {
    let json = br#"{"action":"add","pubkey":"K","endpoint":"1.2.3.4:5","allowed_ips":["10.0.0.2/32",7,"10.0.0.3/32"],
        "persistent_keepalive":25,"preshared_key":null,"local_ips":[]}"#;
    let m = read_delta(json).ok().unwrap();
    assert_eq!(m.action, "add");
    assert_eq!(m.update.pubkey, "K");
    assert_eq!(m.update.endpoint, Some("1.2.3.4:5".to_string()));
    assert_eq!(m.update.allowed_ips, Some(list(&["10.0.0.2/32", "10.0.0.3/32"])));
    assert_eq!(m.update.persistent_keepalive, Some(25));
    assert_eq!(m.update.preshared_key, None);
    assert_eq!(m.local_ips, Some(Vec::new()));
    let m = read_delta(br#"{"action":"update","pubkey":"K","persistent_keepalive":-1,"allowed_ips":"x"}"#).ok().unwrap();
    assert_eq!(m.update.persistent_keepalive, None);
    assert_eq!(m.update.allowed_ips, None);
    assert_eq!(m.local_ips, None);
}

#[test]
fn unreadable_changes_are_refused() {
    assert!(matches!(read_delta(b"not json"), Err(DeltaError::NotJson)));
    assert!(matches!(read_delta(b"[1]"), Err(DeltaError::MissingAction)));
    assert!(matches!(read_delta(br#"{"action":5,"pubkey":"K"}"#), Err(DeltaError::MissingAction)));
    assert!(matches!(read_delta(br#"{"action":"add"}"#), Err(DeltaError::MissingPubkey)));
    let m = DeltaMembers {
        action: Member::Text("add".to_string()),
        pubkey: Member::Text("K".to_string()),
        endpoint: Member::Other,
        allowed_ips: Member::List(vec![None, Some("a".to_string())]),
        persistent_keepalive: Member::Number(9),
        preshared_key: Member::Text("p".to_string()),
        local_ips: Member::Absent,
        routes_ipv4: Member::Absent,
        routes_ipv6: Member::Absent,
    };
    let m = delta_from_members(m).ok().unwrap();
    assert_eq!(m.update.allowed_ips, Some(list(&["a"])));
    assert_eq!(m.update.persistent_keepalive, Some(9));
    assert_eq!(m.update.preshared_key, Some("p".to_string()));
}

fn status(configured: bool) -> NodeStatus {
    NodeStatus { registration: RegistrationState::Registered, configured }
}

fn message(json: &str) -> DeltaMessage {
    read_delta(json.as_bytes()).ok().unwrap()
}

const ADD: &str = r#"{"action":"add","pubkey":"K","endpoint":"1.2.3.4:5","local_ips":["192.168.1.9:1"]}"#;

const SET_ROUTES: &str =
    r#"{"action":"set_routes","routes":{"ipv4":["10.9.0.0/16",5,"10.9.0.0/16"],"ipv6":[]}}"#;

#[test]
fn routes_are_set() {
    let m = message(SET_ROUTES);
    assert_eq!(m.routes.ipv4, list(&["10.9.0.0/16", "10.9.0.0/16"]));
    assert_eq!(m.update.pubkey, "");
    let mut run = handle_delta_message(m, "ME", &status(true), true);
    assert!(matches!(run.request(), Request::ApplyRoutes));
    let mut last = AdvertisedRoutes { ipv4: list(&["10.8.0.0/24"]), ipv6: Vec::new() };
    let mut sync = apply_advertised_routes(run.routes(), &last).unwrap();
    let mut calls = Vec::new();
    let mut request = sync.request();
    loop {
        let answer = match request {
            RouteRequest::Run(c) => {
                calls.push(c.args.join(" "));
                RouteAnswer::Done
            }
            RouteRequest::Table(_) => RouteAnswer::Table(None),
            RouteRequest::Index => RouteAnswer::Index(Some(7)),
            RouteRequest::Pause { .. } => RouteAnswer::Done,
            RouteRequest::Over { applied } => {
                assert!(applied);
                break;
            }
        };
        request = sync.step(&mut last, &answer);
    }
    assert_eq!(
        calls,
        list(&["/c route delete 10.8.0.0/24", "/c route -p add 10.9.0.0/16 0.0.0.0 if 7"])
    );
    assert_eq!(last.ipv4, list(&["10.9.0.0/16"]));
    let mut t = RelayTables::new();
    assert!(matches!(run.step(&mut t, Answer::Flag(true)), Request::Done));
    assert!(!run.failed());
}

#[test]
fn routes_are_set_for_this_node_too() {
    let json = r#"{"action":"set_routes","pubkey":"ME","routes":{"ipv4":[],"ipv6":["fd00:9::/64"]}}"#;
    let run = handle_delta_message(message(json), "ME", &status(true), false);
    assert!(matches!(run.request(), Request::ApplyRoutes));
    assert_eq!(run.routes().ipv6, list(&["fd00:9::/64"]));
}

#[test]
fn routes_need_both_lists() {
    for json in [
        r#"{"action":"set_routes"}"#,
        r#"{"action":"set_routes","pubkey":"K","routes":{"ipv4":[]}}"#,
        r#"{"action":"set_routes","routes":["ipv4","ipv6"]}"#,
        r#"{"action":"set_routes","routes":{"ipv4":[],"ipv6":"x"}}"#,
    ] {
        assert!(matches!(read_delta(json.as_bytes()), Err(DeltaError::MissingRoutes)));
    }
}

#[test]
fn changes_that_do_not_concern_this_node() {
    let done = |json: &str, local: &str, configured: bool| {
        matches!(handle_delta_message(message(json), local, &status(configured), true).request(), Request::Done)
    };
    assert!(done(ADD, "K", true));
    assert!(done(ADD, "ME", false));
    assert!(done(r#"{"action":"rename","pubkey":"K"}"#, "ME", true));
    assert!(done(SET_ROUTES, "ME", false));
    assert!(!done(ADD, "ME", true));
}

#[test]
fn change_of_endpoint() {
    let mut t = RelayTables::new();
    let mut run = handle_delta_message(message(ADD), "ME", &status(true), false);
    match run.request() {
        Request::UpdatePeer(u) => assert_eq!(u.endpoint, Some("1.2.3.4:5".to_string())),
        _ => panic!("no update"),
    }
    match run.step(&mut t, Answer::Flag(true)) {
        Request::SetEndpoint { pubkey, endpoint } => {
            assert_eq!(pubkey, "K");
            assert_eq!(endpoint, "1.2.3.4:5");
        }
        _ => panic!("endpoint not set"),
    }
    match run.step(&mut t, Answer::Flag(false)) {
        Request::SwitchToLan { pubkey, endpoints } => {
            assert_eq!(pubkey, "K");
            assert_eq!(endpoints, list(&["192.168.1.9:1"]));
        }
        _ => panic!("not tried over the local network"),
    }
    assert!(matches!(run.step(&mut t, Answer::Flag(true)), Request::Done));
    assert!(!run.failed());
    let mut run = handle_delta_message(message(ADD), "ME", &status(true), false);
    assert!(matches!(run.step(&mut t, Answer::Flag(false)), Request::Done));
    assert!(run.failed());
}

#[test]
fn change_keeps_an_endpoint_in_the_local_network() {
    let mut t = RelayTables::new();
    let mut run = handle_delta_message(message(ADD), "ME", &status(true), true);
    assert!(matches!(run.request(), Request::Endpoint { pubkey } if pubkey == "K"));
    let r = run.step(&mut t, Answer::Text(Some("192.168.1.9:1".to_string())));
    assert!(matches!(r, Request::LanActive { pubkey, endpoint } if pubkey == "K" && endpoint == "192.168.1.9:1"));
    match run.step(&mut t, Answer::Flag(true)) {
        Request::UpdatePeer(u) => assert_eq!(u.endpoint, Some("192.168.1.9:1".to_string())),
        _ => panic!("no update"),
    }
    assert!(matches!(run.step(&mut t, Answer::Flag(false)), Request::SwitchToLan { .. }));
    assert!(!run.failed());
    let mut run = handle_delta_message(message(ADD), "ME", &status(true), true);
    run.step(&mut t, Answer::Text(Some("192.168.1.9:1".to_string())));
    match run.step(&mut t, Answer::Flag(false)) {
        Request::UpdatePeer(u) => assert_eq!(u.endpoint, Some("1.2.3.4:5".to_string())),
        _ => panic!("no update"),
    }
}

#[test]
fn removed_peer_leaves_its_relay() {
    let mut t = RelayTables::new();
    t.assigned.insert("K".to_string(), "R".to_string());
    t.load.insert("R".to_string(), 2);
    t.fails.insert("K".to_string(), 4);
    let gone = r#"{"action":"remove","pubkey":"K"}"#;
    let mut run = handle_delta_message(message(gone), "ME", &status(true), true);
    assert!(matches!(run.request(), Request::RemovePeer { pubkey } if pubkey == "K"));
    run.step(&mut t, Answer::Flag(false));
    assert!(run.failed());
    assert!(t.assigned.contains("K"));
    let mut run = handle_delta_message(message(gone), "ME", &status(true), true);
    assert!(matches!(run.step(&mut t, Answer::Flag(true)), Request::Done));
    assert!(!run.failed());
    assert!(!t.assigned.contains("K"));
    assert_eq!(t.load.get("R"), Some(&1));
    assert!(!t.fails.contains("K"));
}
