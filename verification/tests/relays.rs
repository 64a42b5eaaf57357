use wg_subscriber::model::{Answer, PeerInfo, PeerMap, PskField, Request};
use wg_subscriber::relay::{check_and_apply_relay, discover_relay, relay_candidates, RelayTables};
use wg_subscriber::strmap::StrMap;

fn list(items: &[&str]) -> Vec<String> {
    items.iter().map(|s| s.to_string()).collect()
}

fn peer(ips: &[&str]) -> PeerInfo {
    PeerInfo {
        endpoint: Some("1.1.1.1:1".to_string()),
        allowed_ips: Some(list(ips)),
        persistent_keepalive: None,
        preshared_key: PskField::Missing,
        local_ips: None,
    }
}

fn peers() -> PeerMap {
    let mut m: PeerMap = StrMap::new();
    m.insert("ME".to_string(), peer(&["10.0.0.1/32"]));
    m.insert("P".to_string(), peer(&["10.0.0.2/32"]));
    m.insert("R2".to_string(), peer(&["10.254.1.0/24"]));
    m.insert("R1".to_string(), peer(&["fd00:1:1::/64", "10.0.0.9/32"]));
    m
}

fn tables(pool: &[&str]) -> RelayTables {
    let mut t = RelayTables::new();
    t.pool = list(pool);
    t
}

fn show(r: &Request) -> String {
    match r {
        Request::Done => "done".to_string(),
        Request::Handshakes => "handshakes".to_string(),
        Request::Recent { pubkey, max_age } => format!("recent {} {}", pubkey, max_age),
        Request::AddIps { pubkey, ips } => format!("add {} {}", pubkey, ips.join(",")),
        Request::RemoveIps { pubkey, ips } => format!("take {} {}", pubkey, ips.join(",")),
        Request::RemovePeer { pubkey } => format!("remove {}", pubkey),
        Request::UpdatePeer(u) => format!("update {}", u.pubkey),
        _ => "other".to_string(),
    }
}

/// Runs a check, answering each request by the first rule whose key it starts with, and returns
/// what was asked.
fn drive(t: &mut RelayTables, m: &PeerMap, keys: &[&str], rules: &[(&str, bool)]) -> Vec<String> {
    let mut check = check_and_apply_relay(t, m, "ME");
    let mut r = check.request(t, m);
    let mut asked = Vec::new();
    loop {
        let text = show(&r);
        asked.push(text.clone());
        let answer = match r {
            Request::Done => return asked,
            Request::Handshakes => Answer::List(Some(list(keys))),
            _ => Answer::Flag(rules.iter().find(|(k, _)| text.starts_with(k)).map(|x| x.1).unwrap_or(true)),
        };
        assert!(t.has_room());
        r = check.step(t, m, answer);
    }
}

#[test]
fn relays_are_discovered_in_order() {
    let c = relay_candidates(&peers(), "10.254.1.0/24", "fd00:1:1::/64");
    assert_eq!(c, list(&["R2", "R1"]));
    assert_eq!(discover_relay(&c, &vec![true, true]), list(&["R1", "R2"]));
    assert_eq!(discover_relay(&c, &vec![true, false]), list(&["R2"]));
    assert!(discover_relay(&c, &vec![false, false]).is_empty());
    let many = list(&["b", "a", "Z", "ab", "a"]);
    assert_eq!(discover_relay(&many, &vec![true; 5]), list(&["Z", "a", "a", "ab", "b"]));
}

#[test]
fn nothing_to_check_without_relays_or_peers() {
    assert_eq!(drive(&mut tables(&[]), &peers(), &["P"], &[]), list(&["done"]));
    assert_eq!(drive(&mut tables(&["R1"]), &StrMap::new(), &["P"], &[]), list(&["done"]));
}

#[test]
fn unreadable_handshakes_end_the_check() {
    let (mut t, m) = (tables(&["R1"]), peers());
    let mut check = check_and_apply_relay(&t, &m, "ME");
    assert!(matches!(check.step(&mut t, &m, Answer::List(None)), Request::Done));
}

#[test]
fn silent_peer_is_relayed_at_the_second_check() {
    let (mut t, m) = (tables(&["R1", "R2"]), peers());
    t.load.insert("R1".to_string(), 3);
    let keys = ["ME", "R1", "P", "R2"];
    let rules = [("recent P", false)];
    assert_eq!(
        drive(&mut t, &m, &keys, &rules),
        list(&["handshakes", "recent P 180", "recent R1 180", "recent R2 180", "done"])
    );
    assert_eq!(t.fails.get("P"), Some(&1));
    assert_eq!(
        drive(&mut t, &m, &keys, &rules),
        list(&[
            "handshakes", "recent P 180", "recent R1 180", "recent R2 180", "add R2 10.0.0.2/32",
            "recent R2 180", "remove P", "recent R1 180", "recent R2 180", "done",
        ])
    );
    assert_eq!(t.assigned.get("P"), Some(&"R2".to_string()));
    assert_eq!(t.load.get("R2"), Some(&1));
    assert_eq!(t.fails.get("P"), Some(&0));
}

#[test]
fn failed_binding_is_rolled_back() {
    let (mut t, m) = (tables(&["R1"]), peers());
    t.fails.insert("P".to_string(), 1);
    let asked = drive(&mut t, &m, &["P"], &[("recent P", false), ("remove P", false)]);
    assert_eq!(asked[3..6].to_vec(), list(&["add R1 10.0.0.2/32", "recent R1 180", "remove P"]));
    assert_eq!(asked[6], "take R1 10.0.0.2/32");
    assert!(!t.assigned.contains("P"));
    assert!(!t.load.contains("R1"));
    assert_eq!(t.fails.get("P"), Some(&2));
}

#[test]
fn peer_without_addresses_is_not_relayed() {
    let (mut t, mut m) = (tables(&["R1"]), peers());
    m.insert("P".to_string(), peer(&[]));
    t.fails.insert("P".to_string(), 5);
    let asked = drive(&mut t, &m, &["P"], &[("recent P", false)]);
    assert_eq!(asked, list(&["handshakes", "recent P 180", "recent R1 180", "recent R1 180", "done"]));
}

#[test]
fn returning_peer_is_restored() {
    let (mut t, m) = (tables(&["R1"]), peers());
    t.assigned.insert("P".to_string(), "R1".to_string());
    t.load.insert("R1".to_string(), 1);
    t.fails.insert("P".to_string(), 3);
    assert_eq!(
        drive(&mut t, &m, &["P"], &[]),
        list(&["handshakes", "recent P 180", "take R1 10.0.0.2/32", "update P", "recent R1 180", "done"])
    );
    assert!(!t.assigned.contains("P"));
    assert_eq!(t.load.get("R1"), Some(&0));
    assert!(!t.fails.contains("P"));
}

#[test]
fn failed_restoring_keeps_the_load() {
    let (mut t, m) = (tables(&["R1"]), peers());
    t.assigned.insert("P".to_string(), "R1".to_string());
    t.load.insert("R1".to_string(), 1);
    t.fails.insert("P".to_string(), 3);
    drive(&mut t, &m, &["P"], &[("update", false)]);
    assert!(!t.assigned.contains("P"));
    assert_eq!(t.load.get("R1"), Some(&1));
    assert_eq!(t.fails.get("P"), Some(&0));
}

#[test]
fn peers_of_a_failed_relay_move_to_another() {
    let (mut t, m) = (tables(&["R1", "R2"]), peers());
    t.assigned.insert("P".to_string(), "R1".to_string());
    t.load.insert("R1".to_string(), 1);
    t.load.insert("R2".to_string(), 4);
    let asked = drive(&mut t, &m, &[], &[("recent R1", false)]);
    assert_eq!(
        asked,
        list(&[
            "handshakes", "recent R1 180", "take R1 10.0.0.2/32", "recent R2 180", "add R2 10.0.0.2/32",
            "recent R2 180", "recent R2 180", "done",
        ])
    );
    assert_eq!(t.assigned.get("P"), Some(&"R2".to_string()));
    assert_eq!(t.load.get("R2"), Some(&5));
    assert!(!t.load.contains("R1"));
}

#[test]
fn peers_of_a_failed_relay_stay_where_no_other_takes_them() {
    let (mut t, m) = (tables(&["R1", "R2"]), peers());
    t.assigned.insert("P".to_string(), "R1".to_string());
    t.load.insert("R1".to_string(), 1);
    let asked = drive(&mut t, &m, &[], &[("recent R1", false), ("add R2", false)]);
    assert_eq!(
        asked,
        list(&[
            "handshakes", "recent R1 180", "take R1 10.0.0.2/32", "recent R2 180", "add R2 10.0.0.2/32",
            "recent R2 180", "done",
        ])
    );
    assert_eq!(t.assigned.get("P"), Some(&"R1".to_string()));
    assert!(!t.load.contains("R2"));
    let asked = drive(&mut t, &m, &[], &[("recent R", false)]);
    assert_eq!(
        asked,
        list(&[
            "handshakes", "recent R1 180", "take R1 10.0.0.2/32", "recent R2 180", "recent R2 180",
            "done",
        ])
    );
    assert_eq!(t.assigned.get("P"), Some(&"R1".to_string()));
}

#[test]
fn counters_have_room() {
    let mut t = RelayTables::new();
    assert!(t.has_room());
    t.load.insert("R".to_string(), u32::MAX);
    assert!(!t.has_room());
}
