use wg_subscriber::answers::{answer_from, invocation_for, ips_invocation_for};
use wg_subscriber::lan::Net;
use wg_subscriber::ip::Ip;
use wg_subscriber::model::{Answer, Request};
use wg_subscriber::wg::{
    get_current_allowed_ips, get_current_endpoint, get_peer_handshake_seconds, get_peers_with_psk,
    get_wg_latest_handshakes, get_wg_listen_port, has_recent_handshake, peer_list, CommandOutput,
    WgError, DEFAULT_LISTEN_PORT,
};
use wg_subscriber::wg_state::get_wg_state;

fn out(text: &str) -> Option<CommandOutput> {
    Some(CommandOutput { success: true, stdout: text.as_bytes().to_vec() })
}

fn failed(text: &str) -> Option<CommandOutput> {
    Some(CommandOutput { success: false, stdout: text.as_bytes().to_vec() })
}

fn list(items: &[&str]) -> Vec<String> {
    items.iter().map(|s| s.to_string()).collect()
}

const PEER: &str = "peer: K\r\n  endpoint: 192.168.1.9:51820\r\n  allowed ips: 10.0.0.2/32, 10.1.0.0/16\r\n";

#[test]
fn endpoint_is_the_second_word_of_its_line() {
    assert_eq!(get_current_endpoint(&out(PEER)), Some("192.168.1.9:51820".to_string()));
    assert_eq!(get_current_endpoint(&out("endpoint:\n")), None);
    assert_eq!(get_current_endpoint(&out("nothing here\n")), None);
    assert_eq!(get_current_endpoint(&failed(PEER)), None);
    assert_eq!(get_current_endpoint(&None), None);
}

#[test]
fn allowed_ips_are_read_up_to_the_second_colon() {
    assert_eq!(get_current_allowed_ips(&out(PEER)), Some(list(&["10.0.0.2/32", "10.1.0.0/16"])));
    assert_eq!(get_current_allowed_ips(&failed(PEER)), Some(list(&["10.0.0.2/32", "10.1.0.0/16"])));
    assert_eq!(
        get_current_allowed_ips(&out("allowed ips: 10.0.0.2/32, fd00::2/128\n")),
        Some(list(&["10.0.0.2/32", "fd00"]))
    );
    assert_eq!(get_current_allowed_ips(&out("allowed ips: , ,\n")), Some(Vec::new()));
    assert_eq!(get_current_allowed_ips(&out("")), Some(Vec::new()));
    assert_eq!(get_current_allowed_ips(&None), None);
}

#[test]
fn handshakes_of_one_peer() {
    let o = out("A 100\nB 200\nB 300\nC x\n");
    assert_eq!(get_peer_handshake_seconds(&o, "B"), Some(200));
    assert_eq!(get_peer_handshake_seconds(&o, "C"), None);
    assert_eq!(get_peer_handshake_seconds(&o, "D"), None);
    assert_eq!(get_peer_handshake_seconds(&failed("A 100\n"), "A"), None);
    assert!(has_recent_handshake(&o, "A", 120, 20));
    assert!(!has_recent_handshake(&o, "A", 121, 20));
    assert!(has_recent_handshake(&o, "A", 50, 20));
    assert!(!has_recent_handshake(&o, "D", 100, 20));
    assert!(!has_recent_handshake(&out("A 0\n"), "A", 1_700_000_000, 180));
}

#[test]
fn handshakes_of_all_peers() {
    let m = get_wg_latest_handshakes(&out("A\t100\n\n  B 0\nC nope\nA 7\nlonely\n")).ok().unwrap();
    assert_eq!(m.key_list(), list(&["A", "B", "C"]));
    assert_eq!(m.get("A"), Some(&Some(7)));
    assert_eq!(m.get("B"), Some(&None));
    assert_eq!(m.get("C"), Some(&None));
    assert!(matches!(get_wg_latest_handshakes(&None), Err(WgError::NotRun)));
    assert!(matches!(get_wg_latest_handshakes(&failed("A 1\n")), Err(WgError::Failed)));
    let bad = Some(CommandOutput { success: true, stdout: vec![0xff] });
    assert!(matches!(get_wg_latest_handshakes(&bad), Err(WgError::NotText)));
}

#[test]
fn peers_and_preshared_keys() {
    assert_eq!(peer_list(&out("A\r\n\r\n B \r\n")), Some(list(&["A", "B"])));
    assert_eq!(peer_list(&None), None);
    let keys = out("A\tsecret\nB\t(none)\nC\nA\tsecret\n");
    assert_eq!(get_peers_with_psk(&keys), Some(list(&["A", "C"])));
    assert_eq!(get_peers_with_psk(&None), None);
}

#[test]
fn listen_port_comes_from_the_environment_first() {
    assert_eq!(get_wg_listen_port(&Some("1234".to_string()), &out("9\n")), 1234);
    assert_eq!(get_wg_listen_port(&Some("70000".to_string()), &out(" 9 \n")), 9);
    assert_eq!(get_wg_listen_port(&None, &out("off\n")), DEFAULT_LISTEN_PORT);
    assert_eq!(get_wg_listen_port(&None, &None), 52822);
}

#[test]
fn dump_is_read() {
    let dump = "priv\tpub\t4242\toff\n\
        A\t(none)\t1.2.3.4:5\t10.0.0.2/32,,10.0.0.3/32\t1700\t10\t20\t25\n\
        \n\
        B\t(none)\t(none)\t(none)\t0\tx\t7\toff\n\
        short\tline\n";
    let s = get_wg_state(&out(dump)).ok().unwrap();
    assert_eq!(s.listen_port, 4242);
    assert_eq!(s.peers.key_list(), list(&["A", "B"]));
    let a = s.peers.get("A").unwrap();
    assert_eq!(a.endpoint, Some("1.2.3.4:5".to_string()));
    assert_eq!(a.allowed_ips, list(&["10.0.0.2/32", "10.0.0.3/32"]));
    assert_eq!(a.latest_handshake, Some(1700));
    assert_eq!((a.transfer_rx, a.transfer_tx), (10, 20));
    let b = s.peers.get("B").unwrap();
    assert_eq!(b.endpoint, None);
    assert_eq!(b.allowed_ips, list(&["(none)"]));
    assert_eq!(b.latest_handshake, None);
    assert_eq!((b.transfer_rx, b.transfer_tx), (0, 7));
}

#[test]
fn dump_edges() {
    assert_eq!(get_wg_state(&out("")).ok().unwrap().listen_port, 0);
    assert_eq!(get_wg_state(&out("a\tb\n")).ok().unwrap().listen_port, 0);
    assert_eq!(get_wg_state(&out("a\tb\tx\n")).ok().unwrap().listen_port, 52822);
    assert!(matches!(get_wg_state(&None), Err(WgError::NotRun)));
    assert!(matches!(get_wg_state(&failed("")), Err(WgError::Failed)));
    let bad = Some(CommandOutput { success: true, stdout: vec![0xc0, 0x80] });
    assert!(matches!(get_wg_state(&bad), Err(WgError::NotText)));
}

#[test]
fn questions_are_put_to_the_tool() {
    let ask = |r: &Request| invocation_for("wg.exe", "wg0", r).map(|i| i.args);
    let recent = Request::Recent { pubkey: "A".to_string(), max_age: 180 };
    assert_eq!(ask(&recent), Some(list(&["show", "wg0", "latest-handshakes"])));
    assert_eq!(ask(&Request::Peers), Some(list(&["show", "wg0", "peers"])));
    assert_eq!(ask(&Request::PeersWithPsk), Some(list(&["show", "wg0", "preshared-keys"])));
    let ep = Request::Endpoint { pubkey: "A".to_string() };
    assert_eq!(ask(&ep), Some(list(&["show", "wg0", "peers", "A"])));
    let gone = Request::RemovePeer { pubkey: "A".to_string() };
    assert_eq!(ask(&gone), Some(list(&["set", "wg0", "peer", "A", "remove"])));
    let port = Request::SetListenPort { port: 2000 };
    assert_eq!(ask(&port), Some(list(&["set", "wg0", "listen-port", "2000"])));
    assert_eq!(ask(&Request::ApplyRoutes), None);
}

#[test]
fn answers_come_from_the_output() {
    let nets = vec![Net { addr: Ip::V4(0xc0a8_0105), prefix: 24 }];
    let lan = Request::LanActive { pubkey: "A".to_string(), endpoint: "192.168.1.9:51820".to_string() };
    assert!(matches!(answer_from(&lan, &out("A 100\n"), 110, true, &nets), Answer::Flag(true)));
    assert!(matches!(answer_from(&lan, &out("A 100\n"), 110, false, &nets), Answer::Flag(false)));
    assert!(matches!(answer_from(&lan, &out("A 100\n"), 121, true, &nets), Answer::Flag(false)));
    assert!(matches!(answer_from(&lan, &out("A 100\n"), 110, true, &Vec::new()), Answer::Flag(false)));
    match answer_from(&Request::Handshakes, &out("B 1\nA 2\n"), 0, false, &nets) {
        Answer::List(Some(l)) => assert_eq!(l, list(&["B", "A"])),
        _ => panic!("no list"),
    }
    assert!(matches!(answer_from(&Request::Handshakes, &None, 0, false, &nets), Answer::List(None)));
    let gone = Request::RemovePeer { pubkey: "A".to_string() };
    assert!(matches!(answer_from(&gone, &failed(""), 0, false, &nets), Answer::Flag(false)));
    assert!(matches!(answer_from(&gone, &out(""), 0, false, &nets), Answer::Flag(true)));
}

#[test]
fn addresses_are_added_and_taken_away() {
    let add = Request::AddIps { pubkey: "R".to_string(), ips: list(&["10.9.0.1/32", "10.0.0.2/32"]) };
    let call = ips_invocation_for("wg.exe", "wg0", &add, &out(PEER)).unwrap();
    assert_eq!(
        call.args,
        list(&["set", "wg0", "peer", "R", "allowed-ips", "10.0.0.2/32,10.1.0.0/16,10.9.0.1/32"])
    );
    let take = Request::RemoveIps { pubkey: "R".to_string(), ips: list(&["10.0.0.2/32"]) };
    let call = ips_invocation_for("wg.exe", "wg0", &take, &out(PEER)).unwrap();
    assert_eq!(call.args, list(&["set", "wg0", "peer", "R", "allowed-ips", "10.1.0.0/16"]));
    assert!(ips_invocation_for("wg.exe", "wg0", &take, &None).is_none());
}
