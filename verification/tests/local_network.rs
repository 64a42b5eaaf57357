use wg_subscriber::ip::Ip;
use wg_subscriber::lan::{
    collect_my_local_endpoints, find_same_lan_endpoint, get_local_lan_networks, is_lan_active,
    is_lan_switching_enabled, net_contains, process_lan_verification_tasks, start_lan_switch,
    try_switch_to_lan_endpoint, LanVerificationTask, Net,
};
use wg_subscriber::model::{Answer, Request};
use wg_subscriber::self_ips::{
    configure_self_ip, extract_self_ips, get_interface_addresses, pick_tunnel_addresses,
    restore_self_ip,
};
use wg_subscriber::strmap::StrMap;
use wg_subscriber::wg::CommandOutput;

const SEC: u128 = 1_000_000_000;

fn list(items: &[&str]) -> Vec<String> {
    items.iter().map(|s| s.to_string()).collect()
}

fn v4(a: u32, b: u32, c: u32, d: u32) -> Ip {
    Ip::V4(a << 24 | b << 16 | c << 8 | d)
}

fn addresses() -> Vec<(String, Ip)> {
    vec![
        ("Ethernet".to_string(), v4(192, 168, 1, 20)),
        ("Ethernet".to_string(), Ip::V6(0xfd12 << 112 | 5)),
        ("Ethernet".to_string(), Ip::V6(0xfe80 << 112 | 5)),
        ("Loopback".to_string(), v4(127, 0, 0, 1)),
        ("WG0".to_string(), v4(10, 0, 0, 1)),
        ("wg0".to_string(), v4(10, 0, 0, 9)),
        ("wg0".to_string(), Ip::V6(1)),
        ("wg0".to_string(), Ip::V6(0xfd00 << 112 | 1)),
        ("Wi-Fi".to_string(), v4(8, 8, 8, 8)),
    ]
}

#[test]
fn local_networks_are_private_ones() {
    let nets = get_local_lan_networks(&addresses());
    assert_eq!(
        nets,
        vec![
            Net { addr: v4(192, 168, 1, 20), prefix: 24 },
            Net { addr: Ip::V6(0xfd12 << 112 | 5), prefix: 64 },
        ]
    );
    assert_eq!(
        collect_my_local_endpoints(52822, &nets),
        list(&["192.168.1.20:52822", "[fd12::5]:52822"])
    );
}

#[test]
fn private_ranges_have_their_borders() {
    let net_of = |a: Ip| get_local_lan_networks(&vec![("eth0".to_string(), a)]).len();
    assert_eq!(net_of(v4(10, 255, 255, 255)), 1);
    assert_eq!(net_of(v4(172, 15, 0, 1)), 0);
    assert_eq!(net_of(v4(172, 16, 0, 1)), 1);
    assert_eq!(net_of(v4(172, 31, 255, 255)), 1);
    assert_eq!(net_of(v4(172, 32, 0, 1)), 0);
    assert_eq!(net_of(v4(192, 168, 0, 1)), 1);
    assert_eq!(net_of(v4(192, 169, 0, 1)), 0);
}

#[test]
fn networks_contain_their_addresses() {
    let net = Net { addr: v4(192, 168, 1, 20), prefix: 24 };
    assert!(net_contains(&net, &v4(192, 168, 1, 0)));
    assert!(net_contains(&net, &v4(192, 168, 1, 255)));
    assert!(!net_contains(&net, &v4(192, 168, 2, 20)));
    assert!(!net_contains(&net, &Ip::V6(0xc0a8_0114)));
    let all = Net { addr: v4(1, 2, 3, 4), prefix: 0 };
    assert!(net_contains(&all, &v4(200, 0, 0, 1)));
    let one = Net { addr: v4(1, 2, 3, 4), prefix: 32 };
    assert!(net_contains(&one, &v4(1, 2, 3, 4)));
    assert!(!net_contains(&one, &v4(1, 2, 3, 5)));
    let six = Net { addr: Ip::V6(0xfd12 << 112 | 5), prefix: 64 };
    assert!(net_contains(&six, &Ip::V6(0xfd12 << 112 | 0xffff)));
    assert!(!net_contains(&six, &Ip::V6(0xfd12 << 112 | 1 << 64)));
}

#[test]
fn first_endpoint_in_a_local_network_is_taken() {
    let nets = get_local_lan_networks(&addresses());
    let eps = list(&["junk", "10.5.5.5:1", "192.168.1.77:51820", "192.168.1.78:51820"]);
    assert_eq!(find_same_lan_endpoint(&eps, &nets), Some(("192.168.1.77".to_string(), 51820)));
    assert_eq!(find_same_lan_endpoint(&list(&["[fd12::9]:5"]), &nets), Some(("fd12::9".to_string(), 5)));
    assert_eq!(find_same_lan_endpoint(&list(&["8.8.8.8:53"]), &nets), None);
}

#[test]
fn lan_use_needs_switch_network_and_handshake() {
    let nets = get_local_lan_networks(&addresses());
    let hs = Some(CommandOutput { success: true, stdout: b"K 1000\n".to_vec() });
    assert!(is_lan_active(true, &nets, &hs, "K", "192.168.1.5:1", 1020));
    assert!(!is_lan_active(false, &nets, &hs, "K", "192.168.1.5:1", 1020));
    assert!(!is_lan_active(true, &nets, &hs, "K", "9.9.9.9:1", 1020));
    assert!(!is_lan_active(true, &nets, &hs, "K", "nonsense", 1020));
    assert!(!is_lan_active(true, &nets, &hs, "K", "192.168.1.5:1", 1021));
    assert!(is_lan_switching_enabled(&Some("True".to_string())));
    assert!(is_lan_switching_enabled(&Some("1".to_string())));
    assert!(!is_lan_switching_enabled(&Some("yes".to_string())));
    assert!(!is_lan_switching_enabled(&None));
}

#[test]
fn peer_is_tried_every_two_minutes() {
    let nets = get_local_lan_networks(&addresses());
    let eps = list(&["192.168.1.77:51820"]);
    let k = "K".to_string();
    let mut tries: StrMap<u128> = StrMap::new();
    assert_eq!(try_switch_to_lan_endpoint(false, &mut tries, &nets, &k, &eps, 0), None);
    assert!(tries.is_empty());
    let first = try_switch_to_lan_endpoint(true, &mut tries, &nets, &k, &eps, 5 * SEC);
    assert_eq!(first, Some("192.168.1.77:51820".to_string()));
    assert_eq!(try_switch_to_lan_endpoint(true, &mut tries, &nets, &k, &eps, 124 * SEC), None);
    assert_eq!(try_switch_to_lan_endpoint(true, &mut tries, &nets, &k, &eps, 125 * SEC - 1), None);
    assert!(try_switch_to_lan_endpoint(true, &mut tries, &nets, &k, &eps, 125 * SEC).is_some());
    assert!(try_switch_to_lan_endpoint(true, &mut tries, &nets, &"L".to_string(), &list(&["1.1.1.1:1"]), 0).is_none());
    assert!(!tries.contains("L"));
}

#[test]
fn switch_is_watched_unless_nothing_changes() {
    let mut tasks: Vec<LanVerificationTask> = Vec::new();
    let (i, k, ep) = ("wg0".to_string(), "K".to_string(), "192.168.1.77:51820".to_string());
    assert!(!start_lan_switch(&mut tasks, &i, &k, &ep, Some(ep.clone()), 0));
    assert!(tasks.is_empty());
    assert!(start_lan_switch(&mut tasks, &i, &k, &ep, Some("5.5.5.5:5".to_string()), 3));
    assert_eq!(tasks.len(), 1);
    assert_eq!(tasks[0].fallback, Some("5.5.5.5:5".to_string()));
    assert_eq!(tasks[0].start, 3);
    assert_eq!(tasks[0].timeout, 15 * SEC);
}

fn task(k: &str, fallback: Option<&str>) -> LanVerificationTask {
    LanVerificationTask {
        interface: "wg0".to_string(),
        pubkey: k.to_string(),
        new_endpoint: "192.168.1.77:51820".to_string(),
        fallback: fallback.map(String::from),
        start: 0,
        timeout: 15 * SEC,
    }
}

#[test]
fn lan_round_settles_each_peer() {
    let mut tasks = vec![
        task("moved", None),
        task("good", Some("1.1.1.1:1")),
        task("late", Some("2.2.2.2:2")),
        task("lost", None),
    ];
    let mut round = process_lan_verification_tasks(&mut tasks);
    assert!(tasks.is_empty());
    assert_eq!(round.interface(), Some("wg0".to_string()));
    let there = || Answer::Text(Some("192.168.1.77:51820".to_string()));
    assert!(matches!(round.request(), Request::Endpoint { pubkey } if pubkey == "moved"));
    let r = round.step(Answer::Text(Some("9.9.9.9:9".to_string())), 16 * SEC);
    assert!(matches!(r, Request::Endpoint { pubkey } if pubkey == "good"));
    let r = round.step(there(), 16 * SEC);
    assert!(matches!(r, Request::Recent { pubkey, max_age: 20 } if pubkey == "good"));
    let r = round.step(Answer::Flag(true), 16 * SEC);
    assert!(matches!(r, Request::Endpoint { pubkey } if pubkey == "late"));
    round.step(there(), 16 * SEC);
    match round.step(Answer::Flag(false), 16 * SEC) {
        Request::SetEndpoint { pubkey, endpoint } => {
            assert_eq!(pubkey, "late");
            assert_eq!(endpoint, "2.2.2.2:2");
        }
        _ => panic!("not reverted"),
    }
    let r = round.step(Answer::Flag(false), 16 * SEC);
    assert!(matches!(r, Request::Endpoint { pubkey } if pubkey == "lost"));
    round.step(there(), 16 * SEC);
    assert!(matches!(round.step(Answer::Flag(false), 16 * SEC), Request::Done));
    assert!(round.into_tasks().is_empty());
}

#[test]
fn lan_round_keeps_waiting_in_time() {
    let mut tasks = vec![task("new", Some("1.1.1.1:1"))];
    let mut round = process_lan_verification_tasks(&mut tasks);
    round.step(Answer::Text(Some("192.168.1.77:51820".to_string())), 14 * SEC);
    assert!(matches!(round.step(Answer::Flag(false), 15 * SEC - 1), Request::Done));
    assert_eq!(round.into_tasks().len(), 1);
    let mut none = Vec::new();
    assert!(matches!(process_lan_verification_tasks(&mut none).request(), Request::Done));
}

#[test]
fn own_single_addresses_are_found() {
    let ips = list(&["10.0.0.0/24", "10.0.0.5/32", "10.0.0.6/32", "fd00::/64", "fd00::5/128", "x"]);
    assert_eq!(extract_self_ips(&ips), ("10.0.0.5/32".to_string(), "fd00::5/128".to_string()));
    assert_eq!(extract_self_ips(&list(&["10.0.0.7"])), ("10.0.0.7".to_string(), String::new()));
    assert_eq!(extract_self_ips(&list(&["fd00::7"])), (String::new(), String::new()));
    assert_eq!(extract_self_ips(&list(&["10.0.0.7/x"])), (String::new(), String::new()));
    assert_eq!(
        pick_tunnel_addresses(&list(&["fd00::/64", "10.0.0.0/24", "10.1.0.0/24"])),
        ("10.0.0.0/24".to_string(), "fd00::/64".to_string())
    );
    assert_eq!(
        pick_tunnel_addresses(&list(&["1.2.3.4", "::ffff:1.2.3.4"])),
        ("1.2.3.4".to_string(), "::ffff:1.2.3.4".to_string())
    );
}

#[test]
fn interface_addresses_ignore_case_and_loopback() {
    let (four, six) = get_interface_addresses(&addresses(), "Wg0");
    assert_eq!(four, list(&["10.0.0.1", "10.0.0.9"]));
    assert_eq!(six, list(&["fd00::1"]));
}

fn netsh(addresses: &Vec<(String, Ip)>, ipv4: &str, ipv6: &str) -> Vec<String> {
    configure_self_ip(addresses, "wg0", ipv4, ipv6)
        .iter()
        .map(|c| format!("{} {}", c.program, c.args.join(" ")))
        .collect()
}

#[test]
fn interface_is_left_with_its_addresses_alone() {
    assert_eq!(
        netsh(&addresses(), "10.0.0.1/32", "fd00::2/128"),
        list(&[
            "netsh interface ip delete address wg0 10.0.0.9",
            "netsh interface ipv6 delete address wg0 fd00::1",
            "netsh interface ipv6 add address wg0 fd00::2/128",
        ])
    );
    assert_eq!(
        netsh(&addresses(), "10.0.0.2/32", ""),
        list(&[
            "netsh interface ip delete address wg0 10.0.0.1",
            "netsh interface ip delete address wg0 10.0.0.9",
            "netsh interface ip add address wg0 10.0.0.2 255.255.255.255",
            "netsh interface ipv6 delete address wg0 fd00::1",
        ])
    );
    let right = vec![
        ("wg0".to_string(), v4(10, 0, 0, 1)),
        ("wg0".to_string(), Ip::V6(0xfd00 << 112 | 1)),
    ];
    assert!(netsh(&right, "10.0.0.1/32", "fd00::1/128").is_empty());
    assert!(netsh(&right[..1].to_vec(), "10.0.0.1/32", "").is_empty());
    assert!(netsh(&right[1..].to_vec(), "", "fd00::1/128").is_empty());
    assert!(netsh(&Vec::new(), "", "").is_empty());
}

#[test]
fn kept_addresses_are_restored() {
    let calls = restore_self_ip(&Vec::new(), "wg0", "10.0.0.1/32", "");
    assert_eq!(calls.len(), 1);
    assert_eq!(
        calls[0].args.join(" "),
        "interface ip add address wg0 10.0.0.1 255.255.255.255"
    );
    assert!(restore_self_ip(&addresses(), "wg0", "", "").is_empty());
}
