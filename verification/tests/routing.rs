use wg_subscriber::model::AdvertisedRoutes;
use wg_subscriber::route_sync::{apply_advertised_routes, RouteAnswer, RouteRequest, RouteSync};
use wg_subscriber::routes::{
    find_route_v4, get_interface_index, get_ipv4_routes, get_ipv6_routes, is_valid_cidr,
    prefix_to_v4_netmask, route_v6_exists, IndexRequest,
};
use wg_subscriber::wg::CommandOutput;

fn list(items: &[&str]) -> Vec<String> {
    items.iter().map(|s| s.to_string()).collect()
}

fn out(text: &str) -> Option<CommandOutput> {
    Some(CommandOutput { success: true, stdout: text.as_bytes().to_vec() })
}

fn routes(v4: &[&str], v6: &[&str]) -> AdvertisedRoutes {
    AdvertisedRoutes { ipv4: list(v4), ipv6: list(v6) }
}

const TABLE4: &str = "IPv4 Route Table\n=====\nActive Routes:\n\
    Network Destination        Netmask          Gateway       Interface  Metric\n\
    \x20         0.0.0.0          0.0.0.0      192.168.1.1    192.168.1.20     25\n\
    \x20       10.8.0.0    255.255.255.0         On-link         10.0.0.1    261\n\
    1 short line\n";

const TABLE6: &str = "Active Routes:\n If Metric Network Destination      Gateway\n\
    fd00:8::  64  On-link\n  ::1 x lo\nfe80:: 10\n";

#[test]
fn netmasks() {
    assert_eq!(prefix_to_v4_netmask(0), "0.0.0.0");
    assert_eq!(prefix_to_v4_netmask(1), "128.0.0.0");
    assert_eq!(prefix_to_v4_netmask(8), "255.0.0.0");
    assert_eq!(prefix_to_v4_netmask(20), "255.255.240.0");
    assert_eq!(prefix_to_v4_netmask(24), "255.255.255.0");
    assert_eq!(prefix_to_v4_netmask(32), "255.255.255.255");
}

#[test]
fn networks_are_validated() {
    assert!(is_valid_cidr("10.0.0.0/8"));
    assert!(is_valid_cidr("10.0.0.1/32"));
    assert!(is_valid_cidr("fd00::/64"));
    assert!(!is_valid_cidr("10.0.0.0"));
    assert!(!is_valid_cidr("10.0.0.0/33"));
    assert!(!is_valid_cidr("fd00::/129"));
    assert!(!is_valid_cidr("x/8"));
}

#[test]
fn tables_are_read() {
    let four = get_ipv4_routes(&out(TABLE4)).unwrap();
    assert_eq!(four.len(), 2);
    assert_eq!(four[0].2, "192.168.1.20");
    assert_eq!(four[1], ("10.8.0.0".to_string(), "255.255.255.0".to_string(), "10.0.0.1".to_string()));
    let six = get_ipv6_routes(&out(TABLE6)).unwrap();
    assert_eq!(six.len(), 2);
    assert_eq!(six[0], ("fd00:8::".to_string(), 64, "On-link".to_string()));
    assert_eq!(six[1], ("::1".to_string(), 0, "lo".to_string()));
    assert!(get_ipv4_routes(&None).is_none());
    assert!(get_ipv6_routes(&None).is_none());
}

#[test]
fn routes_are_found() {
    assert_eq!(find_route_v4(&out(TABLE4), "10.8.0.0", "255.255.255.0"), Some("10.0.0.1".to_string()));
    assert_eq!(find_route_v4(&out(TABLE4), "10.8.0.0", "255.255.0.0"), None);
    assert_eq!(find_route_v4(&None, "10.8.0.0", "255.255.255.0"), None);
    assert!(route_v6_exists(&out(TABLE6), "fd00:8::", 64));
    assert!(!route_v6_exists(&out(TABLE6), "fd00:8::", 48));
    assert!(!route_v6_exists(&None, "fd00:8::", 64));
}

#[test]
fn interface_number_stands_after_its_name_or_first() {
    let mut s = get_interface_index("wg0");
    match s.request() {
        IndexRequest::Run(c) => {
            assert_eq!(c.program, "netsh");
            assert_eq!(c.args, list(&["interface", "ipv4", "show", "interfaces"]));
        }
        _ => panic!("not a command"),
    }
    let netsh = "Idx Met MTU State Name\n  1  75  4294967295  connected  Loopback\n 42 5 1420 connected  WG0\n";
    assert!(matches!(s.step(&out(netsh)), IndexRequest::Over { index: Some(42) }));
    let mut s = get_interface_index("wg0");
    assert!(matches!(s.step(&out("x Wg0 17 8\n")), IndexRequest::Over { index: Some(17) }));
}

#[test]
fn interface_number_is_asked_for_three_times() {
    let mut s = get_interface_index("wg0");
    let mut runs = 0;
    let mut pauses = 0;
    let mut r = s.request();
    loop {
        match r {
            IndexRequest::Run(c) => {
                runs += 1;
                if c.program == "wmic" {
                    assert_eq!(
                        c.args,
                        list(&["nic", "where", "NetConnectionID='wg0'", "get", "InterfaceIndex"])
                    );
                }
                r = s.step(&None);
            }
            IndexRequest::Pause { secs } => {
                assert_eq!(secs, 1);
                pauses += 1;
                r = s.step(&None);
            }
            IndexRequest::Over { index } => {
                assert_eq!(index, None);
                break;
            }
        }
    }
    assert_eq!((runs, pauses), (6, 2));
    let mut s = get_interface_index("wg0");
    s.step(&out("nothing"));
    let found = s.step(&out("InterfaceIndex  \r\n\r\n 23 \r\n"));
    assert!(matches!(found, IndexRequest::Over { index: Some(23) }));
}

/// Runs a change of routes with the given number and tables, and returns the commands it ran.
fn drive(sync: &mut RouteSync, last: &mut AdvertisedRoutes, idx: Option<u32>, table: &str) -> (Vec<String>, bool) {
    let mut ran = Vec::new();
    let mut r = sync.request();
    loop {
        let answer = match r {
            RouteRequest::Run(c) => {
                ran.push(format!("{} {}", c.program, c.args.join(" ")));
                RouteAnswer::Done
            }
            RouteRequest::Table(_) => RouteAnswer::Table(out(table)),
            RouteRequest::Index => RouteAnswer::Index(idx),
            RouteRequest::Pause { secs } => {
                assert_eq!(secs, 1);
                RouteAnswer::Done
            }
            RouteRequest::Over { applied } => return (ran, applied),
        };
        r = sync.step(last, &answer);
    }
}

#[test]
fn routes_change_by_their_difference() {
    let mut last = routes(&["10.1.0.0/16", "10.2.0.0/16"], &["fd00:1::/64"]);
    let new = routes(&["10.2.0.0/16", "10.3.0.0/16", "bad", "10.8.0.0/24"], &["fd00:9::/64", "fd00:8::/64"]);
    let mut sync = apply_advertised_routes(&new, &last).unwrap();
    let table = format!("{}{}", TABLE4, TABLE6);
    let (ran, applied) = drive(&mut sync, &mut last, Some(7), &table);
    assert!(applied);
    assert_eq!(
        ran,
        list(&[
            "cmd /c route delete 10.1.0.0/16",
            "route delete fd00:1::/64 :: if 7",
            "cmd /c route -p add 10.3.0.0/16 0.0.0.0 if 7",
            "route -p add fd00:9::/64 :: if 7",
        ])
    );
    assert_eq!(last.ipv4, new.ipv4);
    assert_eq!(last.ipv6, new.ipv6);
    let mut again = apply_advertised_routes(&new, &last).unwrap();
    let (ran, applied) = drive(&mut again, &mut last, Some(7), &table);
    assert!(applied);
    assert!(ran.is_empty());
}

#[test]
fn same_routes_in_another_order_change_nothing() {
    let mut last = routes(&["10.1.0.0/16", "10.2.0.0/16"], &["fd00:1::/64", "bad"]);
    let new = routes(&["10.2.0.0/16", "10.1.0.0/16", "10.2.0.0/16"], &["bad", "fd00:1::/64", "bad"]);
    let mut sync = apply_advertised_routes(&new, &last).unwrap();
    let (ran, applied) = drive(&mut sync, &mut last, Some(7), "");
    assert!(applied);
    assert!(ran.is_empty());
    assert_eq!(last.ipv4.len(), 2);
    assert_eq!(last.ipv6.len(), 2);
}

#[test]
fn routes_wait_for_the_interface() {
    let mut last = routes(&["10.1.0.0/16"], &["fd00:1::/64"]);
    let new = routes(&["10.3.0.0/16"], &[]);
    let mut sync = apply_advertised_routes(&new, &last).unwrap();
    let (ran, applied) = drive(&mut sync, &mut last, None, "");
    assert!(!applied);
    assert_eq!(ran, list(&["cmd /c route delete 10.1.0.0/16"]));
    assert_eq!(last.ipv4, list(&["10.1.0.0/16"]));
    assert_eq!(last.ipv6, list(&["fd00:1::/64"]));
}

#[test]
fn repeated_routes_count_once() {
    let mut last = routes(&[], &[]);
    let new = routes(&["10.3.0.0/16", "10.3.0.0/16"], &[]);
    let mut sync = apply_advertised_routes(&new, &last).unwrap();
    let (ran, _) = drive(&mut sync, &mut last, Some(1), "");
    assert_eq!(ran.len(), 1);
    assert_eq!(last.ipv4, list(&["10.3.0.0/16"]));
}

#[test]
fn no_netmask_for_a_long_prefix() {
    let last = routes(&["fd00::/64"], &[]);
    assert!(apply_advertised_routes(&routes(&["fd01::/64"], &[]), &last).is_none());
    assert!(apply_advertised_routes(&routes(&["fd00::/64"], &[]), &last).is_some());
    assert!(apply_advertised_routes(&routes(&["nonsense/99"], &[]), &last).is_some());
}
