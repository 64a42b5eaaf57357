use wg_subscriber::ip::Ip;
use wg_subscriber::lan::Net;
use wg_subscriber::model::{Answer, Request};
use wg_subscriber::port::{
    check_and_maybe_change_listen_port, port_change_range, random_port, try_change_port,
};
use wg_subscriber::retry::{process_retry_queue, RetryTask};

const SEC: u128 = 1_000_000_000;

fn list(items: &[&str]) -> Vec<String> {
    items.iter().map(|s| s.to_string()).collect()
}

fn nets() -> Vec<Net> {
    vec![Net { addr: Ip::V4(0xc0a8_0114), prefix: 24 }]
}

fn peers(items: &[&str]) -> Answer {
    Answer::List(Some(list(items)))
}

#[test]
fn lost_network_changes_the_port() {
    let mut history = Vec::new();
    let mut c = check_and_maybe_change_listen_port();
    assert!(matches!(c.request(), Request::Peers));
    let r = c.step_with_port(&mut history, &nets(), peers(&["A", "B"]), SEC, 4000);
    assert!(matches!(r, Request::Recent { pubkey, max_age: 180 } if pubkey == "A"));
    let r = c.step_with_port(&mut history, &nets(), Answer::Flag(false), SEC, 4000);
    assert!(matches!(r, Request::Recent { pubkey, .. } if pubkey == "B"));
    let r = c.step_with_port(&mut history, &nets(), Answer::Flag(false), SEC, 4000);
    assert!(matches!(r, Request::Peers));
    let r = c.step_with_port(&mut history, &nets(), peers(&["A"]), SEC, 4000);
    assert!(matches!(r, Request::Endpoint { pubkey } if pubkey == "A"));
    let r = c.step_with_port(&mut history, &nets(), Answer::Text(Some("9.9.9.9:1".to_string())), 2 * SEC, 4000);
    assert!(matches!(r, Request::SetListenPort { port: 4000 }));
    assert!(history.is_empty());
    let r = c.step_with_port(&mut history, &nets(), Answer::Flag(true), 3 * SEC, 4000);
    assert!(matches!(r, Request::Done));
    assert_eq!(history, vec![2 * SEC]);
}

#[test]
fn port_is_left_alone_while_peers_are_there() {
    let mut history = Vec::new();
    let mut c = try_change_port(false);
    c.step_with_port(&mut history, &nets(), peers(&["A"]), 0, 1);
    assert!(matches!(c.step_with_port(&mut history, &nets(), Answer::Flag(true), 0, 1), Request::Done));
    let mut c = try_change_port(false);
    c.step_with_port(&mut history, &nets(), peers(&["A"]), 0, 1);
    c.step_with_port(&mut history, &nets(), Answer::Flag(false), 0, 1);
    c.step_with_port(&mut history, &nets(), peers(&["A"]), 0, 1);
    let near = Answer::Text(Some("192.168.1.9:5".to_string()));
    assert!(matches!(c.step_with_port(&mut history, &nets(), near, 0, 1), Request::Done));
    let mut c = try_change_port(true);
    assert!(matches!(c.step_with_port(&mut history, &nets(), peers(&[]), 0, 1), Request::Done));
    let mut c = try_change_port(true);
    assert!(matches!(c.step_with_port(&mut history, &nets(), Answer::List(None), 0, 1), Request::Done));
}

#[test]
fn local_networks_do_not_matter_where_there_are_none() {
    let mut history = Vec::new();
    let mut c = try_change_port(false);
    c.step_with_port(&mut history, &Vec::new(), peers(&["A"]), 0, 7777);
    c.step_with_port(&mut history, &Vec::new(), Answer::Flag(false), 0, 7777);
    let r = c.step_with_port(&mut history, &Vec::new(), peers(&["A"]), 0, 7777);
    assert!(matches!(r, Request::SetListenPort { port: 7777 }));
}

fn forced(history: &mut Vec<u128>, now: u128) -> bool {
    let mut c = try_change_port(true);
    match c.step_with_port(history, &Vec::new(), peers(&["A"]), now, 5000) {
        Request::SetListenPort { .. } => {
            c.step_with_port(history, &Vec::new(), Answer::Flag(true), now, 5000);
            true
        }
        _ => false,
    }
}

#[test]
fn port_changes_are_rare() {
    let mut history = Vec::new();
    assert!(forced(&mut history, 0));
    assert!(!forced(&mut history, 1200 * SEC - 1));
    assert!(forced(&mut history, 1200 * SEC));
    assert!(forced(&mut history, 2400 * SEC));
    assert!(!forced(&mut history, 3600 * SEC));
    assert_eq!(history.len(), 3);
    assert!(forced(&mut history, 3600 * SEC + 1));
    assert_eq!(history, vec![1200 * SEC, 2400 * SEC, 3600 * SEC + 1]);
}

#[test]
fn failed_change_is_not_counted() {
    let mut history = Vec::new();
    let mut c = try_change_port(true);
    c.step_with_port(&mut history, &Vec::new(), peers(&["A"]), 0, 5000);
    c.step_with_port(&mut history, &Vec::new(), Answer::Flag(false), 0, 5000);
    assert!(history.is_empty());
}

#[test]
fn port_range_comes_from_the_environment() {
    let s = |t: &str| Some(t.to_string());
    assert_eq!(port_change_range(&None, &None), (1024, 65535));
    assert_eq!(port_change_range(&s("20000"), &s("20010")), (20000, 20010));
    assert_eq!(port_change_range(&s("x"), &s("2000")), (1024, 2000));
    assert_eq!(port_change_range(&s("3000"), &s("2000")), (1024, 65535));
    assert_eq!(port_change_range(&s("70000"), &None), (1024, 65535));
}

#[test]
fn random_ports_are_in_range() {
    for _ in 0..200 {
        let p = random_port(20000, 20003);
        assert!((20000..=20003).contains(&p));
    }
    assert_eq!(random_port(9, 9), 9);
    let mut history = Vec::new();
    let mut c = try_change_port(true);
    match c.step(&mut history, &Vec::new(), peers(&["A"]), 0, (30000, 30001)) {
        Request::SetListenPort { port } => assert!(port == 30000 || port == 30001),
        _ => panic!("no port"),
    }
}

fn task(k: &str, ep: Option<&str>, now: u128) -> RetryTask {
    RetryTask::new(
        k.to_string(),
        ep.map(String::from),
        Some(list(&["10.0.0.2/32"])),
        Some(25),
        Some(String::new()),
        now,
    )
}

#[test]
fn waiting_times_double() {
    let mut t = task("A", None, 0);
    let mut seen = Vec::new();
    for n in 0..7 {
        t.retry_count = n;
        seen.push(t.next_interval());
    }
    assert_eq!(seen, vec![1, 2, 4, 8, 16, 16, 16]);
}

#[test]
fn only_due_updates_are_tried() {
    let mut queue = vec![task("A", None, 0), task("B", None, 5 * SEC), task("C", None, 0)];
    let run = process_retry_queue(&mut queue, SEC - 1);
    assert!(matches!(run.request(), Request::Done));
    assert_eq!(queue.len(), 3);
    let mut run = process_retry_queue(&mut queue, SEC);
    assert_eq!(queue.len(), 2);
    match run.request() {
        Request::UpdatePeer(u) => {
            assert_eq!(u.pubkey, "A");
            assert_eq!(u.endpoint, None);
            assert_eq!(u.allowed_ips, Some(list(&["10.0.0.2/32"])));
            assert_eq!(u.persistent_keepalive, Some(25));
            assert_eq!(u.preshared_key, Some(String::new()));
        }
        _ => panic!("no update"),
    }
    assert!(matches!(run.step(&mut queue, Answer::Flag(true)), Request::Done));
    assert_eq!(queue.len(), 2);
}

#[test]
fn failed_update_goes_back_until_it_was_tried_five_times() {
    let mut queue = vec![task("A", None, 0)];
    let mut now = 0;
    let mut attempts = 0;
    while !queue.is_empty() {
        now += 16 * SEC;
        let mut run = process_retry_queue(&mut queue, now);
        assert!(matches!(run.request(), Request::UpdatePeer(_)));
        run.step(&mut queue, Answer::Flag(false));
        attempts += 1;
    }
    assert_eq!(attempts, 5);
}

#[test]
fn retry_keeps_an_endpoint_in_the_local_network() {
    let chosen = |active: Option<bool>| {
        let mut queue = vec![task("A", Some("5.5.5.5:5"), 0)];
        let mut run = process_retry_queue(&mut queue, 2 * SEC);
        assert!(matches!(run.request(), Request::Endpoint { .. }));
        let r = match active {
            None => run.step(&mut queue, Answer::Text(None)),
            Some(yes) => {
                let r = run.step(&mut queue, Answer::Text(Some("192.168.1.4:4".to_string())));
                assert!(matches!(r, Request::LanActive { .. }));
                run.step(&mut queue, Answer::Flag(yes))
            }
        };
        match r {
            Request::UpdatePeer(u) => u.endpoint.unwrap(),
            _ => panic!("no update"),
        }
    };
    assert_eq!(chosen(None), "5.5.5.5:5");
    assert_eq!(chosen(Some(false)), "5.5.5.5:5");
    assert_eq!(chosen(Some(true)), "192.168.1.4:4");
}
