use wg_subscriber::ip::{parse_endpoint, read_ip, read_v4, read_v6, should_report_ipv6, Ip};
use wg_subscriber::ip_text::{ip_to_text, local_endpoint_of};
use wg_subscriber::number::{decimal_of, read_u16, read_u64, read_u8};
use wg_subscriber::strmap::StrMap;
use wg_subscriber::text::{
    distinct_texts, join_texts, lines_of, lossy_text, lowercase_of, minus_texts, nonempty_texts,
    rsplit_once, split_on, split_once, strict_text, trimmed, words_of,
};

fn list(items: &[&str]) -> Vec<String> {
    items.iter().map(|s| s.to_string()).collect()
}

#[test]
fn lines_are_split_as_the_standard_library_does() {
    for t in ["", "a", "a\n", "a\r\nb\r\n", "\n\n", "a\nb", "x\r", "a\n\nb\n"] {
        let expected: Vec<String> = t.lines().map(String::from).collect();
        assert_eq!(lines_of(t), expected, "{:?}", t);
    }
}

#[test]
fn words_and_trimming_follow_the_standard_library() {
    for t in ["", " ", " a  b\tc\n", "\u{3000}x\u{2003}y", "a\u{a0}b", "one"] {
        let expected: Vec<String> = t.split_whitespace().map(String::from).collect();
        assert_eq!(words_of(t), expected, "{:?}", t);
        assert_eq!(trimmed(t), t.trim(), "{:?}", t);
    }
}

#[test]
fn splitting_follows_the_standard_library() {
    for t in ["", ",", "a,b,,c", "abc", ",a"] {
        let expected: Vec<String> = t.split(',').map(String::from).collect();
        assert_eq!(split_on(t, ','), expected, "{:?}", t);
        let once = t.split_once(',').map(|(a, b)| (a.to_string(), b.to_string()));
        assert_eq!(split_once(t, ','), once, "{:?}", t);
        let last = t.rsplit_once(',').map(|(a, b)| (a.to_string(), b.to_string()));
        assert_eq!(rsplit_once(t, ','), last, "{:?}", t);
    }
}

#[test]
fn lists_are_cleaned() {
    assert_eq!(distinct_texts(&list(&["b", "a", "b", "c", "a"])), list(&["b", "a", "c"]));
    assert_eq!(nonempty_texts(&list(&["", "a", "", "b"])), list(&["a", "b"]));
    assert_eq!(minus_texts(&list(&["a", "b", "c"]), &list(&["b", "x"])), list(&["a", "c"]));
    assert_eq!(join_texts(&list(&["a", "b", "c"]), ", "), "a, b, c");
    assert_eq!(join_texts(&Vec::new(), ","), "");
}

#[test]
fn case_is_folded() {
    assert_eq!(lowercase_of("WireGuard TUNNEL \u{c4}"), "wireguard tunnel \u{e4}");
}

#[test]
fn bytes_are_decoded() {
    assert_eq!(strict_text(&"gr\u{fc}n".as_bytes().to_vec()), Some("gr\u{fc}n".to_string()));
    assert_eq!(strict_text(&vec![0x61, 0xff]), None);
    assert_eq!(lossy_text(&vec![0x61, 0xff, 0x62]), "a\u{fffd}b");
    assert_eq!(lossy_text(&"plain".as_bytes().to_vec()), "plain");
}

#[test]
fn numbers_are_read_as_the_standard_library_does() {
    for t in ["", "0", "+7", "-1", "255", "256", "007", " 1", "1 ", "+", "65535", "65536", "x", "1x"] {
        assert_eq!(read_u8(t), t.parse::<u8>().ok(), "{:?}", t);
        assert_eq!(read_u16(t), t.parse::<u16>().ok(), "{:?}", t);
        assert_eq!(read_u64(t), t.parse::<u64>().ok(), "{:?}", t);
    }
    assert_eq!(read_u64("18446744073709551615"), Some(u64::MAX));
    assert_eq!(read_u64("18446744073709551616"), None);
}

#[test]
fn written_numbers_read_back() {
    for n in [0u64, 1, 9, 10, 52822, u64::MAX] {
        assert_eq!(decimal_of(n), n.to_string());
        assert_eq!(read_u64(&decimal_of(n)), Some(n));
    }
}

#[test]
fn addresses_are_read() {
    let cases = [
        ("1.2.3.4", Some(Ip::V4(0x1020304))),
        ("01.2.3.4", None),
        ("256.1.1.1", None),
        ("1.2.3", None),
        ("1.2.3.4.5", None),
        ("", None),
        ("0.0.0.0", Some(Ip::V4(0x0))),
        ("::", Some(Ip::V6(0x0))),
        ("::1", Some(Ip::V6(0x1))),
        ("fd00:1:1::5", Some(Ip::V6(0xfd000001000100000000000000000005))),
        ("1:2:3:4:5:6:7:8", Some(Ip::V6(0x10002000300040005000600070008))),
        ("1:2:3:4:5:6:7", None),
        ("::ffff:1.2.3.4", Some(Ip::V6(0xffff01020304))),
        ("1::2::3", None),
        ("fe80::1%3", None),
        ("2001:DB8::a", Some(Ip::V6(0x20010db800000000000000000000000a))),
        ("12345::", None),
        ("1:2:3:4:5:6:7::", Some(Ip::V6(0x10002000300040005000600070000))),
        ("::1:2:3:4:5:6:7:8", None),
        ("1:2:3:4:5:6:1.2.3.4", Some(Ip::V6(0x10002000300040005000601020304))),
        ("::1.2.3.4:5", None),
        (":::", None),
        ("[::1]", None),
    ];
    for (t, expected) in cases {
        assert_eq!(read_ip(t), expected, "{:?}", t);
        let four = match expected {
            Some(Ip::V4(a)) => Some(a),
            _ => None,
        };
        let six = match expected {
            Some(Ip::V6(a)) => Some(a),
            _ => None,
        };
        assert_eq!(read_v4(t), four, "{:?}", t);
        assert_eq!(read_v6(t), six, "{:?}", t);
    }
}

#[test]
fn addresses_are_written() {
    let four = [(0u32, "0.0.0.0"), (0x7f00_0001, "127.0.0.1"), (0xc0a8_0164, "192.168.1.100")];
    for (a, text) in four {
        assert_eq!(ip_to_text(Ip::V4(a)), text);
    }
    let six = [
        "::", "::1", "1::", "fd00:1:1::5", "1:0:0:2::3", "1:2:3:4:5:6:7:8", "::ffff:192.168.1.9",
        "0:0:1::", "2001:db8::1:0:0:1", "1:0:2:0:3:0:4:0",
    ];
    for t in six {
        let a = read_ip(t).unwrap();
        assert_eq!(ip_to_text(a), t);
        assert_eq!(read_ip(&ip_to_text(a)), Some(a));
    }
    assert_eq!(ip_to_text(read_ip("2001:DB8:0:0:0:0:0:A").unwrap()), "2001:db8::a");
    assert_eq!(ip_to_text(read_ip("1:0:0:2:0:0:0:3").unwrap()), "1:0:0:2::3");
}

#[test]
fn endpoints_are_read() {
    assert_eq!(parse_endpoint("10.0.0.1:51820"), Some((Ip::V4(0x0a00_0001), 51820)));
    assert_eq!(parse_endpoint("[fd00::1]:80"), Some((Ip::V6(0xfd00 << 112 | 1), 80)));
    assert_eq!(parse_endpoint("fd00::1:80"), Some((Ip::V6(0xfd00 << 112 | 1), 80)));
    assert_eq!(parse_endpoint("[fd00::1%4]:80"), Some((Ip::V6(0xfd00 << 112 | 1), 80)));
    assert_eq!(parse_endpoint("10.0.0.1:+5"), Some((Ip::V4(0x0a00_0001), 5)));
    assert_eq!(parse_endpoint("10.0.0.1"), None);
    assert_eq!(parse_endpoint("host.example:51820"), None);
    assert_eq!(parse_endpoint("10.0.0.1:65536"), None);
}

#[test]
fn reported_endpoints_read_back() {
    for a in [Ip::V4(0xc0a8_0101), Ip::V6(0xfd12 << 112 | 0x77)] {
        let text = local_endpoint_of(a, 52822);
        assert_eq!(parse_endpoint(&text), Some((a, 52822)));
    }
    assert_eq!(local_endpoint_of(Ip::V6(0xfd12 << 112 | 0x77), 1), "[fd12::77]:1");
}

#[test]
fn only_unique_local_addresses_are_reported() {
    assert!(should_report_ipv6(0xfd00 << 112));
    assert!(should_report_ipv6(0xfc00 << 112));
    assert!(!should_report_ipv6(0xfe80 << 112));
    assert!(!should_report_ipv6(0x2001 << 112));
    assert!(!should_report_ipv6(0xff02 << 112));
    assert!(!should_report_ipv6(1));
    assert!(!should_report_ipv6(0));
}

#[test]
fn maps_keep_the_order_of_their_keys() {
    let mut m: StrMap<u32> = StrMap::new();
    assert!(m.is_empty());
    m.insert("b".to_string(), 1);
    m.insert("a".to_string(), 2);
    m.insert("b".to_string(), 3);
    assert_eq!(m.len(), 2);
    assert_eq!(m.key_list(), list(&["b", "a"]));
    assert_eq!(m.get("b"), Some(&3));
    assert_eq!(m.remove("b"), Some(3));
    assert_eq!(m.remove("b"), None);
    assert!(!m.contains("b"));
    assert!(m.contains("a"));
}
