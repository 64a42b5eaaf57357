use wg_subscriber::commands::{
    add_ips_to_peer, apply_amnezia_config, preshared_key_to_set, remove_ips_from_peer, update_peer,
    update_endpoint_with_fallback, wg_cmd, AmneziaConfig, Invocation,
};
use wg_subscriber::install::{tunnel_config, InstallRequest, Installation};
use wg_subscriber::model::{deserialize_psk, PeerInfo, PeerMap, PeerUpdate, PskField};
use wg_subscriber::strmap::StrMap;
use wg_subscriber::wg::CommandOutput;

fn list(items: &[&str]) -> Vec<String> {
    items.iter().map(|s| s.to_string()).collect()
}

fn args(calls: &Vec<Invocation>) -> Vec<Vec<String>> {
    calls.iter().map(|c| c.args.clone()).collect()
}

fn update(psk: Option<&str>) -> PeerUpdate {
    PeerUpdate {
        pubkey: "K".to_string(),
        endpoint: Some("1.2.3.4:5".to_string()),
        allowed_ips: Some(list(&["10.0.0.2/32", "fd00::2/128"])),
        persistent_keepalive: Some(25),
        preshared_key: psk.map(String::from),
    }
}

#[test]
fn tool_is_selected_by_the_switch() {
    assert_eq!(wg_cmd(&None), "wg.exe");
    assert_eq!(wg_cmd(&Some("1".to_string())), "awg.exe");
    assert_eq!(wg_cmd(&Some("true".to_string())), "awg.exe");
    assert_eq!(wg_cmd(&Some("TRUE".to_string())), "wg.exe");
}

#[test]
fn update_sets_what_is_given() {
    let calls = update_peer("wg.exe", "wg0", &update(None), "/tmp/psk");
    assert_eq!(
        args(&calls),
        vec![list(&[
            "set", "wg0", "peer", "K", "endpoint", "1.2.3.4:5", "persistent-keepalive", "25",
            "allowed-ips", "10.0.0.2/32,fd00::2/128",
        ])]
    );
    assert_eq!(calls[0].program, "wg.exe");
    assert_eq!(preshared_key_to_set(&update(None)), None);
}

#[test]
fn update_with_preshared_key_names_its_file() {
    let u = update(Some("secret"));
    assert_eq!(preshared_key_to_set(&u), Some("secret".to_string()));
    let calls = update_peer("wg.exe", "wg0", &u, "/tmp/psk");
    assert_eq!(calls.len(), 1);
    assert_eq!(calls[0].args[4..6].to_vec(), list(&["preshared-key", "/tmp/psk"]));
}

#[test]
fn clearing_a_preshared_key_removes_the_peer_first() {
    let u = update(Some(""));
    assert_eq!(preshared_key_to_set(&u), None);
    let calls = args(&update_peer("wg.exe", "wg0", &u, "/tmp/psk"));
    assert_eq!(calls.len(), 2);
    assert_eq!(calls[0], list(&["set", "wg0", "peer", "K", "remove"]));
    assert!(!calls[1].contains(&"preshared-key".to_string()));
}

#[test]
fn update_without_addresses_leaves_them_alone() {
    let u = PeerUpdate {
        pubkey: "K".to_string(),
        endpoint: None,
        allowed_ips: Some(Vec::new()),
        persistent_keepalive: None,
        preshared_key: None,
    };
    assert_eq!(args(&update_peer("wg.exe", "wg0", &u, "")), vec![list(&["set", "wg0", "peer", "K"])]);
}

#[test]
fn wan_endpoint_has_no_way_back() {
    let c = update_endpoint_with_fallback("wg.exe", "wg0", "K", "5.6.7.8:9", &Some("old:1".to_string()));
    assert_eq!(c.args, list(&["set", "wg0", "peer", "K", "endpoint", "5.6.7.8:9"]));
}

#[test]
fn removing_undoes_adding() {
    let show = |ips: &str| {
        let text = format!("  allowed ips: {}\n", ips);
        Some(CommandOutput { success: true, stdout: text.into_bytes() })
    };
    let more = list(&["10.9.0.0/24", "10.9.1.0/24"]);
    let added = add_ips_to_peer("wg.exe", "wg0", "R", &show("10.0.0.1/32, 10.0.0.2/32"), &more).unwrap();
    assert_eq!(added.args[5], "10.0.0.1/32,10.0.0.2/32,10.9.0.0/24,10.9.1.0/24");
    let back = remove_ips_from_peer("wg.exe", "wg0", "R", &show(&added.args[5]), &more).unwrap();
    assert_eq!(back.args[5], "10.0.0.1/32,10.0.0.2/32");
    assert!(add_ips_to_peer("wg.exe", "wg0", "R", &None, &more).is_none());
}

#[test]
fn obfuscation_settings_are_passed_on() {
    let c = AmneziaConfig {
        jc: 4,
        jmin: 40,
        jmax: 70,
        s1: 1,
        s2: 2,
        h1: 11,
        h2: 12,
        h3: 13,
        h4: 14,
        i1: Some("<b 0x1>".to_string()),
        i2: Some(String::new()),
        i3: None,
        i4: None,
        i5: Some("z".to_string()),
    };
    assert_eq!(
        apply_amnezia_config("awg.exe", "wg0", &c).args,
        list(&[
            "set", "wg0", "jc=4", "jmin=40", "jmax=70", "s1=1", "s2=2", "h1=11", "h2=12", "h3=13",
            "h4=14", "i1=<b 0x1>", "i5=z",
        ])
    );
}

#[test]
fn preshared_key_field_has_three_meanings() {
    assert_eq!(deserialize_psk(&PskField::Missing), None);
    assert_eq!(deserialize_psk(&PskField::Null), Some(String::new()));
    assert_eq!(deserialize_psk(&PskField::Key("k".to_string())), Some("k".to_string()));
}

fn peers() -> PeerMap {
    let mut m: PeerMap = StrMap::new();
    m.insert(
        "A".to_string(),
        PeerInfo {
            endpoint: Some("1.1.1.1:1".to_string()),
            allowed_ips: Some(list(&["10.0.0.2/32", "10.0.0.3/32"])),
            persistent_keepalive: Some(25),
            preshared_key: PskField::Key("psk".to_string()),
            local_ips: None,
        },
    );
    m.insert(
        "B".to_string(),
        PeerInfo {
            endpoint: None,
            allowed_ips: Some(Vec::new()),
            persistent_keepalive: None,
            preshared_key: PskField::Missing,
            local_ips: None,
        },
    );
    m
}

fn installation(port: Option<&str>, relayed: bool) -> Installation {
    let mut assigned: StrMap<String> = StrMap::new();
    if relayed {
        assigned.insert("A".to_string(), "R".to_string());
    }
    Installation::install_with_config(
        "wg.exe",
        "wg0",
        "C:\\wg0.conf",
        " PRIV\r\n",
        &port.map(String::from),
        "10.0.0.1/32",
        "fd00::1/128",
        &peers(),
        &assigned,
    )
}

#[test]
fn configuration_is_written() {
    match installation(None, false).request() {
        InstallRequest::WriteConfig { text } => assert_eq!(
            text,
            "[Interface]\nPrivateKey = PRIV\nListenPort = 52822\nAddress = 10.0.0.1/32, fd00::1/128\n\
             \n[Peer]\nPublicKey = A\nEndpoint = 1.1.1.1:1\nPresharedKey = psk\n\
             PersistentKeepalive = 25\nAllowedIPs = 10.0.0.2/32, 10.0.0.3/32\n\
             \n[Peer]\nPublicKey = B"
        ),
        _ => panic!("not the configuration"),
    }
}

#[test]
fn keys_in_the_configuration_are_those_of_the_snapshot() {
    let config = |preshared_key: PskField| {
        let mut m: PeerMap = StrMap::new();
        m.insert(
            "A".to_string(),
            PeerInfo {
                endpoint: None,
                allowed_ips: None,
                persistent_keepalive: None,
                preshared_key,
                local_ips: None,
            },
        );
        tunnel_config("PRIV", 1, "", "", &m, &StrMap::new())
    };
    let plain = "[Interface]\nPrivateKey = PRIV\nListenPort = 1\n\n[Peer]\nPublicKey = A";
    assert_eq!(config(PskField::Missing), plain);
    assert_eq!(config(PskField::Null), plain);
    assert_eq!(config(PskField::Key(String::new())), format!("{}\nPresharedKey = ", plain));
    assert_eq!(config(PskField::Key("k".to_string())), format!("{}\nPresharedKey = k", plain));
}

#[test]
fn relayed_peers_are_left_out_of_the_configuration() {
    let text = installation(Some("4000"), true).config;
    assert!(!text.contains("PublicKey = A"));
    assert!(text.contains("PublicKey = B"));
    assert!(text.contains("ListenPort = 4000\n"));
}

#[test]
fn installation_runs_through() {
    let mut i = installation(None, false);
    let expect = |r: InstallRequest, program: &str, a: &[&str]| match r {
        InstallRequest::Run(c) => {
            assert_eq!(c.program, program);
            assert_eq!(c.args, list(a));
        }
        _ => panic!("not a command"),
    };
    expect(i.step(true), "wireguard", &["/uninstalltunnelservice", "wg0"]);
    expect(i.step(false), "sc", &["stop", "WireGuardTunnel$wg0"]);
    expect(i.step(false), "sc", &["delete", "WireGuardTunnel$wg0"]);
    assert!(matches!(i.step(false), InstallRequest::Pause { secs: 2 }));
    expect(i.step(true), "wireguard", &["/installtunnelservice", "C:\\wg0.conf"]);
    match i.step(true) {
        InstallRequest::SaveSelfIps { ipv4, ipv6 } => {
            assert_eq!(ipv4, "10.0.0.1/32");
            assert_eq!(ipv6, "fd00::1/128");
        }
        _ => panic!("addresses not saved"),
    }
    expect(i.step(true), "wg.exe", &["show", "wg0"]);
    assert!(matches!(i.step(false), InstallRequest::Pause { secs: 1 }));
    expect(i.step(true), "wg.exe", &["show", "wg0"]);
    assert!(matches!(i.step(true), InstallRequest::Over { ready: true }));
}

#[test]
fn installation_fails_with_a_step_that_matters() {
    let mut i = installation(None, false);
    assert!(matches!(i.step(false), InstallRequest::Over { ready: false }));
    let mut i = installation(None, false);
    for _ in 0..5 {
        i.step(true);
    }
    assert!(matches!(i.step(false), InstallRequest::Over { ready: false }));
}

#[test]
fn interface_is_looked_for_thirty_times() {
    let mut i = installation(None, false);
    for _ in 0..6 {
        i.step(true);
    }
    let mut checks = 0;
    let mut r = i.step(true);
    loop {
        match r {
            InstallRequest::Run(_) => {
                checks += 1;
                r = i.step(false);
            }
            InstallRequest::Pause { .. } => r = i.step(true),
            InstallRequest::Over { ready } => {
                assert!(!ready);
                break;
            }
            _ => panic!("unexpected"),
        }
    }
    assert_eq!(checks, 30);
}
