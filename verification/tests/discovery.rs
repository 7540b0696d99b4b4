use localbeam::contacts::ContactBook;
use localbeam::discovery::{
    accept_answer, add_target, answer_probe, build_peer_snapshot, collect_answers,
    default_mobile_web_available, discovery_targets, expire_peers, finish_scan, make_probe,
    merge_answers, mobile_web_or_default, scan_once, DiscoveryPeer, DiscoveryProbe, Heard, Target, DISCOVERY_PORT, DISCOVERY_PROTOCOL, PEER_TTL_SECS,
    SCAN_INTERVAL_SECS, SCAN_TIMEOUT_MS,
};
use localbeam::identity::Identity;
use localbeam::net::{
    best_local_host_for_remote, directed_broadcast, first_routable_ipv4, is_usable_broadcast,
    is_usable_local_ipv4, local_ipv4_interfaces, same_subnet, IpAddr, Ipv4Addr, LocalIpv4Interface,
};
use localbeam::settings::{ManualPeer, Settings};
use localbeam::state::AppState;

fn state_of(fingerprint: &str, name: &str) -> AppState<u8> {
    let identity = Identity {
        cert_der: vec![1, 2, 3],
        key_pem: "key".to_string(),
        cert_pem: "cert".to_string(),
        fingerprint: fingerprint.to_string(),
    };
    let mut settings = Settings::initial(name.to_string(), "/save".to_string(), 50_000);
    settings.enable_qr_server = true;
    AppState::new_at("/data".to_string(), identity, settings, ContactBook::default(), 1000)
}

fn answer(id: &str, run: &str, host: &str) -> DiscoveryPeer {
    DiscoveryPeer {
        protocol: DISCOVERY_PROTOCOL.to_string(),
        instance_id: run.to_string(),
        id: id.to_string(),
        name: format!("name of {id}"),
        avatar: "a".to_string(),
        host: host.to_string(),
        transfer_port: 5,
        http_port: 6,
        mobile_web_available: true,
    }
}

fn iface(ip: Ipv4Addr, netmask: Ipv4Addr, broadcast: Option<Ipv4Addr>) -> LocalIpv4Interface {
    LocalIpv4Interface { ip, netmask, broadcast }
}

#[test]
fn discovery_peer_accepts_pre_mobile_web_payloads() {
    let payload = r#"{
            "protocol": "localbeam-discovery-v1",
            "instanceId": "old-instance",
            "id": "peer-id",
            "name": "Older LocalBeam",
            "avatar": "desktop",
            "host": "192.168.1.40",
            "transferPort": 45454,
            "httpPort": 45455
        }"#;

    let value: serde_json::Value = serde_json::from_str(payload).unwrap();
    let text = |key: &str| value[key].as_str().unwrap().to_string();
    let port = |key: &str| value[key].as_u64().unwrap() as u16;
    let peer = DiscoveryPeer {
        protocol: text("protocol"),
        instance_id: text("instanceId"),
        id: text("id"),
        name: text("name"),
        avatar: text("avatar"),
        host: text("host"),
        transfer_port: port("transferPort"),
        http_port: port("httpPort"),
        mobile_web_available: mobile_web_or_default(value["mobileWebAvailable"].as_bool()),
    };
    assert!(peer.mobile_web_available);
    let counted = accept_answer(peer, "this-instance", "192.168.1.40".to_string()).unwrap();
    assert!(counted.mobile_web_available);
}

#[test]
fn directed_broadcast_uses_interface_netmask() {
    let iface = LocalIpv4Interface {
        ip: Ipv4Addr::new(192, 168, 12, 34),
        netmask: Ipv4Addr::new(255, 255, 255, 0),
        broadcast: None,
    };

    assert_eq!(directed_broadcast(&iface), Some(Ipv4Addr::new(192, 168, 12, 255)));
}

#[test]
fn mobile_web_default_is_available() {
    assert!(default_mobile_web_available());
    assert!(mobile_web_or_default(None));
    assert!(mobile_web_or_default(Some(true)));
    assert!(!mobile_web_or_default(Some(false)));
}

#[test]
fn constants_of_the_protocol() {
    assert_eq!(DISCOVERY_PORT, 9987);
    assert_eq!(DISCOVERY_PROTOCOL, "localbeam-discovery-v1");
    assert_eq!(SCAN_TIMEOUT_MS, 1400);
    assert_eq!(SCAN_INTERVAL_SECS, 5);
    assert_eq!(PEER_TTL_SECS, 30);
}

#[test]
fn no_directed_broadcast_under_trivial_masks() {
    let ip = Ipv4Addr::new(10, 1, 2, 3);
    assert_eq!(directed_broadcast(&iface(ip, Ipv4Addr::new(0, 0, 0, 0), None)), None);
    assert_eq!(directed_broadcast(&iface(ip, Ipv4Addr::new(255, 255, 255, 255), None)), None);
    assert_eq!(
        directed_broadcast(&iface(ip, Ipv4Addr::new(255, 0, 0, 0), None)),
        Some(Ipv4Addr::new(10, 255, 255, 255))
    );
}

#[test]
fn subnets_compare_under_the_mask() {
    let a = Ipv4Addr::new(192, 168, 1, 2);
    let b = Ipv4Addr::new(192, 168, 1, 200);
    let c = Ipv4Addr::new(192, 168, 2, 2);
    let mask = Ipv4Addr::new(255, 255, 255, 0);
    assert!(same_subnet(a, b, mask));
    assert!(same_subnet(b, a, mask));
    assert!(!same_subnet(a, c, mask));
    assert!(!same_subnet(a, a, Ipv4Addr::new(0, 0, 0, 0)));
}

#[test]
fn usable_addresses() {
    assert!(!is_usable_local_ipv4(Ipv4Addr::new(127, 0, 0, 1)));
    assert!(!is_usable_local_ipv4(Ipv4Addr::new(169, 254, 9, 9)));
    assert!(!is_usable_local_ipv4(Ipv4Addr::new(0, 0, 0, 0)));
    assert!(is_usable_local_ipv4(Ipv4Addr::new(169, 253, 9, 9)));
    assert!(is_usable_local_ipv4(Ipv4Addr::new(10, 0, 0, 1)));
    assert!(is_usable_broadcast(Ipv4Addr::new(255, 255, 255, 255)));
    assert!(!is_usable_broadcast(Ipv4Addr::new(127, 255, 255, 255)));
}

#[test]
fn addresses_agree_with_std() {
    for (a, b, c, d) in [(0u8, 0u8, 0u8, 0u8), (1, 2, 3, 4), (127, 9, 8, 7), (169, 254, 0, 1), (255, 255, 255, 255)] {
        let ours = Ipv4Addr::new(a, b, c, d);
        assert_eq!(ours.to_text(), format!("{a}.{b}.{c}.{d}"));
        assert_eq!(ours.bits, u32::from_be_bytes([a, b, c, d]));
        assert_eq!(ours.is_loopback(), a == 127);
        assert_eq!(ours.is_link_local(), a == 169 && b == 254);
        assert_eq!(ours.is_unspecified(), a == 0 && b == 0 && c == 0 && d == 0);
    }
}

#[test]
fn only_usable_interfaces_take_part() {
    let mask = Ipv4Addr::new(255, 255, 255, 0);
    let all = vec![
        iface(Ipv4Addr::new(127, 0, 0, 1), mask, None),
        iface(Ipv4Addr::new(10, 0, 0, 1), mask, None),
        iface(Ipv4Addr::new(169, 254, 1, 1), mask, None),
        iface(Ipv4Addr::new(10, 0, 1, 1), mask, None),
    ];
    let kept = local_ipv4_interfaces(&all);
    assert_eq!(kept, vec![all[1], all[3]]);
}

#[test]
fn nearest_own_address() {
    let mask = Ipv4Addr::new(255, 255, 255, 0);
    let ifaces = vec![
        iface(Ipv4Addr::new(10, 0, 0, 1), mask, None),
        iface(Ipv4Addr::new(192, 168, 1, 5), mask, None),
        iface(Ipv4Addr::new(192, 168, 1, 6), mask, None),
    ];
    let near = IpAddr::V4(Ipv4Addr::new(192, 168, 1, 77));
    assert_eq!(best_local_host_for_remote(&ifaces, near), Some(Ipv4Addr::new(192, 168, 1, 5)));
    let far = IpAddr::V4(Ipv4Addr::new(8, 8, 8, 8));
    assert_eq!(best_local_host_for_remote(&ifaces, far), None);
    assert_eq!(best_local_host_for_remote(&ifaces, IpAddr::V6(1)), None);
}

#[test]
fn first_routable_address() {
    let list = vec![
        IpAddr::V6(9),
        IpAddr::V4(Ipv4Addr::new(127, 0, 0, 1)),
        IpAddr::V4(Ipv4Addr::new(169, 254, 0, 1)),
        IpAddr::V4(Ipv4Addr::new(0, 0, 0, 0)),
        IpAddr::V4(Ipv4Addr::new(10, 0, 0, 1)),
    ];
    assert_eq!(first_routable_ipv4(&list), Some(Ipv4Addr::new(0, 0, 0, 0)));
    assert_eq!(first_routable_ipv4(&vec![IpAddr::V6(9)]), None);
}

#[test]
fn targets_are_usable_and_named_once() {
    let mask = Ipv4Addr::new(255, 255, 255, 0);
    let ifaces = vec![
        iface(Ipv4Addr::new(10, 0, 0, 1), mask, Some(Ipv4Addr::new(10, 0, 0, 255))),
        iface(Ipv4Addr::new(10, 0, 0, 2), mask, Some(Ipv4Addr::new(10, 0, 255, 255))),
        iface(Ipv4Addr::new(10, 0, 3, 2), Ipv4Addr::new(0, 0, 0, 0), Some(Ipv4Addr::new(127, 255, 255, 255))),
    ];
    let at = |a, b, c, d| Target { ip: Ipv4Addr::new(a, b, c, d), port: 9987 };
    assert_eq!(
        discovery_targets(&ifaces),
        vec![at(255, 255, 255, 255), at(10, 0, 0, 255), at(10, 0, 255, 255)]
    );
    assert_eq!(discovery_targets(&Vec::new()), vec![at(255, 255, 255, 255)]);
    let mut targets = vec![at(10, 0, 0, 255)];
    add_target(&mut targets, Ipv4Addr::new(10, 0, 0, 255));
    add_target(&mut targets, Ipv4Addr::new(0, 0, 0, 0));
    assert_eq!(targets, vec![at(10, 0, 0, 255)]);
}

#[test]
fn foreign_probes_alone_are_answered() {
    let state = state_of("fp", "Desk");
    let mask = Ipv4Addr::new(255, 255, 255, 0);
    let ifaces = vec![iface(Ipv4Addr::new(10, 0, 0, 7), mask, None)];
    let asker = IpAddr::V4(Ipv4Addr::new(10, 0, 0, 9));
    let ask = |probe: &DiscoveryProbe| {
        answer_probe(&state, probe, "own", &ifaces, Some(asker), None, "10.0.0.9".to_string())
    };
    assert!(ask(&make_probe("own")).is_none());
    let other = DiscoveryProbe { protocol: "x".to_string(), instance_id: "them".to_string() };
    assert!(ask(&other).is_none());
    let a = ask(&make_probe("them")).unwrap();
    assert_eq!(a.protocol, "localbeam-discovery-v1");
    assert_eq!(a.instance_id, "own");
    assert_eq!(a.id, "fp");
    assert_eq!(a.name, "Desk");
    assert_eq!(a.avatar, "💻");
    assert_eq!(a.host, "10.0.0.7");
    assert_eq!((a.transfer_port, a.http_port, a.mobile_web_available), (50_000, 7878, true));
}

#[test]
fn announced_host_falls_back() {
    let state = state_of("fp", "Desk");
    let none: Vec<LocalIpv4Interface> = Vec::new();
    let far = Some(IpAddr::V4(Ipv4Addr::new(8, 8, 8, 8)));
    let with_local = build_peer_snapshot(&state, "own", &none, far, Some("10.1.1.1".to_string()), "8.8.8.8".to_string());
    assert_eq!(with_local.host, "10.1.1.1");
    let without = build_peer_snapshot(&state, "own", &none, None, None, "8.8.8.8".to_string());
    assert_eq!(without.host, "8.8.8.8");
}

#[test]
fn answers_without_a_usable_host_get_the_senders() {
    let own = "own";
    let heard = |host: &str| accept_answer(answer("b", "them", host), own, "10.0.0.3".to_string()).unwrap().host;
    assert_eq!(heard(""), "10.0.0.3");
    assert_eq!(heard("127.0.0.1"), "10.0.0.3");
    assert_eq!(heard("10.0.0.4"), "10.0.0.4");
    assert!(accept_answer(answer("b", "own", "h"), own, "s".to_string()).is_none());
    let mut strange = answer("b", "them", "h");
    strange.protocol = "other".to_string();
    assert!(accept_answer(strange, own, "s".to_string()).is_none());
}

#[test]
fn a_probed_device_is_found() {
    let asker = state_of("fp-asker", "Asker");
    let other = state_of("fp-other", "Other");
    let reply = answer_probe(&other, &make_probe("run-a"), "run-b", &Vec::new(), None, None, "10.0.0.9".to_string()).unwrap();
    let counted = accept_answer(reply, "run-a", "10.0.0.3".to_string()).unwrap();
    let mut asker = asker;
    let announced = finish_scan(&mut asker, 1, vec![counted], 2000).unwrap();
    assert_eq!(announced.len(), 1);
    let p = asker.peer("fp-other").unwrap();
    assert_eq!(p.name, "Other");
    assert_eq!(p.host, "10.0.0.9");
    assert_eq!((p.transfer_port, p.http_port), (50_000, 7878));
    assert_eq!(p.last_seen, 2000);
    assert!(!p.manual);
}

#[test]
fn own_answers_do_not_come_in_and_later_ones_win() {
    let mut state = state_of("me", "Me");
    let mut second = answer("b", "x", "10.0.0.2");
    second.name = "second".to_string();
    merge_answers(&mut state, vec![answer("me", "x", "h"), answer("b", "x", "10.0.0.1"), second], 5);
    assert!(state.peer("me").is_none());
    let b = state.peer("b").unwrap();
    assert_eq!((b.name.as_str(), b.host.as_str()), ("second", "10.0.0.2"));
}

#[test]
fn silent_devices_are_forgotten_and_entered_ones_stay() {
    let identity = Identity {
        cert_der: Vec::new(),
        key_pem: String::new(),
        cert_pem: String::new(),
        fingerprint: "me".to_string(),
    };
    let mut settings = Settings::initial("n".to_string(), "d".to_string(), 1);
    settings.manual_peers.push(ManualPeer {
        id: "m".to_string(),
        name: "Entered".to_string(),
        host: "10.9.9.9".to_string(),
        transfer_port: 1,
        http_port: 2,
    });
    let mut state: AppState<u8> =
        AppState::new_at("d".to_string(), identity, settings, ContactBook::default(), 100);
    let entered = state.peer("m").unwrap();
    assert!(entered.manual && entered.mobile_web_available);
    assert_eq!(entered.avatar, "💻");
    assert_eq!(entered.last_seen, 100);

    assert!(finish_scan(&mut state, 2, vec![answer("b", "x", "h")], 100).is_some());
    assert!(expire_peers(&mut state, 129).is_none());
    assert!(state.peer("b").is_some());
    let left = expire_peers(&mut state, 130).unwrap();
    assert_eq!(left.len(), 1);
    assert!(state.peer("b").is_none());
    assert!(expire_peers(&mut state, 10_000).is_none());
    assert!(state.peer("m").is_some());
}

#[test]
fn a_scan_without_targets_or_answers_only_forgets() {
    let mut state = state_of("me", "Me");
    assert!(finish_scan(&mut state, 0, vec![answer("b", "x", "h")], 50).is_none());
    assert!(state.peer("b").is_none());
    assert!(finish_scan(&mut state, 3, Vec::new(), 50).is_none());
    assert!(finish_scan(&mut state, 3, vec![answer("b", "x", "h")], 50).is_some());
    assert!(finish_scan(&mut state, 3, Vec::new(), 79).is_none());
    assert_eq!(finish_scan(&mut state, 3, Vec::new(), 80).unwrap().len(), 0);
}

#[test]
fn a_scan_takes_in_the_answers_that_count() {
    let heard = || {
        vec![
            Heard { answer: answer("a", "own", "10.0.0.1"), sender_ip: "10.0.0.1".to_string() },
            Heard { answer: answer("b", "x", ""), sender_ip: "10.0.0.2".to_string() },
            Heard { answer: answer("c", "y", "10.0.0.7"), sender_ip: "10.0.0.3".to_string() },
        ]
    };
    let counted: Vec<String> = collect_answers(heard(), "own").into_iter().map(|a| a.host).collect();
    assert_eq!(counted, vec!["10.0.0.2".to_string(), "10.0.0.7".to_string()]);
    let mut state = state_of("me", "Me");
    assert_eq!(scan_once(&mut state, "own", 1, heard(), 5).unwrap().len(), 2);
    assert_eq!(state.peer("b").unwrap().host, "10.0.0.2");
    assert!(state.peer("a").is_none());
    assert!(scan_once(&mut state, "own", 1, Vec::new(), 6).is_none());
}

#[test]
fn a_clock_set_back_forgets_nobody() {
    let mut state = state_of("me", "Me");
    merge_answers(&mut state, vec![answer("b", "x", "h")], 1000);
    assert!(expire_peers(&mut state, 10).is_none());
    assert!(state.peer("b").is_some());
}
