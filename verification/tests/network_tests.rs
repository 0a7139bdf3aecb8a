use conduit::forward::ClientTable;
use conduit::text::socket_address;
use conduit::network::{
    batch_script, build_system_report, detect_system_forward_status, filter_interfaces,
    start_system_forwarding, stop_system_forwarding, wan_of, InterfaceInfo,
    interface_of, interfaces_of, mac_string, RawInterface,
};

fn share(lan: &str, ip: &str, mask: &str, wans: &[&str]) -> (String, String, String, Vec<String>) {
    (lan.to_string(), ip.to_string(), mask.to_string(), wans.iter().map(|w| w.to_string()).collect())
}

#[test]
fn start_commands_for_one_share() {
    let cmds = start_system_forwarding(&[share("eth1", "192.168.10.1", "24", &["wlan0"])]);
    assert_eq!(
        cmds,
        vec![
            "echo 1 > /proc/sys/net/ipv4/ip_forward",
            "(ip addr add 192.168.10.1/24 dev eth1 2>/dev/null || true)",
            "ip link set eth1 up",
            "(iptables -t nat -D POSTROUTING -o wlan0 -j MASQUERADE 2>/dev/null || true)",
            "iptables -t nat -A POSTROUTING -o wlan0 -j MASQUERADE",
            "(iptables -D FORWARD -i wlan0 -o eth1 -m state --state RELATED,ESTABLISHED -j ACCEPT 2>/dev/null || true)",
            "iptables -A FORWARD -i wlan0 -o eth1 -m state --state RELATED,ESTABLISHED -j ACCEPT",
            "(iptables -D FORWARD -i eth1 -o wlan0 -j ACCEPT 2>/dev/null || true)",
            "iptables -A FORWARD -i eth1 -o wlan0 -j ACCEPT",
        ]
    );
}

#[test]
fn stop_commands_for_one_share() {
    let cmds = stop_system_forwarding(&[share("eth1", "10.0.0.1", "16", &["wlan0", "eth0"])]);
    assert_eq!(
        cmds,
        vec![
            "iptables -t nat -D POSTROUTING -o wlan0 -j MASQUERADE 2>/dev/null || true",
            "iptables -D FORWARD -i wlan0 -o eth1 -m state --state RELATED,ESTABLISHED -j ACCEPT 2>/dev/null || true",
            "iptables -D FORWARD -i eth1 -o wlan0 -j ACCEPT 2>/dev/null || true",
            "iptables -t nat -D POSTROUTING -o eth0 -j MASQUERADE 2>/dev/null || true",
            "iptables -D FORWARD -i eth0 -o eth1 -m state --state RELATED,ESTABLISHED -j ACCEPT 2>/dev/null || true",
            "iptables -D FORWARD -i eth1 -o eth0 -j ACCEPT 2>/dev/null || true",
            "ip addr del 10.0.0.1/16 dev eth1 2>/dev/null || true",
            "echo 0 > /proc/sys/net/ipv4/ip_forward",
        ]
    );
}

#[test]
fn commands_without_shares() {
    assert_eq!(start_system_forwarding(&[]), vec!["echo 1 > /proc/sys/net/ipv4/ip_forward"]);
    assert_eq!(stop_system_forwarding(&[]), vec!["echo 0 > /proc/sys/net/ipv4/ip_forward"]);
}

#[test]
fn batch_script_joins_commands() {
    assert_eq!(batch_script(&vec![]), None);
    assert_eq!(batch_script(&vec!["a".to_string()]), Some("a".to_string()));
    assert_eq!(
        batch_script(&vec!["a".to_string(), "b c".to_string(), "d".to_string()]),
        Some("a && b c && d".to_string())
    );
}

#[test]
fn report_from_system_outputs() {
    let nat = "-P PREROUTING ACCEPT\n-A POSTROUTING -o wlan0 -j MASQUERADE\n-A PREROUTING -p tcp --dport 80 -j DNAT --to 10.0.0.2\n-A OUTPUT -j REDIRECT --to-ports 8080\n-A POSTROUTING -o eth0 -j MASQUERADE\n";
    let listening = "Netid State Recv-Q\ntcp LISTEN 0 *:22\nudp UNCONN 0 *:53\n";
    let sockets = "Netid State\ntcp ESTAB 1.2.3.4 users:((\"conduit\",pid=1))\ntcp SYN-SENT x users:((\"conduit\"))\nudp UNCONN y users:((\"sshd\"))\n";
    let r = build_system_report("1\n", Some(nat), Some(listening), Some(sockets));
    assert!(r.ip_forward_enabled);
    assert!(!r.iptables_failed);
    assert_eq!(
        r.nat_masquerade,
        vec!["-A POSTROUTING -o wlan0 -j MASQUERADE", "-A POSTROUTING -o eth0 -j MASQUERADE"]
    );
    assert_eq!(
        r.port_forwards,
        vec![
            "-A PREROUTING -p tcp --dport 80 -j DNAT --to 10.0.0.2",
            "-A OUTPUT -j REDIRECT --to-ports 8080"
        ]
    );
    assert_eq!(r.listening_ports, vec!["tcp LISTEN 0 *:22", "udp UNCONN 0 *:53"]);
    assert_eq!(r.active_connections, vec!["tcp ESTAB 1.2.3.4 users:((\"conduit\",pid=1))"]);

    let d = detect_system_forward_status(&r);
    assert_eq!(d, (true, vec!["wlan0".to_string(), "eth0".to_string()], false));
}

#[test]
fn report_when_commands_failed() {
    let r = build_system_report("0", None, None, None);
    assert!(!r.ip_forward_enabled);
    assert!(r.iptables_failed);
    assert!(r.nat_masquerade.is_empty());
    assert!(r.listening_ports.is_empty());
    assert_eq!(detect_system_forward_status(&r), (false, vec![], true));
    let r = build_system_report("", Some(""), Some(""), Some(""));
    assert!(!r.ip_forward_enabled);
    assert!(!r.iptables_failed);
    assert_eq!(detect_system_forward_status(&r), (false, vec![], false));
}

#[test]
fn forwarding_off_means_not_active() {
    let r = build_system_report("0\n", Some("-A POSTROUTING -o eth0 -j MASQUERADE"), None, None);
    assert_eq!(detect_system_forward_status(&r), (false, vec!["eth0".to_string()], false));
}

#[test]
fn wan_of_masquerade_rules() {
    assert_eq!(wan_of("-A POSTROUTING -o eth0 -j MASQUERADE"), Some("eth0".to_string()));
    assert_eq!(wan_of("-A POSTROUTING -s 10.0.0.0/8 -j MASQUERADE"), None);
    assert_eq!(wan_of("-A POSTROUTING -o"), None);
    assert_eq!(wan_of("-o  a -o b"), Some("a".to_string()));
}

#[test]
fn interfaces_offered_for_sharing() {
    let names = ["lo", "eth0", "veth12", "docker0", "br-abc", "wlan0", "lo0", "bridge"];
    let ifaces: Vec<InterfaceInfo> = names.iter().map(|n| InterfaceInfo { name: n.to_string(), mac: None, ips: vec![] }).collect();
    let offered: Vec<String> = filter_interfaces(&ifaces).into_iter().map(|i| i.name).collect();
    assert_eq!(offered, vec!["eth0", "wlan0", "lo0", "bridge"]);
}

#[test]
fn client_table_tracks_and_forgets_clients() {
    let mut t: ClientTable<u32> = ClientTable::new();
    assert!(!t.touch("1.2.3.4:5", 10));
    assert_eq!(t.socket("1.2.3.4:5"), None);
    t.insert("1.2.3.4:5".to_string(), 7, 10);
    t.insert("5.6.7.8:9".to_string(), 8, 20);
    assert_eq!(t.socket("1.2.3.4:5"), Some(&7));
    assert!(t.touch("1.2.3.4:5", 70_000));
    t.forget_idle(80_000, 60_000);
    assert_eq!(t.socket("1.2.3.4:5"), Some(&7));
    assert_eq!(t.socket("5.6.7.8:9"), None);
    t.forget_idle(130_000, 60_000);
    assert_eq!(t.socket("1.2.3.4:5"), None);
}

#[test]
fn socket_addresses() {
    assert_eq!(socket_address("127.0.0.1", 0), "127.0.0.1:0");
    assert_eq!(socket_address("0.0.0.0", 8080), "0.0.0.0:8080");
    assert_eq!(socket_address("::1", 65535), "::1:65535");
    for p in [0u16, 7, 10, 99, 100, 5353, 65535] {
        assert_eq!(socket_address("h", p), format!("h:{}", p));
    }
}

#[test]
fn each_appended_rule_is_deleted_just_before() {
    let cmds = start_system_forwarding(&[
        share("eth1", "192.168.10.1", "24", &["wlan0", "eth0"]),
        share("eth2", "10.0.0.1", "16", &["wlan0"]),
    ]);
    let mut appends = 0;
    for (k, c) in cmds.iter().enumerate() {
        let deleted = if let Some(rest) = c.strip_prefix("iptables -t nat -A ") {
            Some(format!("iptables -t nat -D {}", rest))
        } else {
            c.strip_prefix("iptables -A ").map(|rest| format!("iptables -D {}", rest))
        };
        if let Some(d) = deleted {
            appends += 1;
            assert!(k > 0);
            assert_eq!(cmds[k - 1], format!("({} 2>/dev/null || true)", d));
        }
    }
    assert_eq!(appends, 9);
}

#[test]
fn mac_addresses_are_printed_in_hex_pairs() {
    assert_eq!(mac_string(&[0x00, 0x1a, 0x2b, 0xc3, 0xd4, 0xff]), "00:1a:2b:c3:d4:ff");
    assert_eq!(mac_string(&[0, 0, 0, 0, 0, 0]), "00:00:00:00:00:00");
    assert_eq!(mac_string(&[0x9f, 0xa0, 0x0a, 0x10, 0x01, 0xee]), "9f:a0:0a:10:01:ee");
}

#[test]
fn interfaces_carry_mac_and_addresses() {
    let raw = RawInterface {
        name: "eth0".to_string(),
        mac: Some([0x52, 0x54, 0x00, 0x12, 0x34, 0x56]),
        ips: vec!["192.168.1.5/24".to_string(), "fe80::1/64".to_string()],
    };
    let info = interface_of(&raw);
    assert_eq!(info.name, "eth0");
    assert_eq!(info.mac.as_deref(), Some("52:54:00:12:34:56"));
    assert_eq!(info.ips, vec!["192.168.1.5/24", "fe80::1/64"]);
    let lo = interface_of(&RawInterface { name: "lo".to_string(), mac: None, ips: vec![] });
    assert_eq!(lo.mac, None);
    assert!(lo.ips.is_empty());
}

#[test]
fn stop_script_for_one_share() {
    let cmds = stop_system_forwarding(&[share("eth1", "192.168.10.1", "24", &["eth0"])]);
    assert_eq!(
        batch_script(&cmds).unwrap(),
        "iptables -t nat -D POSTROUTING -o eth0 -j MASQUERADE 2>/dev/null || true && \
iptables -D FORWARD -i eth0 -o eth1 -m state --state RELATED,ESTABLISHED -j ACCEPT 2>/dev/null || true && \
iptables -D FORWARD -i eth1 -o eth0 -j ACCEPT 2>/dev/null || true && \
ip addr del 192.168.10.1/24 dev eth1 2>/dev/null || true && \
echo 0 > /proc/sys/net/ipv4/ip_forward"
    );
}

#[test]
fn interface_list_is_held_one_for_one() {
    let raws = vec![
        RawInterface { name: "lo".to_string(), mac: None, ips: vec!["127.0.0.1/8".to_string()] },
        RawInterface { name: "eth0".to_string(), mac: Some([0xde, 0xad, 0xbe, 0xef, 0x00, 0x01]), ips: vec![] },
    ];
    let infos = interfaces_of(&raws);
    assert_eq!(infos.len(), 2);
    assert_eq!(infos[0].name, "lo");
    assert_eq!(infos[0].mac, None);
    assert_eq!(infos[0].ips, vec!["127.0.0.1/8"]);
    assert_eq!(infos[1].name, "eth0");
    assert_eq!(infos[1].mac.as_deref(), Some("de:ad:be:ef:00:01"));
    assert!(interfaces_of(&vec![]).is_empty());
}
