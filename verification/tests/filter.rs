use ifmon::network::filter::{filter_interfaces, is_relevant_interface, InterfaceInfo, InterfaceType};

fn iface(name: &str, if_type: InterfaceType, ipv4: Vec<&str>, ipv6: Vec<&str>) -> InterfaceInfo {
    InterfaceInfo {
        index: 0,
        name: name.to_string(),
        if_type,
        ipv4_count: ipv4.len(),
        ipv6_count: ipv6.len(),
    }
}

#[test]
fn excludes_loopback() {
    let interfaces = vec![
        iface("lo", InterfaceType::Loopback, vec!["127.0.0.1"], vec![]),
        iface("eth0", InterfaceType::Ethernet, vec![], vec![]),
    ];
    let filtered = filter_interfaces(&interfaces);
    assert_eq!(filtered.len(), 1);
    assert_eq!(filtered[0].name, "eth0");
}

#[test]
fn excludes_tunnel() {
    let interfaces = vec![iface("tun0", InterfaceType::Tunnel, vec![], vec![])];
    assert!(filter_interfaces(&interfaces).is_empty());
}

#[test]
fn excludes_virtual_without_ips() {
    let interfaces = vec![iface("vmnet1", InterfaceType::ProprietaryVirtual, vec![], vec![])];
    assert!(filter_interfaces(&interfaces).is_empty());
}

#[test]
fn keeps_virtual_with_ips() {
    let interfaces = vec![iface(
        "bridge0",
        InterfaceType::ProprietaryVirtual,
        vec!["192.168.1.1"],
        vec![],
    )];
    assert_eq!(filter_interfaces(&interfaces).len(), 1);
}

#[test]
fn keeps_interface_with_only_ipv6() {
    let interfaces = vec![iface("some0", InterfaceType::Unknown, vec![], vec!["fd00::1"])];
    assert_eq!(filter_interfaces(&interfaces).len(), 1);
}

#[test]
fn keeps_physical_without_ips() {
    let interfaces = vec![iface("wlan0", InterfaceType::Wireless80211, vec![], vec![])];
    assert_eq!(filter_interfaces(&interfaces).len(), 1);
}

#[test]
fn keeps_unknown_with_ips() {
    let interfaces = vec![iface("eth1", InterfaceType::Unknown, vec!["10.0.0.5"], vec![])];
    assert_eq!(filter_interfaces(&interfaces).len(), 1);
}

#[test]
fn excludes_loopback_and_tunnel_even_with_ips() {
    let interfaces = vec![
        iface("lo", InterfaceType::Loopback, vec!["127.0.0.1"], vec!["::1"]),
        iface("tun0", InterfaceType::Tunnel, vec!["10.8.0.1"], vec![]),
    ];
    assert!(filter_interfaces(&interfaces).is_empty());
}

#[test]
fn keeps_order_and_names_of_kept_interfaces() {
    let interfaces = vec![
        iface("wlan0", InterfaceType::Wireless80211, vec![], vec![]),
        iface("lo", InterfaceType::Loopback, vec!["127.0.0.1"], vec![]),
        iface("docker0", InterfaceType::Bridge, vec!["172.17.0.1"], vec![]),
        iface("vbr", InterfaceType::Bridge, vec![], vec![]),
        iface("wwan0", InterfaceType::Wwanpp2, vec![], vec![]),
    ];
    let filtered = filter_interfaces(&interfaces);
    let names: Vec<&str> = filtered.iter().map(|i| i.name.as_str()).collect();
    assert_eq!(names, vec!["wlan0", "docker0", "wwan0"]);
}

#[test]
fn filtering_twice_changes_nothing() {
    let interfaces = vec![
        iface("eth0", InterfaceType::Ethernet, vec![], vec![]),
        iface("lo", InterfaceType::Loopback, vec![], vec![]),
        iface("x", InterfaceType::UnknownWithValue(53), vec![], vec!["fe80::1"]),
        iface("y", InterfaceType::Ppp, vec![], vec![]),
    ];
    let once = filter_interfaces(&interfaces);
    let twice = filter_interfaces(&once);
    assert_eq!(once.len(), 2);
    assert_eq!(twice.len(), once.len());
    for (a, b) in once.iter().zip(twice.iter()) {
        assert_eq!(a.name, b.name);
    }
}

#[test]
fn relevance_of_single_interfaces() {
    assert!(is_relevant_interface(&iface("g", InterfaceType::GigabitEthernet, vec![], vec![])));
    assert!(is_relevant_interface(&iface("f", InterfaceType::FastEthernetFx, vec![], vec![])));
    assert!(!is_relevant_interface(&iface("p", InterfaceType::Ppp, vec![], vec![])));
    assert!(is_relevant_interface(&iface("p", InterfaceType::Ppp, vec!["1.2.3.4"], vec![])));
}
