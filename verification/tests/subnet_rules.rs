//! CIDR parsing, validation, allocation, the registry, and detection.

use nfs4::subnet::{
    configure_subnet, configure_subnet_bsd, contains_ip, detect_existing_subnets,
    detect_existing_subnets_bsd, find_available_subnet, find_free_slot, is_subnet_available,
    leading_ones, parse_cidr, remove_subnet, validate_network, Ipv4Cidr, Subnet, SubnetError,
    SubnetRegistry,
};

fn net(addr: u32, prefix: u8) -> Ipv4Cidr {
    Ipv4Cidr { addr, prefix }
}

#[test]
fn cidr_parsing() {
    assert_eq!(parse_cidr("10.7.0.0/24"), Some(net(0x0A070000, 24)));
    assert_eq!(parse_cidr("127.0.0.1/32"), Some(net(0x7F000001, 32)));
    assert_eq!(parse_cidr("0.0.0.0/0"), Some(net(0, 0)));
    assert_eq!(parse_cidr("255.255.255.255/32"), Some(net(0xFFFFFFFF, 32)));
    assert_eq!(parse_cidr("not a cidr"), None);
    assert_eq!(parse_cidr("10.7.0.0"), None);
    assert_eq!(parse_cidr("10.7.0.256/24"), None);
    assert_eq!(parse_cidr("10.7.0.0/33"), None);
    assert_eq!(parse_cidr("10.07.0.0/24"), None);
    assert_eq!(parse_cidr("10.7.0.0/2 4"), None);
    assert_eq!(parse_cidr("10.7.0/24"), None);
}

#[test]
fn validation_boundaries() {
    // 10.0.0.0/24 is accepted.
    assert!(validate_network(&parse_cidr("10.0.0.0/24").unwrap()).is_ok());
    // 127.0.0.1/32 and 169.254.0.0/16 are rejected.
    assert!(validate_network(&parse_cidr("127.0.0.1/32").unwrap()).is_err());
    assert!(validate_network(&parse_cidr("169.254.0.0/16").unwrap()).is_err());
    // Outside the pool.
    assert!(validate_network(&parse_cidr("192.168.0.0/24").unwrap()).is_err());
    // Wider than the pool itself.
    assert!(validate_network(&parse_cidr("10.0.0.0/4").unwrap()).is_err());
}

#[test]
fn containment() {
    let n = net(0x0A070000, 24);
    assert!(contains_ip(&n, 0x0A070001));
    assert!(contains_ip(&n, 0x0A0700FF));
    assert!(!contains_ip(&n, 0x0A070100));
}

#[test]
fn availability_consults_host_addresses() {
    let n = parse_cidr("10.7.0.0/24").unwrap();
    assert_eq!(is_subnet_available(&n, &vec![0x0A080001]), Ok(true));
    assert_eq!(is_subnet_available(&n, &vec![0x0A070005]), Ok(false));
    let bad = parse_cidr("127.0.0.1/32").unwrap();
    assert_eq!(is_subnet_available(&bad, &vec![]), Err(SubnetError::InvalidNetwork));
}

#[test]
fn slot_allocation_and_exhaustion() {
    let mut used = vec![false; 255];
    assert_eq!(find_free_slot(&used), Some(0));
    used[0] = true;
    used[1] = true;
    assert_eq!(find_free_slot(&used), Some(2));
    // Every alias taken: the next allocation is refused.
    let all = vec![true; 255];
    assert_eq!(find_free_slot(&all), None);
}

#[test]
fn configure_names_the_first_free_interface() {
    let free = vec![false; 255];
    let s = configure_subnet("10.7.0.0/24".to_string(), &vec![], &free).unwrap();
    assert_eq!(s.cidr, "10.7.0.0/24");
    assert_eq!(s.interface, "dummy0");
    assert_eq!(s.network, net(0x0A070000, 24));

    let b = configure_subnet_bsd("10.9.0.0/24".to_string(), &vec![], &free).unwrap();
    assert_eq!(b.interface, "lo0:0");

    let mut used = vec![false; 255];
    used[0] = true;
    let s2 = configure_subnet("10.7.0.0/24".to_string(), &vec![], &used).unwrap();
    assert_eq!(s2.interface, "dummy1");
}

#[test]
fn configure_failures() {
    let free = vec![false; 255];
    assert!(matches!(
        configure_subnet("127.0.0.1/32".to_string(), &vec![], &free),
        Err(SubnetError::InvalidNetwork)
    ));
    assert!(matches!(
        configure_subnet("169.254.0.0/16".to_string(), &vec![], &free),
        Err(SubnetError::InvalidNetwork)
    ));
    assert!(matches!(
        configure_subnet("nonsense".to_string(), &vec![], &free),
        Err(SubnetError::InvalidNetwork)
    ));
    assert!(matches!(
        configure_subnet("10.7.0.0/24".to_string(), &vec![0x0A070009], &free),
        Err(SubnetError::AlreadyInUse)
    ));
    let all = vec![true; 255];
    assert!(matches!(
        configure_subnet("10.7.0.0/24".to_string(), &vec![], &all),
        Err(SubnetError::Exhausted)
    ));
}

#[test]
fn teardown_revalidates() {
    let good = Subnet {
        cidr: "10.7.0.0/24".to_string(),
        interface: "dummy0".to_string(),
        network: net(0x0A070000, 24),
    };
    assert!(remove_subnet(&good).is_ok());
    let corrupt = Subnet {
        cidr: "127.0.0.0/8".to_string(),
        interface: "lo0".to_string(),
        network: net(0x7F000000, 8),
    };
    assert!(remove_subnet(&corrupt).is_err());
}

#[test]
fn registry_insert_remove() {
    let mut reg = SubnetRegistry::new();
    let free = vec![false; 255];
    let s = configure_subnet("10.7.0.0/24".to_string(), &vec![], &free).unwrap();
    assert!(reg.insert(s.clone()).is_ok());
    assert_eq!(reg.len(), 1);
    assert!(reg.contains(&"10.7.0.0/24".to_string()));
    // A second registration of the same CIDR is refused.
    assert!(matches!(reg.insert(s), Err(SubnetError::AlreadyInUse)));
    // An invalid record never enters the registry.
    let corrupt = Subnet {
        cidr: "127.0.0.0/8".to_string(),
        interface: "lo0".to_string(),
        network: net(0x7F000000, 8),
    };
    assert!(matches!(reg.insert(corrupt), Err(SubnetError::InvalidNetwork)));
    // Removal returns the record and forgets the CIDR.
    let removed = reg.remove(&"10.7.0.0/24".to_string()).unwrap();
    assert_eq!(removed.cidr, "10.7.0.0/24");
    assert_eq!(reg.len(), 0);
    assert!(!reg.contains(&"10.7.0.0/24".to_string()));
    assert!(matches!(
        reg.remove(&"10.7.0.0/24".to_string()),
        Err(SubnetError::NotFound)
    ));
}

#[test]
fn detection_scans_dummy_interfaces() {
    let lines: Vec<String> = [
        "1: lo: <LOOPBACK,UP,LOWER_UP> mtu 65536",
        "    inet 127.0.0.1/8 scope host lo",
        "3: dummy0: <BROADCAST,NOARP> mtu 1500",
        "    inet 10.7.0.0/24",
        "    inet6 fe80::1/64 scope link",
        "5: dummy1: <BROADCAST,NOARP> mtu 1500",
        "    inet 10.8.0.0/24",
        "    inet 192.168.9.1/24",
    ]
    .iter()
    .map(|s| s.to_string())
    .collect();
    let found = detect_existing_subnets(&lines);
    assert_eq!(found.len(), 2);
    assert_eq!(found[0].cidr, "10.7.0.0/24");
    assert_eq!(found[0].interface, "dummy0");
    assert_eq!(found[0].network, net(0x0A070000, 24));
    assert_eq!(found[1].cidr, "10.8.0.0/24");
    assert_eq!(found[1].interface, "dummy1");
}

#[test]
fn detection_ignores_addresses_without_a_dummy() {
    let lines: Vec<String> = [
        "2: eth0: <BROADCAST,MULTICAST,UP>",
        "    inet 10.3.0.1/24 scope global eth0",
    ]
    .iter()
    .map(|s| s.to_string())
    .collect();
    assert!(detect_existing_subnets(&lines).is_empty());
}

#[test]
fn free_block_search() {
    assert_eq!(
        find_available_subnet(&vec![]),
        Some((0x0A000001, 0xFFFFFF00, 0x0A0000FF))
    );
    // 10.0.0.7 occupies the first block; the next one is offered.
    assert_eq!(
        find_available_subnet(&vec![0x0A000007]),
        Some((0x0A010001, 0xFFFFFF00, 0x0A0100FF))
    );
}

#[test]
fn detection_on_loopback_aliases() {
    let lines: Vec<String> = [
        "lo0: flags=8049<UP,LOOPBACK,RUNNING,MULTICAST> mtu 16384",
        "\tinet 127.0.0.1 netmask 0xff000000",
        "\tinet 10.7.0.0 netmask 0xffffff00",
        "\tinet 192.168.3.1 netmask 0xffffff00",
        "\tinet6 ::1 prefixlen 128",
    ]
    .iter()
    .map(|s| s.to_string())
    .collect();
    let found = detect_existing_subnets_bsd(&lines);
    assert_eq!(found.len(), 1);
    assert_eq!(found[0].cidr, "10.7.0.0/24");
    assert_eq!(found[0].interface, "lo0");
    assert_eq!(found[0].network, net(0x0A070000, 24));
}

#[test]
fn netmask_prefix_lengths() {
    assert_eq!(leading_ones(0x00000000), 0);
    assert_eq!(leading_ones(0xFF000000), 8);
    assert_eq!(leading_ones(0xFFFFFF00), 24);
    assert_eq!(leading_ones(0xFFFFFFFF), 32);
    // Ones below a zero bit are not leading.
    assert_eq!(leading_ones(0xFF0000FF), 8);
}
