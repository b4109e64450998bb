use chia_query::address::{IpAddr, SocketAddr};
use chia_query::peer::connect::{
    default_port, is_host_local, priority_addresses_from, Dial, DialAction, PeerOrigin,
    MAINNET_PORT, TESTNET11_PORT,
};
use chia_query::NetworkType;

const MAINNET: u16 = MAINNET_PORT;

fn localhost(port: u16) -> SocketAddr {
    SocketAddr::new(IpAddr::v4(127, 0, 0, 1), port)
}

#[test]
fn the_local_node_is_offered_when_it_is_not_already_held() {
    assert!(priority_addresses_from(None, MAINNET, &[]).contains(&localhost(MAINNET)));
}

#[test]
fn the_local_node_is_not_offered_again_once_it_is_held() {
    let held = [localhost(MAINNET)];
    assert!(
        !priority_addresses_from(None, MAINNET, &held).contains(&localhost(MAINNET)),
        "a held local node must not be offered again, or one address fills the pool"
    );
}

#[test]
fn exclusion_is_per_socket_address_not_per_host() {
    let held = [localhost(TESTNET11_PORT)];
    assert!(priority_addresses_from(None, MAINNET, &held).contains(&localhost(MAINNET)));
}

fn sock(ip: IpAddr) -> SocketAddr {
    SocketAddr::new(ip, MAINNET)
}

#[test]
fn every_family_of_local_address_is_refused_from_the_discovered_set() {
    for ip in [
        // 127.0.0.1
        IpAddr::v4(127, 0, 0, 1),
        // 127.13.1.9
        IpAddr::v4(127, 13, 1, 9),
        // ::1
        IpAddr::V6(1),
        // ::ffff:127.0.0.1
        IpAddr::V6(0x0000_0000_0000_0000_0000_ffff_7f00_0001),
        // 10.0.0.5
        IpAddr::v4(10, 0, 0, 5),
        // 192.168.1.7
        IpAddr::v4(192, 168, 1, 7),
        // 172.16.4.2
        IpAddr::v4(172, 16, 4, 2),
        // 169.254.169.254
        IpAddr::v4(169, 254, 169, 254),
        // fd00::1
        IpAddr::V6(0xfd00_0000_0000_0000_0000_0000_0000_0001),
        // fe80::1
        IpAddr::V6(0xfe80_0000_0000_0000_0000_0000_0000_0001),
        // 0.0.0.0
        IpAddr::v4(0, 0, 0, 0),
        // ::
        IpAddr::V6(0),
    ] {
        assert!(
            is_host_local(&sock(ip)),
            "{ip:?} is reachable only from this host or its LAN and must never be counted as an \
             independent voice"
        );
    }
}

#[test]
fn a_public_address_survives_the_local_filter() {
    for ip in [
        // 203.0.113.9
        IpAddr::v4(203, 0, 113, 9),
        // 8.8.8.8
        IpAddr::v4(8, 8, 8, 8),
        // 2001:db8::1
        IpAddr::V6(0x2001_0db8_0000_0000_0000_0000_0000_0001),
        // 2600::1
        IpAddr::V6(0x2600_0000_0000_0000_0000_0000_0000_0001),
        // ::ffff:203.0.113.9
        IpAddr::V6(0x0000_0000_0000_0000_0000_ffff_cb00_7109),
    ] {
        assert!(
            !is_host_local(&sock(ip)),
            "{ip:?} is an ordinary public peer and must remain dialable"
        );
    }
}

#[test]
fn the_edges_of_the_local_ranges_are_exact() {
    for (ip, local) in [
        (IpAddr::v4(172, 15, 255, 255), false),
        (IpAddr::v4(172, 31, 255, 255), true),
        (IpAddr::v4(172, 32, 0, 0), false),
        (IpAddr::v4(126, 255, 255, 255), false),
        (IpAddr::v4(128, 0, 0, 0), false),
        (IpAddr::v4(0, 0, 0, 1), false),
        (IpAddr::v4(255, 255, 255, 255), true),
        (IpAddr::v4(255, 255, 255, 254), false),
        (IpAddr::V6(0xfbff_ffff_ffff_ffff_ffff_ffff_ffff_ffff), false),
        (IpAddr::V6(0xfc00_0000_0000_0000_0000_0000_0000_0000), true),
        (IpAddr::V6(0xfdff_ffff_ffff_ffff_ffff_ffff_ffff_ffff), true),
        (IpAddr::V6(0xfe7f_ffff_ffff_ffff_ffff_ffff_ffff_ffff), false),
        (IpAddr::V6(0xfebf_ffff_ffff_ffff_ffff_ffff_ffff_ffff), true),
        (IpAddr::V6(0xfec0_0000_0000_0000_0000_0000_0000_0000), false),
        (IpAddr::V6(2), false),
    ] {
        assert_eq!(is_host_local(&sock(ip)), local, "{ip:?}");
    }
}

#[test]
fn the_trusted_node_comes_before_the_local_one() {
    let trusted = IpAddr::v4(198, 51, 100, 4);
    assert_eq!(
        priority_addresses_from(Some(trusted), MAINNET, &[]),
        vec![sock(trusted), localhost(MAINNET)]
    );
    assert_eq!(
        priority_addresses_from(Some(trusted), MAINNET, &[sock(trusted)]),
        vec![localhost(MAINNET)]
    );
}

#[test]
fn each_network_has_its_own_port() {
    assert_eq!(default_port(NetworkType::Mainnet), 8444);
    assert_eq!(default_port(NetworkType::Testnet11), 58444);
}

#[test]
fn preferred_addresses_are_dialled_before_any_are_looked_up() {
    let mut dial = Dial::start(NetworkType::Mainnet, None, vec![]);
    assert!(matches!(dial.action(), DialAction::TryPriority(a) if a == localhost(MAINNET)));
    assert_eq!(dial.origin(), Some(PeerOrigin::Priority));
    dial.attempt_failed();
    assert!(matches!(dial.action(), DialAction::LookUp));
    let public = sock(IpAddr::v4(203, 0, 113, 9));
    dial.looked_up(&[public, sock(IpAddr::v4(10, 0, 0, 5)), public]);
    assert!(matches!(dial.action(), DialAction::TryBatch(a) if a == vec![public]));
    assert_eq!(dial.origin(), Some(PeerOrigin::Discovered));
    dial.attempt_failed();
    assert!(matches!(dial.action(), DialAction::Fail));
    assert_eq!(dial.origin(), None);
}
