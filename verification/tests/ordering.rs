use std::collections::HashSet;

use chia_query::address::{IpAddr, SocketAddr};
use chia_query::peer::ordering::{candidate_order, order_candidates, MAX_DISCOVERED_CANDIDATES};

fn v4(last: u8) -> SocketAddr {
    SocketAddr::new(IpAddr::v4(203, 0, 113, last), 8444)
}

fn v6(seg: u16) -> SocketAddr {
    SocketAddr::new(IpAddr::V6(0x2001_0db8_0000_0000_0000_0000_0000_0000 + seg as u128), 8444)
}

#[test]
fn every_ipv6_candidate_is_dialled_before_any_ipv4_one() {
    let mixed = vec![v4(1), v6(1), v4(2), v6(2), v4(3)];
    let ordered = candidate_order(&mixed);

    let first_v4 = ordered
        .iter()
        .position(|a| a.is_ipv4())
        .expect("the fixture holds IPv4 candidates");
    let last_v6 = ordered
        .iter()
        .rposition(|a| a.is_ipv6())
        .expect("the fixture holds IPv6 candidates");
    assert!(
        last_v6 < first_v4,
        "IPv6 must be preferred over IPv4: {ordered:?}"
    );
}

#[test]
fn a_duplicate_address_is_removed_even_when_the_duplicates_are_not_adjacent() {
    const ROUNDS: usize = 32;
    let with_repeats = vec![v6(1), v4(1), v6(2), v6(1), v4(2), v4(1), v6(3), v6(1)];

    for round in 0..ROUNDS {
        let ordered = candidate_order(&with_repeats);

        let distinct: HashSet<SocketAddr> = ordered.iter().copied().collect();
        assert_eq!(
            ordered.len(),
            distinct.len(),
            "round {round}: a candidate must be offered at most once, however the duplicates were spread: {ordered:?}"
        );
        assert_eq!(
            distinct.len(),
            5,
            "round {round}: the five distinct addresses must all survive: {ordered:?}"
        );
    }
}

#[test]
fn distinct_candidates_all_survive_ordering() {
    let all_distinct = vec![v6(1), v6(2), v4(1), v4(2)];
    let ordered = candidate_order(&all_distinct);
    assert_eq!(ordered.len(), 4);
    assert_eq!(
        ordered.iter().copied().collect::<HashSet<_>>(),
        all_distinct.iter().copied().collect::<HashSet<_>>()
    );
}

#[test]
fn a_local_address_is_not_preferred_over_a_public_one_of_the_same_family() {
    let v6_lo = SocketAddr::new(IpAddr::V6(1), 8444);
    let v4_lo = SocketAddr::new(IpAddr::v4(127, 0, 0, 1), 8444);

    assert_eq!(
        order_candidates(&[v6(1), v6_lo, v4(1), v4_lo]),
        vec![v6(1), v6_lo, v4(1), v4_lo],
        "family orders the candidates; locality must not reorder them"
    );
}

#[test]
fn ipv6_precedes_ipv4_for_loopback_too() {
    let v6_lo = SocketAddr::new(IpAddr::V6(1), 8444);
    let v4_lo = SocketAddr::new(IpAddr::v4(127, 0, 0, 1), 8444);
    assert_eq!(order_candidates(&[v4_lo, v6_lo]), vec![v6_lo, v4_lo]);
}

#[test]
fn an_oversized_discovered_set_is_capped() {
    let flood: Vec<SocketAddr> = (0..500u16).map(v6).collect();
    let ordered = candidate_order(&flood);

    assert_eq!(
        ordered.len(),
        MAX_DISCOVERED_CANDIDATES,
        "a round must consider a bounded number of candidates, not whatever DNS returned"
    );
}

#[test]
fn a_set_within_the_cap_is_not_truncated() {
    for n in [1usize, 4, MAX_DISCOVERED_CANDIDATES] {
        let modest: Vec<SocketAddr> = (0..n as u16).map(v6).collect();
        assert_eq!(
            candidate_order(&modest).len(),
            n,
            "a set of {n} is within the cap and must survive whole"
        );
    }
}

#[test]
fn the_cap_samples_uniformly_rather_than_taking_the_head_of_the_list() {
    let listed: Vec<SocketAddr> = (0..200u16).map(v6).collect();
    let tail = &listed[MAX_DISCOVERED_CANDIDATES..];

    let surfaced_a_tail_address = (0..200).any(|_| {
        let ordered = candidate_order(&listed);
        ordered.iter().any(|addr| tail.contains(addr))
    });

    assert!(
        surfaced_a_tail_address,
        "no address beyond the first {MAX_DISCOVERED_CANDIDATES} was EVER dialled across 200 draws, so the cap is taking the head of the introducer's list rather than a sample"
    );
}

#[test]
fn the_cap_preserves_the_ipv6_first_ordering() {
    let mut mixed: Vec<SocketAddr> = (0..100u16).map(v6).collect();
    mixed.extend((0..100u8).map(v4));

    let ordered = candidate_order(&mixed);
    assert_eq!(ordered.len(), MAX_DISCOVERED_CANDIDATES);

    if let (Some(first_v4), Some(last_v6)) = (
        ordered.iter().position(|a| a.is_ipv4()),
        ordered.iter().rposition(|a| a.is_ipv6()),
    ) {
        assert!(
            last_v6 < first_v4,
            "IPv6 must still precede IPv4 after the cap: {ordered:?}"
        );
    }
}
