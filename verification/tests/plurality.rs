use chia_query::peer::plurality::{
    default_max_peers, CORROBORATION_FLOOR, PEAK_LAG_EVICTION, PEAK_LAG_TOLERANCE, PEER_LIFETIME,
    PRIORITY_SLOTS, QUORUM_SAMPLE,
};
use chia_query::address::IpAddr;
use chia_query::peer::connect::{priority_addresses_from, MAINNET_PORT};

#[test]
fn the_priority_slot_count_is_measured_against_the_dialler() {
    let worst_case = priority_addresses_from(Some(IpAddr::v4(203, 0, 113, 5)), MAINNET_PORT, &[]);
    assert_eq!(worst_case.len(), PRIORITY_SLOTS);
    assert_ne!(worst_case[0], worst_case[1]);
}

#[test]
fn the_loopback_occupies_a_priority_slot_even_with_nothing_configured() {
    assert_eq!(priority_addresses_from(None, MAINNET_PORT, &[]).len(), 1);
}

#[test]
fn the_default_pool_size_is_derived_from_the_sample_it_must_leave_standing() {
    assert_eq!(default_max_peers(), 8);
    assert_eq!(default_max_peers(), PRIORITY_SLOTS + 1 + QUORUM_SAMPLE + 1);
}

#[test]
fn a_full_pool_leaves_a_whole_sample_after_the_priority_and_followed_slots() {
    let corroborating = default_max_peers() - PRIORITY_SLOTS - 1;
    assert!(
        corroborating >= QUORUM_SAMPLE,
        "{corroborating} corroborators is below the sample of {QUORUM_SAMPLE}"
    );
}

#[test]
fn one_smaller_would_not_survive_a_rotation() {
    let corroborators_mid_rotation = |size: usize| size - 1 - PRIORITY_SLOTS - 1;
    assert!(corroborators_mid_rotation(default_max_peers()) >= QUORUM_SAMPLE);
    assert!(corroborators_mid_rotation(default_max_peers() - 1) < QUORUM_SAMPLE);
}

#[test]
fn the_bars_are_the_documented_ones() {
    assert_eq!(QUORUM_SAMPLE, 4);
    assert_eq!(CORROBORATION_FLOOR, 2);
    assert_eq!(PEAK_LAG_TOLERANCE, 3);
    assert_eq!(PEAK_LAG_EVICTION, 6);
    assert_eq!(PEER_LIFETIME, std::time::Duration::from_secs(300).as_nanos());
}
