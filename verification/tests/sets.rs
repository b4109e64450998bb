use chia_query::address::{IpAddr, SocketAddr};
use chia_query::peer::backend::PeerBackend;
use chia_query::peer::connect::PeerOrigin;
use chia_query::peer::corroboration::{corroborate_set, SetVoice};
use chia_query::peer::pool::CorroborationReadiness;
use chia_query::peer::reads::Reply;
use chia_query::peer::set_agreement::{
    as_of_is_supported, common_height, contradiction, fingerprint, normalise_at, project,
    HeightedSet, SetAnswer, SetProjection, SETTLED_LAG,
};
use chia_query::peer::walk::{parse_ids, PuzzleStateWalk};
use chia_query::protocol::{Bytes32, CoinState, PuzzleStatePage};
use chia_query::types::{ChiaQueryError, Coin, CoinRecord};
use chia_query::{protocol, NetworkType};

fn address(octet: u8) -> SocketAddr {
    SocketAddr::new(IpAddr::v4(203, 0, 113, octet), 8444)
}

fn record(amount: u64, confirmed: u32, spent: u32) -> CoinRecord {
    CoinRecord {
        coin: Coin {
            parent_coin_info: "0x01".to_string(),
            puzzle_hash: "0x02".to_string(),
            amount,
        },
        confirmed_block_index: confirmed,
        spent_block_index: spent,
        spent: spent > 0,
        coinbase: false,
        timestamp: 0,
    }
}

fn held(items: Vec<CoinRecord>, as_of_height: u32) -> HeightedSet<CoinRecord> {
    HeightedSet { items, as_of_height }
}

fn voice(octet: u8, set: Option<HeightedSet<CoinRecord>>) -> SetVoice {
    SetVoice { address: address(octet), name: format!("p{octet}"), set }
}

const EVERYTHING: SetProjection =
    SetProjection { start_height: None, end_height: None, include_spent: true };
const ARMED: CorroborationReadiness = CorroborationReadiness::Armed { corroborators: 2 };

#[test]
fn sources_are_compared_below_all_of_them() {
    assert_eq!(SETTLED_LAG, 3);
    assert_eq!(common_height(&[], None), None);
    assert_eq!(common_height(&[2], None), None);
    assert_eq!(common_height(&[3], None), Some(0));
    assert_eq!(common_height(&[100, 90, 95], None), Some(87));
    assert_eq!(common_height(&[100, 90, 95], Some(50)), Some(50));
    assert_eq!(common_height(&[100, 90, 95], Some(500)), Some(87));
}

#[test]
fn an_as_of_height_is_held_to_the_announced_peak_on_both_sides() {
    for (announced, as_of, supported) in [
        (Some(100), 97, true),
        (Some(100), 96, false),
        (Some(100), 103, true),
        (Some(100), 104, false),
        (None, 0, false),
    ] {
        assert_eq!(as_of_is_supported(announced, as_of), supported);
    }
}

#[test]
fn a_set_is_taken_back_to_a_height() {
    let records = [record(1, 10, 0), record(2, 10, 30), record(3, 30, 0), record(4, 10, 20)];
    assert_eq!(
        normalise_at(&records, 20),
        vec![record(1, 10, 0), record(2, 10, 0), record(4, 10, 20)]
    );
}

#[test]
fn a_one_sided_claim_is_a_contradiction() {
    let a = fingerprint(&[record(1, 10, 0), record(2, 10, 0)]);
    let b = fingerprint(&[record(2, 10, 0), record(1, 10, 0)]);
    assert_eq!(contradiction("a", &a, "b", &b), None);
    let c = fingerprint(&[record(1, 10, 0)]);
    assert_eq!(
        contradiction("a", &a, "c", &c).as_deref(),
        Some("a reports `0x01/0x02/2 confirmed 10 spent 0`, c does not")
    );
    assert_eq!(contradiction("c", &c, "a", &a), contradiction("a", &a, "c", &c));
}

#[test]
fn the_caller_sees_the_window_it_asked_for() {
    let records = || vec![record(1, 9, 0), record(2, 10, 0), record(3, 19, 25), record(4, 20, 0)];
    let window = SetProjection {
        start_height: Some(10),
        end_height: Some(20),
        include_spent: true,
    };
    assert_eq!(project(records(), window), vec![record(2, 10, 0), record(3, 19, 25)]);
    let unspent = SetProjection { include_spent: false, ..window };
    assert_eq!(project(records(), unspent), vec![record(2, 10, 0)]);
}

#[test]
fn a_set_held_by_a_floor_of_peers_is_corroborated() {
    let items = || vec![record(1, 10, 0), record(2, 10, 0)];
    // The peers are a block apart, and one has seen a coin the others have not.
    let ahead = vec![record(1, 10, 0), record(2, 10, 101), record(3, 101, 0)];
    let voices = [voice(2, Some(held(ahead, 101))), voice(3, Some(held(items(), 100)))];
    assert_eq!(
        corroborate_set("p1", ARMED, held(items(), 100), &voices, EVERYTHING),
        Ok(SetAnswer::Corroborated { items: items(), as_of_height: 97 })
    );
}

#[test]
fn a_set_too_few_peers_hold_is_not_corroborated() {
    let items = || vec![record(1, 10, 0)];
    let voices = [voice(2, Some(held(items(), 100))), voice(3, None)];
    assert_eq!(
        corroborate_set("p1", ARMED, held(items(), 100), &voices, EVERYTHING),
        Ok(SetAnswer::Uncorroborated { items: items(), as_of_height: 97 })
    );
}

#[test]
fn a_set_another_peer_contradicts_is_refused() {
    let voices = [voice(2, Some(held(vec![], 100)))];
    assert_eq!(
        corroborate_set("p1", ARMED, held(vec![record(1, 10, 0)], 100), &voices, EVERYTHING),
        Err(ChiaQueryError::SourcesDisagree(
            "at height 97: peer p1 reports `0x01/0x02/1 confirmed 10 spent 0`, peer p2 does not"
                .to_string()
        ))
    );
}

#[test]
fn sources_that_have_settled_nothing_cannot_be_compared() {
    let voices = [voice(2, Some(held(vec![], 2)))];
    assert_eq!(
        corroborate_set("p1", ARMED, held(vec![], 100), &voices, EVERYTHING),
        Err(ChiaQueryError::UncorroboratedPresence(
            "no settled common height exists for the sources that answered ([100, 2])".to_string()
        ))
    );
}

#[test]
fn a_peer_that_sends_no_set_is_dropped() {
    let mut backend = PeerBackend::new(NetworkType::Mainnet, 3);
    for octet in 1..=3u8 {
        backend
            .pool
            .admit_and_follow((), address(octet), PeerOrigin::Discovered, 0)
            .expect("admitted");
    }
    let question = backend.put().expect("peers are held");
    assert_eq!(question.asked, address(1));
    let round = backend
        .open_set_round(question, Ok(held(vec![], 100)))
        .expect("the first peer answered");
    assert_eq!(round.readiness, ARMED);
    assert_eq!(round.others, vec![address(2), address(3)]);
    let voices = vec![voice(2, Some(held(vec![], 100))), voice(3, None)];
    let graded = backend.read_set_corroborated("p1", round, voices, EVERYTHING);
    assert_eq!(graded, Ok(SetAnswer::Uncorroborated { items: vec![], as_of_height: 97 }));
    assert_eq!(backend.pool.held_addresses(), vec![address(1), address(2)]);
}

fn state(seed: u8) -> CoinState {
    CoinState {
        coin: protocol::Coin {
            parent_coin_info: Bytes32::new([seed; 32]),
            puzzle_hash: Bytes32::new([seed; 32]),
            amount: seed as u64,
        },
        created_height: Some(1),
        spent_height: None,
    }
}

fn page(seeds: &[u8], height: u32, is_finished: bool) -> PuzzleStatePage {
    PuzzleStatePage {
        coin_states: seeds.iter().map(|s| state(*s)).collect(),
        height,
        header_hash: Bytes32::new([height as u8; 32]),
        is_finished,
    }
}

#[test]
fn a_walk_keeps_every_coin_and_goes_on_where_it_stopped() {
    let mut walk = PuzzleStateWalk::start(Bytes32::new([0xFE; 32]));
    assert_eq!(walk.position(), (None, Bytes32::new([0xFE; 32])));
    assert_eq!(walk.page(Reply::Answered(page(&[1, 2], 10, false))), Ok(None));
    assert_eq!(walk.position(), (Some(10), Bytes32::new([10; 32])));
    assert_eq!(walk.page(Reply::Answered(page(&[3], 20, true))), Ok(Some(20)));
    let set = walk.settle(20, Some(21), "p1").expect("the peak supports it");
    assert_eq!(set.as_of_height, 20);
    let amounts: Vec<u64> = set.items.iter().map(|r| r.coin.amount).collect();
    assert_eq!(amounts, vec![1, 2, 3]);
}

#[test]
fn a_walk_its_peak_does_not_support_is_refused() {
    let told = |announced: Option<u32>| {
        let mut walk = PuzzleStateWalk::start(Bytes32::new([0xFE; 32]));
        walk.page(Reply::Answered(page(&[1], 20, true))).expect("answered");
        match walk.settle(20, announced, "p1") {
            Err(ChiaQueryError::PeerRejection(text)) => text,
            other => panic!("{other:?}"),
        }
    };
    assert!(told(Some(24)).starts_with("peer p1 answered as of height 20, which its own"));
    assert!(told(Some(24)).contains("24"));
    assert!(told(None).ends_with("does not support"));
}

#[test]
fn ids_are_read_up_to_the_first_malformed_one() {
    let good = format!("0x{}", "07".repeat(32));
    assert_eq!(parse_ids(&[good.clone()]), Ok(vec![Bytes32::new([7; 32])]));
    assert_eq!(
        parse_ids(&[good, "0x07".to_string(), "zz".to_string()]),
        Err(ChiaQueryError::InvalidRequest("not 32 bytes: 0x07".to_string()))
    );
}

#[test]
fn a_walk_asks_for_spent_coins_and_fails_with_its_peer() {
    for include_hinted in [false, true] {
        let filters = PuzzleStateWalk::filters(include_hinted);
        assert!(filters.include_spent);
        assert!(filters.include_unspent);
        assert_eq!(filters.include_hinted, include_hinted);
        assert_eq!(filters.min_amount, 0);
    }
    let mut walk = PuzzleStateWalk::start(Bytes32::new([0xFE; 32]));
    assert_eq!(
        walk.page(Reply::Rejected),
        Err(ChiaQueryError::PeerRejection("puzzle state request rejected".to_string()))
    );
    assert_eq!(walk.position(), (None, Bytes32::new([0xFE; 32])));
}

#[test]
fn only_the_peers_of_a_round_are_heard_on_a_set_and_each_once() {
    let graded = |octets: &[u8]| {
        let mut backend = PeerBackend::new(NetworkType::Mainnet, 3);
        for octet in 1..=3u8 {
            backend
                .pool
                .admit_and_follow((), address(octet), PeerOrigin::Discovered, 0)
                .expect("admitted");
        }
        let question = backend.put().expect("peers are held");
        let round = backend
            .open_set_round(question, Ok(held(vec![record(1, 5, 0)], 100)))
            .expect("the first peer answered");
        let voices =
            octets.iter().map(|o| voice(*o, Some(held(vec![record(1, 5, 0)], 100)))).collect();
        backend.read_set_corroborated("p1", round, voices, EVERYTHING).expect("all agree")
    };
    assert!(matches!(graded(&[2, 3]), SetAnswer::Corroborated { .. }));
    for octets in [[1, 1], [2, 2], [1, 2], [2, 9]] {
        assert!(matches!(graded(&octets), SetAnswer::Uncorroborated { .. }));
    }
}
