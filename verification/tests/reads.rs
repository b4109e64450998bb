use chia_query::address::{IpAddr, SocketAddr};
use chia_query::json::Value;
use chia_query::peer::backend::PeerBackend;
use chia_query::peer::connect::PeerOrigin;
use chia_query::peer::reads::{
    additions_and_removals, anchor_to_peak, block_record, block_record_opt, children, coin_record,
    coin_record_opt, coin_records, coin_spend, coin_spend_opt, peer_as_of, receive, spent_coin,
    RangeRead, Reply, Response, SpendRead, SpendStep,
};
use chia_query::protocol::{Bytes32, Coin, CoinState, PuzzleSolution};
use chia_query::types::{BlockRecord, ChiaQueryError, MempoolInclusion};
use chia_query::NetworkType;

fn coin(seed: u8) -> Coin {
    Coin {
        parent_coin_info: Bytes32::new([seed; 32]),
        puzzle_hash: Bytes32::new(clvm_utils::tree_hash_atom(&[1]).to_bytes()),
        amount: 1,
    }
}

fn state(seed: u8, spent_height: Option<u32>) -> CoinState {
    CoinState { coin: coin(seed), created_height: Some(10), spent_height }
}

fn rejection(text: &str) -> ChiaQueryError {
    ChiaQueryError::PeerRejection(text.to_string())
}

fn failure(text: &str) -> ChiaQueryError {
    ChiaQueryError::PeerConnection(text.to_string())
}

#[test]
fn an_unknown_coin_is_an_absence_or_an_error_as_the_caller_asks() {
    let unknown = || Reply::Answered(vec![]);
    assert_eq!(coin_record_opt(unknown()), Ok(None));
    assert_eq!(coin_record(unknown()), Err(rejection("coin not found")));
    assert_eq!(
        coin_record_opt(Reply::Rejected),
        Err(rejection("coin state request rejected"))
    );
    assert_eq!(coin_record_opt(Reply::TimedOut), Err(failure("request timed out")));
    assert_eq!(
        coin_record_opt(Reply::Failed("reset".to_string())),
        Err(failure("reset"))
    );
    let record = coin_record(Reply::Answered(vec![state(1, Some(12))])).expect("known");
    assert_eq!(record.spent_block_index, 12);
}

#[test]
fn lists_are_taken_whole_and_in_order() {
    let states = || vec![state(1, None), state(2, Some(5))];
    let records = coin_records(Reply::Answered(states())).expect("answered");
    assert_eq!(records.len(), 2);
    assert!(records[1].spent);
    assert_eq!(children(Response::Answered(states())), Ok(records));
    assert_eq!(children(Response::TimedOut), Err(failure("request timed out")));
    assert_eq!(receive::<u8>(Response::Failed("x".to_string())), Err(failure("x")));
}

#[test]
fn an_answer_without_a_height_is_held_to_the_announced_peak() {
    let no_peak = "peer has announced no peak, so its answer cannot be held to a height";
    let set = anchor_to_peak(Ok(vec![]), Some(7)).expect("announced");
    assert_eq!(set.as_of_height, 7);
    assert_eq!(anchor_to_peak(Ok(vec![]), None), Err(failure(no_peak)));
    assert_eq!(anchor_to_peak(Err(rejection("x")), Some(7)), Err(rejection("x")));
    assert_eq!(peer_as_of(Some(3)), Ok(3));
}

fn named(c: Coin) -> String {
    format!("0x{}", hex::encode(c.coin_id().bytes))
}

fn done(height: Option<u32>, reply: Reply<Vec<CoinState>>) -> Result<bool, ChiaQueryError> {
    let read = SpendRead::start(&named(coin(1)), height).expect("an id");
    match read.found(reply) {
        SpendStep::Done(Ok(spend)) => Ok(spend.is_some()),
        SpendStep::Done(Err(e)) => Err(e),
        SpendStep::Ask(_) => panic!("the read goes on"),
    }
}

#[test]
fn only_a_spent_coin_has_a_spend_to_ask_for() {
    assert_eq!(done(None, Reply::Answered(vec![state(1, None)])), Ok(false));
    assert_eq!(done(None, Reply::Answered(vec![])), Ok(false));
    assert_eq!(done(Some(5), Reply::Answered(vec![])), Ok(false));
    assert_eq!(done(None, Reply::Rejected), Err(rejection("coin state rejected")));
    assert_eq!(
        spent_coin(Reply::Answered(vec![state(1, None)])),
        Err(rejection("coin is not spent"))
    );
    assert_eq!(spent_coin(Reply::Answered(vec![])), Err(rejection("coin not found")));
    assert!(SpendRead::start("0x01", None).is_err());
}

#[test]
fn a_spend_is_asked_for_at_the_height_named_or_at_the_one_the_peer_tells() {
    let c = coin(1);
    for (named_height, told, asked) in [(None, Some(5), 5), (Some(7), Some(5), 7), (Some(7), None, 7)]
    {
        let read = SpendRead::start(&named(c), named_height).expect("an id");
        assert_eq!(read.id(), c.coin_id());
        let SpendStep::Ask(next) = read.found(Reply::Answered(vec![state(1, told)])) else {
            panic!("the coin is known");
        };
        assert_eq!((next.id(), next.height()), (c.coin_id(), asked));
        let spend = next.finish(solution(c.coin_id(), vec![1])).expect("it unlocks the coin");
        assert_eq!(spend.map(|s| (s.puzzle_reveal, s.coin.amount)), Some(("0x01".to_string(), 1)));
    }
}

fn solution(name: Bytes32, puzzle: Vec<u8>) -> Reply<PuzzleSolution> {
    Reply::Answered(PuzzleSolution { coin_name: name, puzzle, solution: vec![0x80] })
}

#[test]
fn a_spend_is_bound_to_the_coin_that_was_asked_for() {
    let c = coin(1);
    let id = c.coin_id();
    let spend = coin_spend(&c, &id, "0x01", solution(id, vec![1])).expect("it unlocks the coin");
    assert_eq!(spend.puzzle_reveal, "0x01");
    assert_eq!(spend.solution, "0x80");

    let other = coin(2).coin_id();
    let told = format!(
        "peer answered about coin 0x{} when asked about 0x01",
        hex::encode(other.bytes)
    );
    assert_eq!(
        coin_spend(&c, &id, "0x01", solution(other, vec![1])),
        Err(rejection(&told))
    );
    assert!(coin_spend(&c, &id, "0x01", solution(id, vec![0x80])).is_err());
    assert_eq!(
        coin_spend(&c, &id, "0x01", Reply::Rejected),
        Err(rejection("puzzle solution rejected"))
    );
    assert_eq!(coin_spend_opt(&c, &id, "0x01", Reply::Rejected), Ok(None));
    assert_eq!(
        coin_spend_opt(&c, &id, "0x01", Reply::TimedOut),
        Err(failure("request timed out"))
    );
}

#[test]
fn a_refused_header_is_an_absence_or_an_error_as_the_caller_asks() {
    let record = || BlockRecord {
        header_hash: "0xaa".to_string(),
        height: 3,
        weight: 1,
        prev_hash: "0xbb".to_string(),
        total_iters: 2,
        signage_point_index: 3,
        farmer_puzzle_hash: "0xcc".to_string(),
        pool_puzzle_hash: "0xdd".to_string(),
        timestamp: None,
        fees: None,
        extra: Value::Null,
    };
    assert_eq!(block_record(Reply::Answered(record())), Ok(record()));
    assert_eq!(block_record_opt(Reply::Rejected), Ok(None));
    assert_eq!(
        block_record(Reply::Rejected),
        Err(rejection("header request rejected"))
    );
}

#[test]
fn a_failure_of_the_additions_is_reported_before_one_of_the_removals() {
    let hash = Bytes32::new([7; 32]);
    let additions =
        vec![(hash, vec![coin(1), coin(3)]), (hash, vec![]), (hash, vec![coin(4)])];
    let removals = vec![(hash, None), (hash, Some(coin(2))), (hash, None)];
    let listed = additions_and_removals(Reply::Answered(additions), Reply::Answered(removals), 9)
        .expect("both answered");
    let parent = |seed: u8| format!("0x{}", hex::encode([seed; 32]));
    let parents: Vec<String> =
        listed.additions.iter().map(|r| r.coin.parent_coin_info.clone()).collect();
    assert_eq!(parents, vec![parent(1), parent(3), parent(4)]);
    assert_eq!(listed.additions[0].confirmed_block_index, 9);
    assert_eq!(listed.removals.len(), 1);
    assert_eq!(listed.removals[0].coin.parent_coin_info, parent(2));
    assert_eq!(listed.removals[0].spent_block_index, 9);
    assert_eq!(
        additions_and_removals(Reply::Rejected, Reply::TimedOut, 9),
        Err(rejection("additions rejected"))
    );
    assert_eq!(
        additions_and_removals(Reply::Answered(vec![]), Reply::TimedOut, 9),
        Err(failure("removals request timed out"))
    );
}

fn address() -> SocketAddr {
    SocketAddr::new(IpAddr::v4(203, 0, 113, 1), 8444)
}

fn backend() -> PeerBackend<()> {
    let mut backend = PeerBackend::new(NetworkType::Mainnet, 2);
    backend
        .pool
        .admit_and_follow((), address(), PeerOrigin::Discovered, 0)
        .expect("admitted");
    backend
}

#[test]
fn a_peer_that_fails_a_read_is_dropped_and_one_that_answers_is_kept() {
    let mut b = backend();
    assert!(b
        .try_get_coin_record_by_name(address(), Reply::Answered(vec![state(1, None)]))
        .is_ok());
    assert_eq!(b.peer_count(), 1);
    assert_eq!(
        b.try_get_coin_record_by_name(address(), Reply::Answered(vec![])),
        Err(rejection("coin not found"))
    );
    assert_eq!(b.peer_count(), 0);

    let mut b = backend();
    assert!(b.try_get_block_record_by_height(address(), Reply::TimedOut).is_err());
    assert!(!b.has_peers());

    let mut b = backend();
    let status = b
        .try_push_tx(address(), Response::Answered((2, Some("held".to_string()))))
        .expect("acknowledged");
    assert_eq!(status.inclusion, MempoolInclusion::NotAdmitted);
    assert_eq!(b.peer_count(), 1);
    assert!(b.try_push_tx(address(), Response::TimedOut).is_err());
    assert_eq!(b.peer_count(), 0);
}

#[test]
fn a_malformed_id_costs_the_peer_that_was_picked_for_it() {
    let mut b = backend();
    let good = format!("0x{}", "07".repeat(32));
    assert_eq!(b.requested_id(address(), &good), Ok(Bytes32::new([7; 32])));
    assert_eq!(
        b.requested_ids(address(), &[good.clone(), good.clone()]),
        Ok(vec![Bytes32::new([7; 32]); 2])
    );
    assert_eq!(b.peer_count(), 1);
    assert!(b.requested_ids(address(), &[good, "0x07".to_string()]).is_err());
    assert_eq!(b.peer_count(), 0);
}

#[test]
fn the_networks_have_their_own_constants() {
    let main = PeerBackend::<()>::new(NetworkType::Mainnet, 1);
    let test = PeerBackend::<()>::new(NetworkType::Testnet11, 1);
    assert_eq!(
        main.genesis_challenge().bytes,
        chia_wallet_sdk::types::MAINNET_CONSTANTS.genesis_challenge.to_bytes()
    );
    assert_eq!(
        test.genesis_challenge().bytes,
        chia_wallet_sdk::types::TESTNET11_CONSTANTS.genesis_challenge.to_bytes()
    );
    assert_ne!(main.genesis_challenge(), test.genesis_challenge());
    assert_eq!(
        main.aggsig_additional_data(),
        "0xccd5bb71183532bff220ba46c268991a3ff07eb358e8255a65c30a2dce0e5fbb"
    );
    assert_eq!(main.network_info().network_name, "mainnet");
    assert_eq!(main.network_info().network_prefix, "xch");
    assert_eq!(test.network_info().network_prefix, "txch");
}

#[test]
fn a_range_is_read_height_by_height_up_to_its_end() {
    let mut range = RangeRead::start(5, 8);
    let mut asked = vec![];
    while let Some(height) = range.next() {
        asked.push(height);
        range = range.take(Ok(height * 10)).expect("read");
    }
    assert_eq!(asked, vec![5, 6, 7]);
    assert_eq!(range.finish(), vec![50, 60, 70]);

    assert_eq!(RangeRead::<u8>::start(5, 5).next(), None);
    let failed = RangeRead::<u8>::start(5, 8).take(Err(failure("x")));
    assert_eq!(failed.err(), Some(failure("x")));
}

#[test]
fn a_second_attempt_is_made_on_another_peer() {
    let mut b = PeerBackend::new(NetworkType::Mainnet, 3);
    for octet in 1..=3u8 {
        let at = SocketAddr::new(IpAddr::v4(203, 0, 113, octet), 8444);
        b.pool.admit_and_follow((), at, PeerOrigin::Discovered, 0).expect("admitted");
    }
    for _ in 0..7 {
        let asked = b.pick().expect("peers are held");
        let failed: Result<(), ChiaQueryError> = b.keep_or_eject(asked, Err(failure("x")));
        assert!(failed.is_err());
        assert_ne!(b.pick().expect("peers are held"), asked);
        b.pool.admit_and_follow((), asked, PeerOrigin::Discovered, 0).expect("admitted again");
    }
}

#[test]
fn a_peer_that_answers_a_spend_read_wrongly_is_dropped() {
    let c = coin(1);
    let id = c.coin_id();
    let spent = || CoinState { coin: c, spent_height: Some(6), created_height: Some(1) };
    let mut b = backend();
    let read = b
        .try_get_puzzle_and_solution_auto(address(), id, "0x01", Reply::Answered(vec![spent()]))
        .unwrap_or_else(|_| panic!("the coin is spent"));
    assert_eq!((read.id(), read.height()), (id, 6));
    let spend = b.finish_puzzle_and_solution_auto(address(), read, solution(id, vec![1]));
    assert_eq!(spend.map(|s| s.puzzle_reveal), Ok("0x01".to_string()));
    assert_eq!(b.peer_count(), 1);
    let read = b
        .try_get_puzzle_and_solution_auto(address(), id, "0x01", Reply::Answered(vec![spent()]))
        .unwrap_or_else(|_| panic!("the coin is spent"));
    assert_eq!(
        b.finish_puzzle_and_solution_auto(address(), read, Reply::Rejected),
        Err(rejection("puzzle solution rejected"))
    );
    assert_eq!(b.peer_count(), 0);

    let mut b = backend();
    let listed = b.try_get_additions_and_removals(
        address(),
        Reply::Answered(vec![(id, vec![c])]),
        Reply::Answered(vec![]),
        4,
    );
    assert_eq!(listed.map(|l| l.additions.len()), Ok(1));
    assert!(b
        .try_get_additions_and_removals(address(), Reply::TimedOut, Reply::Answered(vec![]), 4)
        .is_err());
    assert_eq!(b.peer_count(), 0);
}

#[test]
fn a_peer_that_does_not_tell_where_a_coin_was_spent_is_dropped() {
    let id = coin(1).coin_id();
    let cases = [
        (Reply::TimedOut, failure("request timed out")),
        (Reply::Failed("reset".to_string()), failure("reset")),
        (Reply::Rejected, rejection("coin state rejected")),
        (Reply::Answered(vec![]), rejection("coin not found")),
        (Reply::Answered(vec![state(1, None)]), rejection("coin is not spent")),
    ];
    for (reply, error) in cases {
        let mut b = backend();
        let read = b.try_get_puzzle_and_solution_auto(address(), id, "0x01", reply);
        assert_eq!(read.err(), Some(error));
        assert_eq!(b.peer_count(), 0);
    }
}
