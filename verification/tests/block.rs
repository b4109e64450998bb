use chia_query::peer::backend::PeerBackend;
use chia_query::peer::block::{
    block_additions_and_removals, block_spends, block_spends_with_conditions,
    spend_with_conditions, stage, FullBlock,
};
use chia_query::peer::connect::PeerOrigin;
use chia_query::peer::reads::Reply;
use chia_query::protocol::{Bytes32, Coin};
use chia_query::types::{ChiaQueryError, CoinRecord};
use chia_query::NetworkType;

const NIL: &[u8] = &[0x80];

/// A serialised atom.
fn atom(bytes: &[u8]) -> Vec<u8> {
    if bytes.is_empty() {
        vec![0x80]
    } else if bytes.len() == 1 && bytes[0] < 0x80 {
        bytes.to_vec()
    } else {
        assert!(bytes.len() < 0x40);
        let mut out = vec![0x80 | bytes.len() as u8];
        out.extend_from_slice(bytes);
        out
    }
}

/// A serialised pair.
fn pair(first: &[u8], rest: &[u8]) -> Vec<u8> {
    let mut out = vec![0xff];
    out.extend_from_slice(first);
    out.extend_from_slice(rest);
    out
}

/// A serialised list.
fn list(items: &[Vec<u8>]) -> Vec<u8> {
    let mut out = NIL.to_vec();
    for item in items.iter().rev() {
        out = pair(item, &out);
    }
    out
}

/// The hash of the puzzle that returns its solution.
fn identity_hash() -> Bytes32 {
    Bytes32::new(clvm_utils::tree_hash_atom(&[1]).to_bytes())
}

fn spent_coin() -> Coin {
    Coin { parent_coin_info: Bytes32::new([0x11; 32]), puzzle_hash: identity_hash(), amount: 1000 }
}

/// One condition that makes a coin of 900 mojos at the puzzle hash 0x22….
fn create_coin() -> Vec<u8> {
    list(&[atom(&[51]), atom(&[0x22; 32]), atom(&[0x03, 0x84])])
}

fn solution() -> Vec<u8> {
    list(&[create_coin()])
}

/// A generator that spends one coin, whose puzzle returns its solution.
fn generator() -> Vec<u8> {
    let spend = list(&[
        atom(&[0x11; 32]),
        atom(&[1]),
        atom(&[0x03, 0xe8]),
        solution(),
    ]);
    // The value is quoted.
    pair(&[1], &list(&[list(&[spend])]))
}

fn block(transactions_generator: Option<Vec<u8>>) -> FullBlock {
    FullBlock {
        transactions_generator,
        reward_claims_incorporated: Some(vec![Coin {
            parent_coin_info: Bytes32::new([0x33; 32]),
            puzzle_hash: Bytes32::new([0x44; 32]),
            amount: 7,
        }]),
        timestamp: Some(1_700_000_000),
    }
}

fn hex(bytes: &[u8]) -> String {
    format!("0x{}", hex::encode(bytes))
}

#[test]
fn a_block_without_transactions_adds_only_its_rewards() {
    let effects = block_additions_and_removals(&block(None), 5, NetworkType::Mainnet)
        .expect("nothing to run");
    assert_eq!(effects.removals, vec![]);
    assert_eq!(effects.additions.len(), 1);
    let reward: &CoinRecord = &effects.additions[0];
    assert_eq!(reward.coin.amount, 7);
    assert_eq!(reward.coin.puzzle_hash, hex(&[0x44; 32]));
    assert!(reward.coinbase);
    assert_eq!(reward.confirmed_block_index, 5);
    assert_eq!(reward.timestamp, 1_700_000_000);
    assert_eq!(block_spends(&block(None), NetworkType::Mainnet), Ok(vec![]));
    assert_eq!(
        block_spends_with_conditions(&block(None), NetworkType::Mainnet),
        Ok(vec![])
    );
}

#[test]
fn a_block_adds_what_its_generator_creates_and_removes_what_it_spends() {
    let effects =
        block_additions_and_removals(&block(Some(generator())), 5, NetworkType::Mainnet)
            .expect("the generator runs");
    assert_eq!(effects.removals.len(), 1);
    assert_eq!(effects.removals[0].coin.parent_coin_info, hex(&[0x11; 32]));
    assert_eq!(effects.removals[0].coin.amount, 1000);
    assert!(effects.removals[0].spent);
    assert_eq!(effects.removals[0].spent_block_index, 5);

    assert_eq!(effects.additions.len(), 2);
    let created = &effects.additions[0];
    assert_eq!(created.coin.parent_coin_info, hex(&spent_coin().coin_id().bytes));
    assert_eq!(created.coin.puzzle_hash, hex(&[0x22; 32]));
    assert_eq!(created.coin.amount, 900);
    assert!(!created.coinbase);
    assert!(effects.additions[1].coinbase);
}

#[test]
fn a_blocks_spends_are_read_out_of_its_generator() {
    for network in [NetworkType::Mainnet, NetworkType::Testnet11] {
        let spends = block_spends(&block(Some(generator())), network).expect("the generator runs");
        assert_eq!(spends.len(), 1);
        assert_eq!(spends[0].coin.parent_coin_info, hex(&[0x11; 32]));
        assert_eq!(spends[0].coin.puzzle_hash, hex(&identity_hash().bytes));
        assert_eq!(spends[0].coin.amount, 1000);
        assert_eq!(spends[0].puzzle_reveal, "0x01");
        assert_eq!(spends[0].solution, hex(&solution()));
    }
}

#[test]
fn a_blocks_conditions_are_what_its_puzzles_put_out() {
    let spends = block_spends_with_conditions(&block(Some(generator())), NetworkType::Mainnet)
        .expect("the generator runs");
    assert_eq!(spends.len(), 1);
    assert_eq!(spends[0].coin_spend.puzzle_reveal, "0x01");
    assert_eq!(spends[0].conditions.len(), 1);
    assert_eq!(spends[0].conditions[0].opcode, "0x33");
    assert_eq!(
        spends[0].conditions[0].vars,
        vec![hex(&[0x22; 32]), "0x0384".to_string()]
    );
}

#[test]
fn a_generator_that_cannot_be_run_is_an_error() {
    let broken = block(Some(vec![0xff]));
    let told = |outcome: Option<ChiaQueryError>, stage: &str| match outcome {
        Some(ChiaQueryError::PeerConnection(text)) => assert!(text.starts_with(stage), "{text}"),
        other => panic!("{other:?}"),
    };
    told(
        block_additions_and_removals(&broken, 5, NetworkType::Mainnet).err(),
        "CLVM execution failed: ",
    );
    told(
        block_spends(&broken, NetworkType::Mainnet).err(),
        "run_block_generator2 failed: ",
    );
    told(
        block_spends_with_conditions(&broken, NetworkType::Mainnet).err(),
        "run_block_generator2 failed: ",
    );
}

#[test]
fn a_peer_is_dropped_for_a_block_it_refuses_and_for_one_that_cannot_be_run() {
    let address = chia_query::address::SocketAddr::new(
        chia_query::address::IpAddr::v4(203, 0, 113, 1),
        8444,
    );
    let held = || {
        let mut backend = PeerBackend::new(NetworkType::Mainnet, 1);
        backend
            .pool
            .admit_and_follow((), address, PeerOrigin::Discovered, 0)
            .expect("admitted");
        backend
    };

    let mut backend = held();
    let answered = Reply::Answered(block(Some(generator())));
    let spends = backend.try_get_block_spends_by_height(address, answered);
    assert_eq!(spends.map(|s| s.len()), Ok(1));
    assert_eq!(backend.peer_count(), 1);

    let mut backend = held();
    assert!(backend.try_get_block_spends_by_height(address, Reply::Rejected).is_err());
    assert_eq!(backend.peer_count(), 0);

    let broken = || Reply::Answered(block(Some(vec![0xff])));
    let mut backend = held();
    assert!(backend.try_get_block_spends_by_height(address, broken()).is_err());
    assert_eq!(backend.peer_count(), 0);

    let mut backend = held();
    let effects = backend.try_get_additions_and_removals_from_block(
        address,
        5,
        Reply::Answered(block(Some(generator()))),
    );
    assert_eq!(effects.map(|e| (e.additions.len(), e.removals.len())), Ok((2, 1)));
    assert_eq!(backend.peer_count(), 1);
    assert!(backend.try_get_additions_and_removals_from_block(address, 5, broken()).is_err());
    assert_eq!(backend.peer_count(), 0);
}

#[test]
fn a_peer_is_dropped_for_conditions_that_cannot_be_read_out_of_its_block() {
    let address = chia_query::address::SocketAddr::new(
        chia_query::address::IpAddr::v4(203, 0, 113, 1),
        8444,
    );
    let held = || {
        let mut backend = PeerBackend::new(NetworkType::Mainnet, 1);
        backend.pool.admit_and_follow((), address, PeerOrigin::Discovered, 0).expect("admitted");
        backend
    };

    let mut backend = held();
    let answered = Reply::Answered(block(Some(generator())));
    let spends = backend.try_get_block_spends_with_conditions(address, answered);
    assert_eq!(spends.map(|s| s.len()), Ok(1));
    assert_eq!(backend.peer_count(), 1);
    let broken = Reply::Answered(block(Some(vec![0xff])));
    assert!(backend.try_get_block_spends_with_conditions(address, broken).is_err());
    assert_eq!(backend.peer_count(), 0);

    let mut backend = held();
    assert_eq!(
        backend.try_get_block_spends_with_conditions(address, Reply::TimedOut),
        Err(ChiaQueryError::PeerConnection("block request timed out".to_string()))
    );
    assert_eq!(backend.peer_count(), 0);
}

#[test]
fn a_stage_that_fails_is_named() {
    assert_eq!(stage("setup args: ", Ok(3)), Ok(3));
    assert_eq!(
        stage::<u8>("setup args: ", Err("no room".to_string())),
        Err(ChiaQueryError::PeerConnection("setup args: no room".to_string()))
    );
}

#[test]
fn conditions_come_beside_the_same_spends_or_not_at_all() {
    for network in [NetworkType::Mainnet, NetworkType::Testnet11] {
        let generators =
            [None, Some(generator()), Some(vec![0xff]), Some(vec![0x01]), Some(vec![0x80])];
        for transactions_generator in generators {
            let block = block(transactions_generator);
            let spends = block_spends(&block, network);
            let conditioned = block_spends_with_conditions(&block, network);
            let bare: Option<Vec<_>> =
                conditioned.ok().map(|all| all.into_iter().map(|s| s.coin_spend).collect());
            assert_eq!(bare, spends.ok());
        }
    }
}

#[test]
fn one_spend_is_run_for_its_conditions() {
    let spends = block_spends(&block(Some(generator())), NetworkType::Mainnet).expect("it runs");
    let mut told =
        block_spends_with_conditions(&block(Some(generator())), NetworkType::Mainnet)
            .expect("it runs");
    assert_eq!(spend_with_conditions(&spends[0], NetworkType::Mainnet), Ok(told.remove(0)));
}

#[test]
fn a_spend_that_cannot_be_run_is_an_error() {
    let spend = |puzzle_reveal: &str, solution: &str| {
        let spends = block_spends(&block(Some(generator())), NetworkType::Mainnet);
        let mut spend = spends.expect("it runs").remove(0);
        spend.puzzle_reveal = puzzle_reveal.to_string();
        spend.solution = solution.to_string();
        spend_with_conditions(&spend, NetworkType::Mainnet).err()
    };
    let failed_in = |outcome: Option<ChiaQueryError>, stage: &str| match outcome {
        Some(ChiaQueryError::PeerConnection(text)) => assert!(text.starts_with(stage), "{text}"),
        other => panic!("{other:?}"),
    };
    assert!(matches!(spend("0xzz", "0x80"), Some(ChiaQueryError::InvalidRequest(_))));
    assert!(matches!(spend("0x01", "0x8"), Some(ChiaQueryError::InvalidRequest(_))));
    failed_in(spend("0xff", "0x80"), "parse puzzle: ");
    failed_in(spend("0x01", "0xff"), "parse solution: ");
    // Raises.
    failed_in(spend("0xff0880", "0x80"), "run_program: ");
    assert_eq!(spend("0x01", "0x80"), None);
}
