use chia_query::claim::ChainClaim;
use chia_query::hexadecimal::{hex32, hex_text, parse_bytes32, parse_hex};
use chia_query::json::Value;
use chia_query::peer::translate::{
    ack_to_tx_status, coin_state_to_record, header_block_to_block_record,
};
use chia_query::protocol;
use chia_query::protocol::{Bytes32, CoinState, HeaderBlock};
use chia_query::provider_registry::independence_group_for;
use chia_query::text::{
    contains_ignore_ascii_case, decimal_text, eq_ignore_ascii_case, list_text, trim,
};
use chia_query::types::{
    BlockRecord, ChiaQueryError, Coin, CoinRecord, CoinSpend, MempoolInclusion, TxStatus,
};
use chia_query::NetworkType;

fn wire_coin() -> protocol::Coin {
    protocol::Coin {
        parent_coin_info: Bytes32::new([0x11; 32]),
        puzzle_hash: Bytes32::new([0x22; 32]),
        amount: 1000,
    }
}

#[test]
fn hex_is_prefixed_lower_case_and_reads_back() {
    assert_eq!(hex_text(&[]), "0x");
    assert_eq!(hex_text(&[0x00, 0xab, 0xff]), "0x00abff");
    assert_eq!(parse_hex("0x00abff"), Ok(vec![0x00, 0xab, 0xff]));
    assert_eq!(parse_hex("00ABFF"), Ok(vec![0x00, 0xab, 0xff]));
    let id = Bytes32::new([7; 32]);
    assert_eq!(hex32(&id), format!("0x{}", "07".repeat(32)));
    assert_eq!(parse_bytes32(&hex32(&id)), Ok(id));
}

#[test]
fn what_is_not_hex_or_not_thirty_two_bytes_is_an_invalid_request() {
    assert_eq!(
        parse_hex("0xzz"),
        Err(ChiaQueryError::InvalidRequest("not hex: 0xzz".to_string()))
    );
    assert_eq!(
        parse_hex("0xabc"),
        Err(ChiaQueryError::InvalidRequest("not hex: 0xabc".to_string()))
    );
    assert_eq!(
        parse_bytes32("0xab"),
        Err(ChiaQueryError::InvalidRequest("not 32 bytes: 0xab".to_string()))
    );
}

#[test]
fn a_coin_is_named_by_the_hash_of_its_fields() {
    let coin = wire_coin();
    let same = chia_protocol::Coin::new(
        chia_protocol::Bytes32::new([0x11; 32]),
        chia_protocol::Bytes32::new([0x22; 32]),
        1000,
    );
    assert_eq!(coin.coin_id().bytes, same.coin_id().to_bytes());
    let other = protocol::Coin { amount: 1001, ..wire_coin() };
    assert_ne!(coin.coin_id(), other.coin_id());
}

#[test]
fn every_error_is_shown_with_its_kind() {
    let text = || "x".to_string();
    for (error, shown) in [
        (ChiaQueryError::PeerRejection(text()), "peer rejected the request: x"),
        (ChiaQueryError::PeerConnection(text()), "peer connection failed: x"),
        (ChiaQueryError::CoinsetApiError(text()), "coinset answered with an error: x"),
        (ChiaQueryError::CoinsetHttp(text()), "coinset could not be reached: x"),
        (
            ChiaQueryError::AllSourcesFailed { peer: text(), coinset: "y".to_string() },
            "all sources failed: peers: x; coinset: y",
        ),
        (ChiaQueryError::InvalidRequest(text()), "invalid request: x"),
        (ChiaQueryError::TlsError(text()), "TLS error: x"),
        (ChiaQueryError::PeerDiscoveryFailed, "peer discovery failed"),
        (
            ChiaQueryError::UnsupportedWithoutCoinset(text()),
            "not supported without coinset: x",
        ),
        (ChiaQueryError::SourcesDisagree(text()), "sources disagree: x"),
        (ChiaQueryError::UncorroboratedPresence(text()), "uncorroborated presence: x"),
        (ChiaQueryError::UncorroboratedAbsence(text()), "uncorroborated absence: x"),
    ] {
        assert_eq!(error.message(), shown);
    }
}

#[test]
fn a_coin_state_is_recorded_with_zero_for_what_has_not_happened() {
    let state = CoinState { coin: wire_coin(), created_height: Some(9), spent_height: None };
    let record = coin_state_to_record(&state);
    assert_eq!(record.confirmed_block_index, 9);
    assert_eq!(record.spent_block_index, 0);
    assert!(!record.spent);
    assert!(!record.coinbase);
    assert_eq!(record.timestamp, 0);
    assert_eq!(record.coin.puzzle_hash, format!("0x{}", "22".repeat(32)));

    let state = CoinState { coin: wire_coin(), created_height: Some(9), spent_height: Some(12) };
    let record = coin_state_to_record(&state);
    assert!(record.spent);
    assert_eq!(record.spent_block_index, 12);
}

#[test]
fn claims_of_records_differ_where_their_heights_do() {
    let record = |confirmed_block_index: u32, spent_block_index: u32| CoinRecord {
        coin: Coin {
            parent_coin_info: "0x01".to_string(),
            puzzle_hash: "0x02".to_string(),
            amount: 3,
        },
        confirmed_block_index,
        spent_block_index,
        spent: spent_block_index > 0,
        coinbase: false,
        timestamp: 0,
    };
    assert_eq!(record(5, 0).chain_claim(), "0x01/0x02/3 confirmed 5 spent 0");
    assert_eq!(record(5, 7).chain_claim(), "0x01/0x02/3 confirmed 5 spent 7");
    assert_ne!(record(5, 7).chain_claim(), record(57, 0).chain_claim());
}

#[test]
fn claims_of_spends_and_blocks_name_what_they_are_about() {
    let spend = CoinSpend {
        coin: Coin {
            parent_coin_info: "0x01".to_string(),
            puzzle_hash: "0x02".to_string(),
            amount: 3,
        },
        puzzle_reveal: "0x80".to_string(),
        solution: "0x81".to_string(),
    };
    assert!(spend.chain_claim().contains(&spend.coin.chain_claim()));
    assert!(spend.chain_claim().contains("0x80"));
    assert!(spend.chain_claim().contains("0x81"));
    let block = BlockRecord {
        header_hash: "0xaa".to_string(),
        height: 17,
        weight: 1,
        prev_hash: "0xbb".to_string(),
        total_iters: 2,
        signage_point_index: 3,
        farmer_puzzle_hash: "0xcc".to_string(),
        pool_puzzle_hash: "0xdd".to_string(),
        timestamp: None,
        fees: None,
        extra: Value::Null,
    };
    assert!(block.chain_claim().contains("0xaa"));
    assert!(block.chain_claim().contains("17"));
}

#[test]
fn only_an_acknowledgement_of_one_is_an_admission() {
    for (status, inclusion) in [
        (1, MempoolInclusion::Admitted),
        (2, MempoolInclusion::NotAdmitted),
        (3, MempoolInclusion::Failed),
        (9, MempoolInclusion::Unknown),
    ] {
        let read: TxStatus = ack_to_tx_status(status, None);
        assert_eq!(read.inclusion, inclusion);
        assert_eq!(read.inclusion.is_admitted(), status == 1);
        assert_eq!(read.error, None);
    }
    let refused = ack_to_tx_status(3, Some("BAD_AGGREGATE_SIGNATURE".to_string()));
    assert_eq!(refused.error.as_deref(), Some("BAD_AGGREGATE_SIGNATURE"));
}

#[test]
fn numbers_and_texts_are_written_plainly() {
    assert_eq!(decimal_text(0), "0");
    assert_eq!(decimal_text(u64::MAX), "18446744073709551615");
    assert_eq!(list_text(&[]), "[]");
    assert_eq!(list_text(&[1, 20, 300]), "[1, 20, 300]");
    assert_eq!(trim(" \t x y \n"), "x y");
    assert!(eq_ignore_ascii_case("BaD", "bAd"));
    assert!(!eq_ignore_ascii_case("bad", "bade"));
    assert!(contains_ignore_ascii_case("Request TIMED OUT!", "timed out"));
    assert!(!contains_ignore_ascii_case("timed", "timed out"));
}

#[test]
fn the_groups_and_the_networks_have_their_names() {
    assert_eq!(independence_group_for(true), "coinset.org");
    assert_eq!(independence_group_for(false), "chia-peers");
    assert_eq!(NetworkType::Mainnet.network_id(), "mainnet");
    assert_eq!(NetworkType::Testnet11.network_id(), "testnet11");
}

#[test]
fn a_header_block_is_read_field_by_field() {
    let block = HeaderBlock {
        header_hash: Bytes32::new([1; 32]),
        height: 77,
        weight: (1 << 64) + 5,
        prev_hash: Bytes32::new([2; 32]),
        total_iters: 6,
        signage_point_index: 7,
        farmer_puzzle_hash: Bytes32::new([3; 32]),
        pool_puzzle_hash: Bytes32::new([4; 32]),
        timestamp: Some(8),
        fees: None,
    };
    assert_eq!(
        header_block_to_block_record(&block),
        BlockRecord {
            header_hash: format!("0x{}", "01".repeat(32)),
            height: 77,
            weight: 5,
            prev_hash: format!("0x{}", "02".repeat(32)),
            total_iters: 6,
            signage_point_index: 7,
            farmer_puzzle_hash: format!("0x{}", "03".repeat(32)),
            pool_puzzle_hash: format!("0x{}", "04".repeat(32)),
            timestamp: Some(8),
            fees: None,
            extra: Value::Null,
        }
    );
}
