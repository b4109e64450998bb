use chia_query::peer::bundle::{take_signature, to_protocol_spend_bundle};
use chia_query::peer::puzzle::{judge_reveal, verify_reveal_against_puzzle_hash};
use chia_query::protocol::Bytes32;
use chia_query::types::{ChiaQueryError, Coin, CoinSpend, SpendBundle};

/// The signature of nothing: the point at infinity.
fn infinity() -> String {
    format!("0xc0{}", "00".repeat(95))
}

fn spend() -> CoinSpend {
    CoinSpend {
        coin: Coin {
            parent_coin_info: format!("0x{}", "11".repeat(32)),
            puzzle_hash: format!(
                "0x{}",
                hex::encode(clvm_utils::tree_hash_atom(&[1]).to_bytes())
            ),
            amount: 1000,
        },
        puzzle_reveal: "0x01".to_string(),
        solution: "0x80".to_string(),
    }
}

fn bundle(spends: Vec<CoinSpend>, signature: String) -> SpendBundle {
    SpendBundle { coin_spends: spends, aggregated_signature: signature }
}

fn refusal(text: &str) -> ChiaQueryError {
    ChiaQueryError::InvalidRequest(text.to_string())
}

#[test]
fn a_bundle_is_read_into_bytes() {
    let read = to_protocol_spend_bundle(&bundle(vec![spend()], infinity())).expect("well-formed");
    assert_eq!(read.coin_spends.len(), 1);
    assert_eq!(read.coin_spends[0].coin.parent_coin_info, Bytes32::new([0x11; 32]));
    assert_eq!(read.coin_spends[0].coin.amount, 1000);
    assert_eq!(read.coin_spends[0].puzzle_reveal, vec![1]);
    assert_eq!(read.coin_spends[0].solution, vec![0x80]);
    assert_eq!(read.aggregated_signature[0], 0xc0);
    assert_eq!(read.aggregated_signature[1..], [0; 95]);
}

#[test]
fn a_bundle_with_a_malformed_part_is_refused() {
    let mut bad = spend();
    bad.puzzle_reveal = "0xzz".to_string();
    assert_eq!(
        to_protocol_spend_bundle(&bundle(vec![spend(), bad], infinity())).err(),
        Some(refusal("not hex: 0xzz"))
    );
    let mut bad = spend();
    bad.coin.parent_coin_info = "0x11".to_string();
    assert_eq!(
        to_protocol_spend_bundle(&bundle(vec![bad], infinity())).err(),
        Some(refusal("not 32 bytes: 0x11"))
    );
}

#[test]
fn a_signature_that_is_no_point_is_refused() {
    let junk = format!("0x{}", "ff".repeat(96));
    match to_protocol_spend_bundle(&bundle(vec![spend()], junk)) {
        Err(ChiaQueryError::InvalidRequest(text)) => {
            assert!(text.starts_with("bad BLS signature: "), "{text}")
        }
        other => panic!("{other:?}"),
    }
    assert_eq!(take_signature(Ok(())), Ok(()));
    assert_eq!(
        take_signature(Err("off the curve".to_string())),
        Err(refusal("bad BLS signature: off the curve"))
    );
    assert!(to_protocol_spend_bundle(&bundle(vec![spend()], "0xc0".to_string())).is_err());
}

#[test]
fn a_puzzle_unlocks_only_the_coin_locked_with_it() {
    assert_eq!(verify_reveal_against_puzzle_hash(&spend()), Ok(()));

    let mut other = spend();
    other.puzzle_reveal = "0x80".to_string();
    match verify_reveal_against_puzzle_hash(&other) {
        Err(ChiaQueryError::PeerRejection(text)) => {
            assert!(text.starts_with("puzzle reveal hashes to 0x"), "{text}")
        }
        outcome => panic!("{outcome:?}"),
    }

    let mut broken = spend();
    broken.puzzle_reveal = "0xff".to_string();
    match verify_reveal_against_puzzle_hash(&broken) {
        Err(ChiaQueryError::PeerRejection(text)) => {
            assert!(text.starts_with("puzzle reveal is not valid CLVM: "), "{text}")
        }
        outcome => panic!("{outcome:?}"),
    }

    let hash = clvm_utils::tree_hash_atom(&[1]).to_bytes();
    assert_eq!(judge_reveal(&spend(), &hash, Ok(Bytes32::new(hash))), Ok(()));
    assert!(judge_reveal(&spend(), &hash, Ok(Bytes32::new([0; 32]))).is_err());
}
