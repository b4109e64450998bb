use chia_query::coinset::transport::{
    accumulate_within_cap, admit_content_length, content_length_within_cap, MAX_RESPONSE_BYTES,
};
use chia_query::types::ChiaQueryError;

const CAP: usize = 1_000;

#[test]
fn content_length_under_or_at_cap_is_allowed() {
    assert!(content_length_within_cap(Some(0), CAP));
    assert!(content_length_within_cap(Some(CAP as u64 - 1), CAP));
    assert!(content_length_within_cap(Some(CAP as u64), CAP));
}

#[test]
fn content_length_over_cap_is_rejected() {
    assert!(!content_length_within_cap(Some(CAP as u64 + 1), CAP));
}

#[test]
fn absent_content_length_passes_the_precheck() {
    assert!(content_length_within_cap(None, CAP));
}

#[test]
fn accumulate_under_and_at_cap_is_ok() {
    assert_eq!(accumulate_within_cap(0, 500, CAP).unwrap(), 500);
    assert_eq!(accumulate_within_cap(500, 500, CAP).unwrap(), CAP);
}

#[test]
fn accumulate_over_cap_errors() {
    assert!(accumulate_within_cap(CAP, 1, CAP).is_err());
    assert!(accumulate_within_cap(600, 500, CAP).is_err());
}

#[test]
fn accumulate_saturates_instead_of_wrapping() {
    assert!(accumulate_within_cap(1, usize::MAX, CAP).is_err());
}

#[test]
fn the_refusals_name_the_cap() {
    assert_eq!(
        admit_content_length(Some(1_001), CAP),
        Err(ChiaQueryError::CoinsetHttp(
            "coinset response Content-Length exceeds the 1000-byte cap".to_string()
        ))
    );
    assert_eq!(admit_content_length(Some(1_000), CAP), Ok(()));
    assert_eq!(
        accumulate_within_cap(600, 500, CAP),
        Err(ChiaQueryError::CoinsetHttp(
            "coinset response exceeded the 1000-byte cap".to_string()
        ))
    );
}

#[test]
fn the_cap_is_256_mebibytes() {
    assert_eq!(MAX_RESPONSE_BYTES, 256 * 1024 * 1024);
}
