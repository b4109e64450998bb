use chia_query::mempool_refusal::{is_bundle_intrinsic_refusal, is_final, BUNDLE_INTRINSIC_REFUSALS};
use chia_query::types::{MempoolInclusion, TxStatus};

fn refused(inclusion: MempoolInclusion, error: Option<&str>) -> TxStatus {
    TxStatus {
        status: "PENDING".into(),
        success: inclusion.is_admitted(),
        inclusion,
        error: error.map(str::to_string),
    }
}

#[test]
fn every_allowlisted_name_is_intrinsic_however_it_is_cased_or_padded() {
    for name in BUNDLE_INTRINSIC_REFUSALS {
        assert!(is_bundle_intrinsic_refusal(name), "{name}");
        assert!(is_bundle_intrinsic_refusal(&name.to_lowercase()), "{name}");
        assert!(is_bundle_intrinsic_refusal(&format!("  {name}  ")), "{name}");
    }
}

#[test]
fn an_allowlisted_name_inside_wider_text_is_not_a_match() {
    for wider in [
        "MEMPOOL_CONFLICT (see BAD_AGGREGATE_SIGNATURE)",
        "BAD_AGGREGATE_SIGNATURE_EXTRA",
        "not BAD_AGGREGATE_SIGNATURE",
        "DOUBLE_SPEND",
    ] {
        assert!(
            !is_bundle_intrinsic_refusal(wider),
            "{wider} must not match an allowlist entry"
        );
    }
}

#[test]
fn the_view_dependent_names_are_not_intrinsic() {
    for view_dependent in [
        "MEMPOOL_CONFLICT",
        "DOUBLE_SPEND",
        "ALREADY_INCLUDING_TRANSACTION",
        "UNKNOWN_UNSPENT",
        "INVALID_FEE_LOW_FEE",
        "INVALID_FEE_TOO_CLOSE_TO_ZERO",
        "ASSERT_HEIGHT_ABSOLUTE_FAILED",
        "ASSERT_HEIGHT_RELATIVE_FAILED",
        "ASSERT_SECONDS_ABSOLUTE_FAILED",
        "ASSERT_BEFORE_HEIGHT_ABSOLUTE_FAILED",
        "TOO_MANY_ANNOUNCEMENTS",
        "GENERATOR_RUNTIME_ERROR",
        "BLOCK_COST_EXCEEDS_MAX",
        "INVALID_BLOCK_COST",
        "INVALID_SPEND_BUNDLE",
    ] {
        assert!(
            !is_bundle_intrinsic_refusal(view_dependent),
            "{view_dependent} depends on which node was asked and must not be final"
        );
    }
}

#[test]
fn an_admission_is_final() {
    assert!(is_final(&refused(MempoolInclusion::Admitted, None)));
    assert!(is_final(&refused(
        MempoolInclusion::Admitted,
        Some("MEMPOOL_CONFLICT")
    )));
}

#[test]
fn a_refusal_that_states_no_reason_is_not_final() {
    for error in [None, Some(""), Some("   ")] {
        assert!(
            !is_final(&refused(MempoolInclusion::NotAdmitted, error)),
            "{error:?} states nothing about the bundle and must not be final"
        );
        assert!(!is_final(&refused(MempoolInclusion::Unknown, error)));
    }
}

#[test]
fn an_intrinsic_refusal_is_final_and_a_view_dependent_one_is_not() {
    assert!(is_final(&refused(
        MempoolInclusion::Failed,
        Some("BAD_AGGREGATE_SIGNATURE")
    )));
    assert!(!is_final(&refused(
        MempoolInclusion::Failed,
        Some("INVALID_FEE_TOO_CLOSE_TO_ZERO")
    )));
}

#[test]
fn every_kind_of_white_space_is_trimmed() {
    let padded = "\u{2003}\t\u{a0}MINTING_COIN\u{3000}\r\n\u{85}\u{2028}";
    assert!(is_bundle_intrinsic_refusal(padded));
    assert!(!is_bundle_intrinsic_refusal("\u{200b}MINTING_COIN"), "no white space");
    assert!(!is_bundle_intrinsic_refusal("MINTING COIN"));
}
