use chia_query::peer::light_client::SubmitOutcome;

#[test]
fn submit_outcome_maps_ack_status() {
    assert_eq!(SubmitOutcome::from_ack(1, None), SubmitOutcome::Accepted);
    assert_eq!(
        SubmitOutcome::from_ack(2, None),
        SubmitOutcome::NotAdmitted { reason: None }
    );
    assert_eq!(
        SubmitOutcome::from_ack(3, None),
        SubmitOutcome::Failed { reason: None }
    );
    assert_eq!(
        SubmitOutcome::from_ack(9, None),
        SubmitOutcome::Unknown {
            status: 9,
            reason: None
        }
    );

    assert!(SubmitOutcome::Accepted.is_accepted());
    assert!(
        !SubmitOutcome::from_ack(2, None).is_accepted(),
        "a bundle the node declined to admit is not accepted"
    );
    assert!(!SubmitOutcome::from_ack(3, None).is_accepted());
    assert!(!SubmitOutcome::from_ack(9, None).is_accepted());
}

#[test]
fn submit_outcome_carries_the_nodes_own_reason() {
    let held = SubmitOutcome::from_ack(2, Some("unknown parent coin".into()));
    let bad_sig = SubmitOutcome::from_ack(3, Some("BAD_AGGREGATE_SIGNATURE".into()));

    assert_eq!(held.reason(), Some("unknown parent coin"));
    assert_eq!(bad_sig.reason(), Some("BAD_AGGREGATE_SIGNATURE"));
    assert_ne!(held.reason(), bad_sig.reason());
    assert_eq!(SubmitOutcome::Accepted.reason(), None);
    assert_eq!(
        SubmitOutcome::from_ack(7, Some("odd".into())).reason(),
        Some("odd")
    );
}
