use chia_query::drift_monitor::{check, collect_shapes, probes, read_mode, Mode, Probed};
use chia_query::json::{Member, Value};
use chia_query::peer::corroboration::OptAnswer;
use chia_query::peer::set_agreement::{SetAnswer, SetProjection};
use chia_query::chain_peak;
use chia_query::router::{
    claim_of, one_voice, require_coinset, required, set_wants_second, settle_claimed, settle_set,
    spent_at, wants_second, PushStep, Route, RouteStep, SecondSource, PEER_ATTEMPTS,
};
use chia_query::types::{ChiaQueryError, Coin, CoinRecord, MempoolInclusion, TxStatus};

fn failure(text: &str) -> ChiaQueryError {
    ChiaQueryError::PeerConnection(text.to_string())
}

#[test]
fn two_peers_are_tried_before_coinset() {
    assert_eq!(PEER_ATTEMPTS, 2);
    let RouteStep::AskPeer(route) = Route::start(true).peer_failed(failure("one")) else {
        panic!("another peer comes next");
    };
    let RouteStep::AskCoinset(route) = route.peer_failed(failure("two")) else {
        panic!("coinset comes next");
    };
    assert_eq!(
        route.coinset_failed(ChiaQueryError::CoinsetHttp("down".to_string())),
        ChiaQueryError::AllSourcesFailed {
            peer: "peer connection failed: two".to_string(),
            coinset: "coinset could not be reached: down".to_string(),
        }
    );
}

#[test]
fn without_coinset_a_read_fails_as_its_last_peer_did() {
    let RouteStep::AskPeer(route) = Route::start(false).peer_failed(failure("one")) else {
        panic!("another peer comes next");
    };
    assert!(matches!(
        route.peer_failed(failure("two")),
        RouteStep::Fail(e) if e == failure("two")
    ));
}

#[test]
fn an_endpoint_of_coinsets_own_needs_coinset() {
    assert_eq!(require_coinset(true, "get_network_space"), Ok(()));
    assert_eq!(
        require_coinset(false, "get_network_space"),
        Err(ChiaQueryError::UnsupportedWithoutCoinset("get_network_space".to_string()))
    );
}

fn present(claim: &str) -> SecondSource {
    SecondSource::Present(claim.to_string())
}

fn told(text: &str) -> String {
    text.to_string()
}

#[test]
fn what_the_peers_corroborated_stands() {
    assert_eq!(
        settle_claimed(OptAnswer::Found(told("c")), "id", SecondSource::Absent),
        Ok(Some(told("c")))
    );
    assert_eq!(
        settle_claimed::<String>(OptAnswer::CorroboratedAbsent, "id", present("c")),
        Ok(None)
    );
}

#[test]
fn what_one_peer_reports_present_needs_coinset_to_claim_the_same() {
    let found = || OptAnswer::UncorroboratedFound(told("c"));
    assert_eq!(settle_claimed(found(), "id", present("c")), Ok(Some(told("c"))));
    assert_eq!(
        settle_claimed(found(), "id", present("d")),
        Err(ChiaQueryError::SourcesDisagree(
            "peers claim `c`, coinset claims `d`".to_string()
        ))
    );
    assert_eq!(
        settle_claimed(found(), "id", SecondSource::Absent),
        Err(ChiaQueryError::SourcesDisagree(
            "peers report present, coinset reports absent".to_string()
        ))
    );
    assert_eq!(
        settle_claimed(found(), "id", SecondSource::Unavailable),
        Err(ChiaQueryError::UncorroboratedPresence("c".to_string()))
    );
}

#[test]
fn a_height_that_coinset_does_not_confirm_is_not_reported() {
    let spent_at_five = || OptAnswer::UncorroboratedFound(record(1, 2, 5));
    let coinset = |spent: u32| SecondSource::heard(&Ok(Some(record(1, 2, spent))));
    assert_eq!(settle_claimed(spent_at_five(), "id", coinset(5)), Ok(Some(record(1, 2, 5))));
    assert!(matches!(
        settle_claimed(spent_at_five(), "id", coinset(9)),
        Err(ChiaQueryError::SourcesDisagree(_))
    ));
}

#[test]
fn what_one_peer_reports_absent_needs_coinset_to_lack_it_too() {
    let absent = || OptAnswer::<String>::UncorroboratedAbsent;
    assert_eq!(settle_claimed(absent(), "c", SecondSource::Absent), Ok(None));
    assert_eq!(
        settle_claimed(absent(), "c", present("c")),
        Err(ChiaQueryError::SourcesDisagree(
            "peers report absent, coinset reports present".to_string()
        ))
    );
    assert_eq!(
        settle_claimed(absent(), "c", SecondSource::Unavailable),
        Err(ChiaQueryError::UncorroboratedAbsence("c".to_string()))
    );
}

#[test]
fn the_monitor_is_told_what_it_is_run_for() {
    assert_eq!(read_mode(None), Ok(Mode::Check));
    assert_eq!(read_mode(Some("check")), Ok(Mode::Check));
    assert_eq!(read_mode(Some("update")), Ok(Mode::Update));
    assert_eq!(
        read_mode(Some("Update")),
        Err("unknown mode `Update` (expected `check` or `update`)".to_string())
    );
}

#[test]
fn the_monitor_asks_four_questions() {
    let names: Vec<&str> = probes().iter().map(|p| p.name).collect();
    assert_eq!(
        names,
        vec![
            "get_blockchain_state",
            "get_network_info",
            "get_block_record_by_height",
            "get_coin_record_by_name__error",
        ]
    );
    assert_eq!(probes()[3].endpoint, "get_coin_record_by_name");
    assert_eq!(
        probes()[2].body,
        Value::Object(vec![Member::new("height", Value::number(1))])
    );
}

fn probed(response: Value) -> Value {
    collect_shapes(&[Probed { name: "ep".to_string(), response }])
}

#[test]
fn the_monitor_reports_what_changed() {
    let before = probed(Value::Object(vec![Member::new("a", Value::number(1))]));
    let same = probed(Value::Object(vec![Member::new("a", Value::number(2))]));
    let after = probed(Value::Object(vec![Member::new("a", Value::text("1"))]));

    let findings = check(&before, &same);
    assert!(findings.unchanged);
    assert_eq!(
        findings.lines,
        vec!["no drift: coinset.org matches the committed snapshot"]
    );

    let findings = check(&before, &after);
    assert!(!findings.unchanged);
    assert_eq!(
        findings.lines,
        vec![
            "DRIFT DETECTED against tests/fixtures/coinset-api-snapshot.json:",
            "- ep.a: type changed integer -> string",
        ]
    );
}

#[test]
fn shapes_are_kept_by_name_and_the_last_of_a_name() {
    let answered = |name: &str, response: Value| Probed { name: name.to_string(), response };
    let live = collect_shapes(&[
        answered("get_blockchain_state", Value::number(1)),
        answered("get_network_info", Value::number(1)),
        answered("get_block_record_by_height", Value::number(1)),
        answered("get_block", Value::number(1)),
        answered("get_network_info", Value::text("x")),
    ]);
    assert_eq!(
        live,
        Value::Object(vec![
            Member::new("get_block", Value::text("integer")),
            Member::new("get_block_record_by_height", Value::text("integer")),
            Member::new("get_blockchain_state", Value::text("integer")),
            Member::new("get_network_info", Value::text("string")),
        ])
    );

    let findings = check(&Value::Object(vec![]), &live);
    assert_eq!(
        findings.lines[1..],
        [
            "- get_block: key added",
            "- get_block_record_by_height: key added",
            "- get_blockchain_state: key added",
            "- get_network_info: key added",
        ]
    );
}

#[test]
fn a_contradiction_is_not_taken_to_another_source() {
    let contradiction = || ChiaQueryError::SourcesDisagree("a, not b".to_string());
    assert!(matches!(
        Route::start(true).peer_failed(contradiction()),
        RouteStep::Fail(e) if e == contradiction()
    ));
}

fn record(amount: u64, confirmed: u32, spent: u32) -> CoinRecord {
    CoinRecord {
        coin: Coin {
            parent_coin_info: "0x01".to_string(),
            puzzle_hash: "0x02".to_string(),
            amount,
        },
        confirmed_block_index: confirmed,
        spent_block_index: spent,
        spent: spent > 0,
        coinbase: false,
        timestamp: 0,
    }
}

const UNSPENT: SetProjection =
    SetProjection { start_height: None, end_height: None, include_spent: false };

#[test]
fn a_corroborated_set_stands() {
    let items = || vec![record(1, 10, 0)];
    let answer = SetAnswer::Corroborated { items: items(), as_of_height: 97 };
    assert_eq!(settle_set(answer, None, UNSPENT), Ok(items()));
}

#[test]
fn a_set_one_peer_holds_needs_coinset_to_hold_the_same() {
    let items = || vec![record(1, 10, 0), record(2, 10, 0)];
    let answer = || SetAnswer::Uncorroborated { items: items(), as_of_height: 97 };
    // One coin was spent and one was made after the height that is compared at.
    let ahead = vec![record(2, 10, 0), record(1, 10, 98), record(3, 98, 0), record(4, 5, 6)];
    assert_eq!(settle_set(answer(), Some(ahead), UNSPENT), Ok(items()));
    assert_eq!(
        settle_set(answer(), Some(vec![record(1, 10, 0)]), UNSPENT),
        Err(ChiaQueryError::SourcesDisagree(
            "peers reports `0x01/0x02/2 confirmed 10 spent 0`, coinset does not".to_string()
        ))
    );
    assert_eq!(
        settle_set(answer(), None, UNSPENT),
        Err(ChiaQueryError::UncorroboratedPresence(
            "no second source vouches for the set".to_string()
        ))
    );
}

fn status(inclusion: MempoolInclusion, error: Option<&str>) -> TxStatus {
    TxStatus {
        status: "PENDING".to_string(),
        success: false,
        inclusion,
        error: error.map(str::to_string),
    }
}

#[test]
fn a_refusal_that_another_peer_could_revise_is_taken_to_one_more() {
    let revisable = || status(MempoolInclusion::NotAdmitted, Some("MEMPOOL_CONFLICT"));
    let PushStep::AskPeer(route) = Route::start(true).pushed(revisable()) else {
        panic!("another peer comes next");
    };
    let PushStep::Report(reported) = route.pushed(revisable()) else {
        panic!("two peers have been asked");
    };
    assert_eq!(reported, revisable());
    // The refusal is the first source's failure, should the second fail as well.
    let PushStep::AskPeer(route) = Route::start(true).pushed(status(MempoolInclusion::Failed, None))
    else {
        panic!("another peer comes next");
    };
    assert!(matches!(route.peer_failed(failure("gone")), RouteStep::AskCoinset(_)));
}

#[test]
fn an_answer_that_no_peer_could_revise_is_reported_at_once() {
    let final_answers = [
        status(MempoolInclusion::Admitted, None),
        status(MempoolInclusion::Failed, Some(" minting_coin ")),
    ];
    for answer in final_answers {
        assert!(matches!(Route::start(true).pushed(answer), PushStep::Report(_)));
    }
}

#[test]
fn one_source_alone_corroborates_nothing() {
    assert_eq!(one_voice(Some("a".to_string())), OptAnswer::UncorroboratedFound("a".to_string()));
    assert_eq!(one_voice::<String>(None), OptAnswer::UncorroboratedAbsent);
}

#[test]
fn coinset_is_asked_about_what_the_peers_left_open() {
    let open = [
        OptAnswer::UncorroboratedFound("a".to_string()),
        OptAnswer::<String>::UncorroboratedAbsent,
    ];
    let closed = [OptAnswer::Found("a".to_string()), OptAnswer::<String>::CorroboratedAbsent];
    for answer in &open {
        assert!(wants_second(answer, true));
        assert!(!wants_second(answer, false));
    }
    for answer in &closed {
        assert!(!wants_second(answer, true));
    }
    assert!(set_wants_second(&SetAnswer::Uncorroborated { items: vec![], as_of_height: 1 }, true));
    assert!(!set_wants_second(&SetAnswer::Corroborated { items: vec![], as_of_height: 1 }, true));
    assert_eq!(claim_of(&open[0], "asked"), "a");
    assert_eq!(claim_of(&open[1], "asked"), "asked");
}

#[test]
fn a_failure_of_coinset_says_nothing() {
    assert!(matches!(
        SecondSource::heard(&Ok(Some("a".to_string()))),
        SecondSource::Present(claim) if claim == "a"
    ));
    assert!(matches!(SecondSource::heard::<String>(&Ok(None)), SecondSource::Absent));
    assert!(matches!(
        SecondSource::heard::<String>(&Err(failure("down"))),
        SecondSource::Unavailable
    ));
}

#[test]
fn an_unknown_or_unspent_coin_has_no_spend_to_ask_for() {
    assert_eq!(spent_at(&None), None);
    assert_eq!(spent_at(&Some(record(1, 10, 0))), None);
    assert_eq!(spent_at(&Some(record(1, 10, 12))), Some(12));
    assert_eq!(required(Some(3), "no"), Ok(3));
    assert_eq!(required::<u8>(None, "no"), Err(ChiaQueryError::PeerRejection("no".to_string())));
}

#[test]
fn the_peak_is_coinsets_where_it_answers() {
    assert_eq!(chain_peak(Some(Some(9)), 7), Some(9));
    assert_eq!(chain_peak(Some(None), 7), None);
    assert_eq!(chain_peak(None, 7), Some(7));
    assert_eq!(chain_peak(None, 0), None);
}
