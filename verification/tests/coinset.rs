use chia_query::coinset::{
    coinset_error_message, post, post_extract, pushed, Answer, CoinsetClient,
};
use chia_query::json::{Member, Value};
use chia_query::types::{
    ChiaQueryError, Coin, CoinSpend, MempoolInclusion, SpendBundle, TxStatus,
};

fn object(members: Vec<(&str, Value)>) -> Value {
    Value::Object(members.into_iter().map(|(key, value)| Member::new(key, value)).collect())
}

fn text(s: &str) -> Value {
    Value::text(s)
}

fn client() -> CoinsetClient<()> {
    CoinsetClient::with_transport("https://api.coinset.org//", ())
}

#[test]
fn prefers_structured_error_message_over_legacy_error() {
    let envelope = object(vec![
        ("error", text("Coin record 0xnothex not found")),
        (
            "structuredError",
            object(vec![
                ("code", text("COIN_RECORD_NOT_FOUND")),
                ("data", object(vec![("name", text("nothex"))])),
                ("message", text("Coin record not found")),
            ]),
        ),
        ("success", Value::Bool(false)),
        ("traceback", Value::Null),
    ]);
    assert_eq!(coinset_error_message(&envelope), "Coin record not found");
}

#[test]
fn traceback_is_never_surfaced() {
    let envelope = object(vec![
        ("error", text("boom")),
        ("structuredError", object(vec![("message", text("clean summary"))])),
        (
            "traceback",
            text("Traceback (most recent call last): secret internals"),
        ),
        ("success", Value::Bool(false)),
    ]);
    let msg = coinset_error_message(&envelope);
    assert_eq!(msg, "clean summary");
    assert!(!msg.contains("Traceback"));
}

#[test]
fn accepts_structured_error_as_bare_string() {
    let envelope = object(vec![
        ("structuredError", text("just a string")),
        ("success", Value::Bool(false)),
    ]);
    assert_eq!(coinset_error_message(&envelope), "just a string");
}

#[test]
fn falls_back_to_legacy_error_when_no_structured_error() {
    let envelope = object(vec![
        ("error", text("legacy only")),
        ("success", Value::Bool(false)),
    ]);
    assert_eq!(coinset_error_message(&envelope), "legacy only");
}

#[test]
fn falls_back_to_legacy_when_structured_error_is_empty() {
    let envelope = object(vec![
        ("error", text("legacy wins")),
        ("structuredError", object(vec![("message", text("   "))])),
        ("success", Value::Bool(false)),
    ]);
    assert_eq!(coinset_error_message(&envelope), "legacy wins");
}

#[test]
fn generic_message_when_nothing_usable() {
    let envelope = object(vec![("success", Value::Bool(false))]);
    assert_eq!(coinset_error_message(&envelope), "unknown error");
}

#[test]
fn only_a_stated_success_is_an_answer() {
    let answered = object(vec![("success", Value::Bool(true)), ("x", Value::number(1))]);
    let same = object(vec![("success", Value::Bool(true)), ("x", Value::number(1))]);
    assert_eq!(post(answered), Ok(same));
    for response in [
        object(vec![("success", Value::Bool(false)), ("error", text("no"))]),
        object(vec![("success", text("true")), ("error", text("no"))]),
        object(vec![("error", text("no"))]),
    ] {
        assert_eq!(
            post(response),
            Err(ChiaQueryError::CoinsetApiError("no".to_string()))
        );
    }
    assert_eq!(
        post(Value::Null),
        Err(ChiaQueryError::CoinsetApiError("unknown error".to_string()))
    );
}

#[test]
fn the_stated_status_decides_the_inclusion() {
    for (stated, inclusion) in [
        ("SUCCESS", MempoolInclusion::Admitted),
        ("PENDING", MempoolInclusion::NotAdmitted),
        ("FAILED", MempoolInclusion::Failed),
        ("success", MempoolInclusion::Unknown),
    ] {
        assert_eq!(
            pushed(&object(vec![("status", text(stated))])),
            TxStatus { status: stated.to_string(), success: true, inclusion, error: None }
        );
    }
    assert_eq!(
        pushed(&object(vec![])),
        TxStatus {
            status: "UNKNOWN".to_string(),
            success: true,
            inclusion: MempoolInclusion::Unknown,
            error: None,
        }
    );
}

#[test]
fn a_question_names_its_endpoint_its_arguments_and_its_answer() {
    let request = client().get_block_record_by_height(5);
    assert_eq!(request.url, "https://api.coinset.org/get_block_record_by_height");
    assert_eq!(request.body, object(vec![("height", Value::number(5))]));
    assert_eq!(request.answer, Answer::Member("block_record"));

    let request = client().get_additions_and_removals("0xab");
    assert_eq!(request.url, "https://api.coinset.org/get_additions_and_removals");
    assert_eq!(request.body, object(vec![("header_hash", text("0xab"))]));
    assert_eq!(request.answer, Answer::Whole);

    let request = client().get_puzzle_and_solution("0xab", None);
    assert_eq!(
        request.body,
        object(vec![("coin_id", text("0xab")), ("height", Value::Null)])
    );
}

#[test]
fn a_client_is_built_only_over_a_transport() {
    let failure = || ChiaQueryError::CoinsetHttp("no tls".to_string());
    assert!(CoinsetClient::<()>::new("https://x/", Err(failure())).err() == Some(failure()));
    let made = CoinsetClient::new("https://x/", Ok(7)).expect("the transport was built");
    assert_eq!(made.transport, 7);
    assert_eq!(made.base_url, "https://x");
}

#[test]
fn a_pushed_bundle_is_written_out_whole() {
    let bundle = SpendBundle {
        coin_spends: vec![CoinSpend {
            coin: Coin {
                parent_coin_info: "0x01".to_string(),
                puzzle_hash: "0x02".to_string(),
                amount: 3,
            },
            puzzle_reveal: "0x80".to_string(),
            solution: "0x81".to_string(),
        }],
        aggregated_signature: "0xc0".to_string(),
    };
    let request = client().push_tx(&bundle);
    assert_eq!(request.url, "https://api.coinset.org/push_tx");
    let written = object(vec![
        ("aggregated_signature", text("0xc0")),
        (
            "coin_spends",
            Value::Array(vec![object(vec![
                (
                    "coin",
                    object(vec![
                        ("amount", Value::number(3)),
                        ("parent_coin_info", text("0x01")),
                        ("puzzle_hash", text("0x02")),
                    ]),
                ),
                ("puzzle_reveal", text("0x80")),
                ("solution", text("0x81")),
            ])]),
        ),
    ]);
    assert_eq!(request.body, object(vec![("spend_bundle", written)]));
    assert_eq!(request.answer, Answer::Whole);
}

#[test]
fn a_fee_question_without_a_bundle_or_times_asks_by_cost() {
    let request = client().get_fee_estimate(None, None, None);
    assert_eq!(request.body, object(vec![("cost", Value::number(1))]));
    let request = client().get_fee_estimate(None, Some(&[60, 300]), Some(2));
    assert_eq!(
        request.body,
        object(vec![
            ("cost", Value::number(1)),
            ("target_times", Value::Array(vec![Value::number(60), Value::number(300)])),
            ("spend_count", Value::number(2)),
        ])
    );
}

#[test]
fn one_member_of_an_answer_is_taken_out() {
    let response = || {
        object(vec![
            ("success", Value::Bool(true)),
            ("block", Value::number(1)),
            ("other", Value::number(2)),
        ])
    };
    assert_eq!(post_extract(response(), "block"), Ok(Value::number(1)));
    assert_eq!(post_extract(response(), "absent"), Ok(Value::Null));
    assert_eq!(
        post_extract(object(vec![("block", Value::number(1)), ("error", text("no"))]), "block"),
        Err(ChiaQueryError::CoinsetApiError("no".to_string()))
    );
}

#[test]
fn a_raw_question_keeps_its_body_and_takes_the_whole_response() {
    let request = client().post_raw("get_network_info", Value::Array(vec![Value::Null]));
    assert_eq!(request.url, "https://api.coinset.org/get_network_info");
    assert_eq!(request.body, Value::Array(vec![Value::Null]));
    assert_eq!(request.answer, Answer::Whole);
}
