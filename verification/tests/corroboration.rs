use chia_query::address::{IpAddr, SocketAddr};
use chia_query::peer::backend::PeerBackend;
use chia_query::peer::connect::PeerOrigin;
use chia_query::peer::corroboration::{corroborated, OptAnswer, Voice};
use chia_query::peer::plurality::CORROBORATION_FLOOR;
use chia_query::peer::pool::CorroborationReadiness;
use chia_query::types::ChiaQueryError;
use chia_query::NetworkType;

/// What a scripted peer says when asked. The claim of an answer is its text.
#[derive(Debug, Clone, Copy, PartialEq, Eq)]
enum Says {
    Absent,
    Present,
    PresentOther,
    Fails,
}

impl Says {
    fn outcome(self) -> Result<Option<String>, ChiaQueryError> {
        match self {
            Says::Absent => Ok(None),
            Says::Present => Ok(Some("the thing".to_string())),
            Says::PresentOther => Ok(Some("a different thing".to_string())),
            Says::Fails => Err(ChiaQueryError::PeerConnection("scripted failure".to_string())),
        }
    }
}

fn address(octet: u8) -> SocketAddr {
    SocketAddr::new(IpAddr::v4(203, 0, 113, octet), 8444)
}

/// A backend over exactly the peers given.
fn backend_over(members: &[(Says, PeerOrigin)]) -> PeerBackend<Says> {
    let mut backend = PeerBackend::new(NetworkType::Mainnet, members.len());
    for (i, (says, origin)) in members.iter().enumerate() {
        assert!(
            backend
                .pool
                .admit_and_follow(*says, address(i as u8 + 1), *origin, 0)
                .is_some(),
            "each scripted peer must be admitted under its own address"
        );
    }
    backend
}

/// Makes the corroborated read, and reports how many peers were asked.
fn read_scripted(
    backend: &mut PeerBackend<Says>,
) -> (Result<OptAnswer<String>, ChiaQueryError>, usize) {
    let says = |backend: &PeerBackend<Says>, at: SocketAddr| {
        *backend.pool.connection(at).expect("every peer of the pool is scripted")
    };
    let asked = backend.put().expect("a peer is held").asked;
    let first = says(backend, asked).outcome();
    let round = match backend.open_round(asked, first) {
        Ok(round) => round,
        Err(e) => return (Err(e), 1),
    };
    let voices: Vec<Voice> = round
        .others
        .iter()
        .map(|at| Voice::heard(*at, format!("{at:?}"), &says(backend, *at).outcome()))
        .collect();
    let consulted = 1 + voices.len();
    let graded = backend.read_opt_corroborated(&format!("{asked:?}"), round, voices);
    (graded, consulted)
}

#[test]
fn one_peer_saying_absent_is_not_an_absence() {
    let mut backend = backend_over(&[(Says::Absent, PeerOrigin::Discovered)]);

    let (answer, asked) = read_scripted(&mut backend);

    assert_eq!(
        answer.expect("a lone absent answer is not an ERROR, it is an ungraded fact"),
        OptAnswer::UncorroboratedAbsent,
        "absence on one peer's word must be reported as uncorroborated"
    );
    assert_eq!(asked, 1, "there was only one peer to ask");
}

#[test]
fn a_preferred_peer_agreeing_is_not_corroboration() {
    let mut backend = backend_over(&[
        (Says::Absent, PeerOrigin::Discovered),
        (Says::Absent, PeerOrigin::Priority),
    ]);

    let (answer, asked) = read_scripted(&mut backend);

    assert_eq!(
        answer.expect("no read failed"),
        OptAnswer::UncorroboratedAbsent,
        "a preferred peer is not an independent voice, however honestly it agrees"
    );
    assert_eq!(asked, 1, "the preferred peer must not even be consulted");
}

#[test]
fn a_floor_of_independent_peers_agreeing_is_an_absence() {
    let mut backend = backend_over(&[
        (Says::Absent, PeerOrigin::Discovered),
        (Says::Absent, PeerOrigin::Discovered),
        (Says::Absent, PeerOrigin::Discovered),
    ]);

    let (answer, asked) = read_scripted(&mut backend);

    assert_eq!(
        answer.expect("no read failed"),
        OptAnswer::CorroboratedAbsent
    );
    assert_eq!(asked, 3);
}

#[test]
fn a_contradicting_peer_is_refused_not_broken_in_either_direction() {
    let mut backend = backend_over(&[
        (Says::Absent, PeerOrigin::Discovered),
        (Says::Present, PeerOrigin::Discovered),
    ]);

    let (answer, _) = read_scripted(&mut backend);

    assert!(
        matches!(answer, Err(ChiaQueryError::SourcesDisagree(_))),
        "a contradiction is evidence about the sources, not a tie to break: got {answer:?}"
    );
}

#[test]
fn a_corroborator_that_fails_leaves_the_absence_uncorroborated() {
    let mut backend = backend_over(&[
        (Says::Absent, PeerOrigin::Discovered),
        (Says::Fails, PeerOrigin::Discovered),
    ]);

    let (answer, asked) = read_scripted(&mut backend);

    assert_eq!(
        answer.expect("the FIRST peer answered, so the read did not fail"),
        OptAnswer::UncorroboratedAbsent,
        "silence from the second peer is not agreement"
    );
    assert_eq!(asked, 2, "the corroborator was asked and failed");
    assert_eq!(
        backend.pool.held_addresses(),
        vec![address(1)],
        "a peer that could not answer is dropped"
    );
}

#[test]
fn one_peer_saying_present_is_not_a_corroborated_presence() {
    let mut backend = backend_over(&[(Says::Present, PeerOrigin::Discovered)]);

    let (answer, asked) = read_scripted(&mut backend);

    assert_eq!(
        answer.expect("a lone positive answer is not an ERROR, it is an ungraded fact"),
        OptAnswer::UncorroboratedFound("the thing".to_string()),
        "presence on one peer's word must be reported as uncorroborated"
    );
    assert_eq!(asked, 1, "there was only one peer to ask");
}

#[test]
fn a_floor_of_independent_peers_agreeing_makes_the_presence_corroborated() {
    let mut backend = backend_over(&[
        (Says::Present, PeerOrigin::Discovered),
        (Says::Present, PeerOrigin::Discovered),
        (Says::Present, PeerOrigin::Discovered),
    ]);

    let (answer, asked) = read_scripted(&mut backend);

    assert_eq!(
        answer.expect("no read failed"),
        OptAnswer::Found("the thing".to_string())
    );
    assert_eq!(asked, 3);
}

#[test]
fn corroborators_that_claim_different_chain_state_disagree() {
    let mut backend = backend_over(&[
        (Says::Present, PeerOrigin::Discovered),
        (Says::PresentOther, PeerOrigin::Discovered),
    ]);

    let (answer, _) = read_scripted(&mut backend);

    assert!(
        matches!(answer, Err(ChiaQueryError::SourcesDisagree(_))),
        "two different claims about the same coin is evidence, not a tie to break: got {answer:?}"
    );
}

#[test]
fn the_first_peers_answer_does_not_decide_against_the_corroborators() {
    let mut backend = backend_over(&[
        (Says::PresentOther, PeerOrigin::Discovered),
        (Says::Present, PeerOrigin::Discovered),
        (Says::Present, PeerOrigin::Discovered),
    ]);

    let (answer, asked) = read_scripted(&mut backend);

    assert!(
        matches!(answer, Err(ChiaQueryError::SourcesDisagree(_))),
        "a contradicted first answer is refused, in either direction: got {answer:?}"
    );
    assert_eq!(asked, 3, "every corroborator is asked");
}

#[test]
fn a_corroborator_reporting_absent_contradicts_the_presence() {
    let mut backend = backend_over(&[
        (Says::Present, PeerOrigin::Discovered),
        (Says::Absent, PeerOrigin::Discovered),
    ]);

    let (answer, _) = read_scripted(&mut backend);

    assert!(
        matches!(answer, Err(ChiaQueryError::SourcesDisagree(_))),
        "present-then-absent is the same contradiction as absent-then-present: got {answer:?}"
    );
}

#[test]
fn a_corroborator_that_fails_leaves_the_presence_uncorroborated() {
    let mut backend = backend_over(&[
        (Says::Present, PeerOrigin::Discovered),
        (Says::Fails, PeerOrigin::Discovered),
    ]);

    let (answer, asked) = read_scripted(&mut backend);

    assert_eq!(
        answer.expect("the FIRST peer answered, so the read did not fail"),
        OptAnswer::UncorroboratedFound("the thing".to_string()),
        "silence from the corroborator is not agreement"
    );
    assert_eq!(asked, 2, "the corroborator was asked and failed");
}

#[test]
fn a_preferred_peer_agreeing_is_not_corroboration_of_presence() {
    let mut backend = backend_over(&[
        (Says::Present, PeerOrigin::Discovered),
        (Says::Present, PeerOrigin::Priority),
    ]);

    let (answer, asked) = read_scripted(&mut backend);

    assert_eq!(
        answer.expect("no read failed"),
        OptAnswer::UncorroboratedFound("the thing".to_string()),
        "a preferred peer is not an independent voice, however honestly it agrees"
    );
    assert_eq!(asked, 1, "the preferred peer must not even be consulted");
}

#[test]
fn agreement_alone_does_not_corroborate_when_the_pool_was_not_armed() {
    let unarmed = CorroborationReadiness::Insufficient {
        corroborators: 1,
        required: CORROBORATION_FLOOR,
    };

    assert!(
        !corroborated(unarmed, CORROBORATION_FLOOR),
        "a pool that held too few independent peers has corroborated nothing, however many \
         voices answered"
    );
}

#[test]
fn an_armed_pool_with_a_floor_of_agreement_corroborates() {
    let armed = CorroborationReadiness::Armed {
        corroborators: CORROBORATION_FLOOR,
    };

    assert!(corroborated(armed, CORROBORATION_FLOOR));
    assert!(
        !corroborated(armed, CORROBORATION_FLOOR - 1),
        "an armed pool whose corroborators timed out has corroborated nothing"
    );
}

#[test]
fn a_first_peer_that_fails_is_dropped_and_nobody_else_is_asked() {
    let mut backend = backend_over(&[
        (Says::Fails, PeerOrigin::Discovered),
        (Says::Present, PeerOrigin::Discovered),
    ]);

    let (answer, asked) = read_scripted(&mut backend);

    assert_eq!(answer, Err(ChiaQueryError::PeerConnection("scripted failure".to_string())));
    assert_eq!(asked, 1);
    assert_eq!(backend.pool.held_addresses(), vec![address(2)]);
}

#[test]
fn a_peer_that_arrives_in_the_middle_of_a_question_does_not_arm_it() {
    let mut backend = PeerBackend::new(NetworkType::Mainnet, 4);
    for octet in 1..=2u8 {
        backend
            .pool
            .admit_and_follow((), address(octet), PeerOrigin::Discovered, 0)
            .expect("admitted");
    }
    let question = backend.put().expect("a peer is held");
    for octet in 3..=4u8 {
        backend
            .pool
            .admit_and_follow((), address(octet), PeerOrigin::Discovered, 0)
            .expect("admitted");
    }
    let round = backend.open_set_round(question, Ok(())).expect("it answered");
    assert_eq!(round.others.len(), 3);
    assert_eq!(
        round.readiness,
        CorroborationReadiness::Insufficient { corroborators: 1, required: CORROBORATION_FLOOR }
    );
}

#[test]
fn an_empty_pool_has_nobody_to_ask() {
    let mut backend = PeerBackend::<()>::new(NetworkType::Mainnet, 4);
    assert_eq!(
        backend.put().err(),
        Some(ChiaQueryError::PeerConnection("no peers available".to_string()))
    );
}

#[test]
fn exactly_two_peers_agreeing_corroborate_nothing_in_either_direction() {
    for (says, expected) in [
        (Says::Present, OptAnswer::UncorroboratedFound("the thing".to_string())),
        (Says::Absent, OptAnswer::UncorroboratedAbsent),
    ] {
        let mut backend =
            backend_over(&[(says, PeerOrigin::Discovered), (says, PeerOrigin::Discovered)]);
        let (answer, asked) = read_scripted(&mut backend);
        assert_eq!(answer.expect("no read failed"), expected);
        assert_eq!(asked, 2);
    }
}

#[test]
fn only_the_peers_of_a_round_are_heard_and_each_once() {
    let three = [(Says::Present, PeerOrigin::Discovered); 3];
    let preferred = (Says::Present, PeerOrigin::Priority);
    let members = [three[0], three[1], three[2], preferred];
    let present = |octet: u8| {
        let outcome = Says::Present.outcome();
        Voice::heard(address(octet), format!("p{octet}"), &outcome)
    };
    let graded = |octets: &[u8]| {
        let mut backend = backend_over(&members);
        let asked = backend.put().expect("a peer is held").asked;
        assert_eq!(asked, address(1));
        let round = backend.open_round(asked, Says::Present.outcome()).expect("it answered");
        assert_eq!(round.others, vec![address(2), address(3)]);
        let voices = octets.iter().map(|octet| present(*octet)).collect();
        backend.read_opt_corroborated("p1", round, voices).expect("nothing is contradicted")
    };
    let thing = || "the thing".to_string();
    assert_eq!(graded(&[2, 3]), OptAnswer::Found(thing()));
    assert_eq!(graded(&[1, 1]), OptAnswer::UncorroboratedFound(thing()));
    assert_eq!(graded(&[2, 2]), OptAnswer::UncorroboratedFound(thing()));
    assert_eq!(graded(&[2, 4]), OptAnswer::UncorroboratedFound(thing()));
    assert_eq!(graded(&[4, 3, 1, 2, 3]), OptAnswer::Found(thing()));
}

#[test]
fn a_voice_from_outside_a_round_neither_contradicts_nor_is_dropped() {
    let mut backend = backend_over(&[
        (Says::Present, PeerOrigin::Discovered),
        (Says::Present, PeerOrigin::Discovered),
        (Says::Fails, PeerOrigin::Priority),
    ]);
    let asked = backend.put().expect("a peer is held").asked;
    let round = backend.open_round(asked, Says::Present.outcome()).expect("it answered");
    let voices = vec![
        Voice::heard(address(3), "p3".to_string(), &Says::Fails.outcome()),
        Voice::heard(address(9), "p9".to_string(), &Says::Absent.outcome()),
    ];
    assert_eq!(
        backend.read_opt_corroborated("p1", round, voices),
        Ok(OptAnswer::UncorroboratedFound("the thing".to_string()))
    );
    assert_eq!(backend.peer_count(), 3);
}
