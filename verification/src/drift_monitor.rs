//! What the drift monitor asks coinset, and what it concludes.

use vstd::prelude::*;

use crate::coinset::{number_member, text_member, Body};
use crate::drift::{diff_shapes, drifts, shape, shape_of};
use crate::json::{
    by_key, in_key_order, law_members_by_key_stand_in_key_order, lemma_value_view, members_view,
    put_member, Member, MemberView, Value, ValueView,
};
use crate::types::texts_view;

verus! {

/// Where the committed shapes are kept.
pub const SNAPSHOT_PATH: &'static str = "tests/fixtures/coinset-api-snapshot.json";

/// The server that is watched.
pub const BASE_URL: &'static str = "https://api.coinset.org";

/// One question of the monitor.
pub struct Probe {
    /// What its shape is kept under. Two questions to one endpoint have two names.
    pub name: &'static str,
    pub endpoint: &'static str,
    pub body: Value,
}

/// The questions of the monitor: the chain's state, the network, a block that does not change, and
/// a coin that does not exist, for the shape of an error.
pub fn probes() -> (probes: Vec<Probe>)
    ensures
        probes@.len() == 4,
        probes@[0].name@ == "get_blockchain_state"@,
        probes@[0].endpoint@ == "get_blockchain_state"@,
        probes@[0].body@ == ValueView::Object(Seq::empty()),
        probes@[1].name@ == "get_network_info"@,
        probes@[1].endpoint@ == "get_network_info"@,
        probes@[1].body@ == ValueView::Object(Seq::empty()),
        probes@[2].name@ == "get_block_record_by_height"@,
        probes@[2].endpoint@ == "get_block_record_by_height"@,
        probes@[2].body@ == ValueView::Object(seq![number_member("height"@, 1)]),
        probes@[3].name@ == "get_coin_record_by_name__error"@,
        probes@[3].endpoint@ == "get_coin_record_by_name"@,
        probes@[3].body@ == ValueView::Object(
            seq![
                text_member(
                    "name"@,
                    "0x0000000000000000000000000000000000000000000000000000000000000000"@,
                ),
            ],
        ),
{
    let mut probes: Vec<Probe> = Vec::new();
    probes.push(
        Probe {
            name: "get_blockchain_state",
            endpoint: "get_blockchain_state",
            body: Body::new().finish(),
        },
    );
    probes.push(
        Probe {
            name: "get_network_info",
            endpoint: "get_network_info",
            body: Body::new().finish(),
        },
    );
    probes.push(
        Probe {
            name: "get_block_record_by_height",
            endpoint: "get_block_record_by_height",
            body: Body::new().with("height", Value::number(1)).finish(),
        },
    );
    probes.push(
        Probe {
            name: "get_coin_record_by_name__error",
            endpoint: "get_coin_record_by_name",
            body: Body::new().with(
                "name",
                Value::text("0x0000000000000000000000000000000000000000000000000000000000000000"),
            ).finish(),
        },
    );
    probes
}

/// A response and the name its shape is kept under.
pub struct Probed {
    pub name: String,
    pub response: Value,
}

/// The shapes of `probed`, each under its name, in order.
pub open spec fn shapes(probed: Seq<Probed>) -> Seq<MemberView> {
    probed.map_values(|p: Probed| MemberView { key: p.name@, value: shape(p.response@) })
}

/// The shapes of all responses, each under its name, by name. Of two under one name the last is
/// kept.
pub fn collect_shapes(probed: &[Probed]) -> (live: Value)
    ensures
        live@ == ValueView::Object(by_key(shapes(probed@))),
        in_key_order(live@->Object_0),
{
    broadcast use lemma_value_view;

    let mut members: Vec<Member> = Vec::new();
    let mut i: usize = 0;
    while i < probed.len()
        invariant
            i <= probed.len(),
            members_view(members@) == by_key(shapes(probed@.take(i as int))),
        decreases probed.len() - i,
    {
        let one = Member {
            key: probed[i].name.clone(),
            value: shape_of(&probed[i].response),
        };
        assert(shapes(probed@.take(i + 1)).drop_last() =~= shapes(probed@.take(i as int)));
        assert(shapes(probed@.take(i + 1)).last() == one@);
        put_member(&mut members, one);
        i = i + 1;
    }
    assert(probed@.take(i as int) =~= probed@);
    proof {
        law_members_by_key_stand_in_key_order(shapes(probed@));
    }
    Value::Object(members)
}

/// What the monitor is run for.
#[derive(Clone, Copy, Debug, PartialEq, Eq, Structural)]
pub enum Mode {
    /// Compare with the committed shapes.
    Check,
    /// Commit the shapes there are.
    Update,
}

/// Reads what the monitor is run for. Nothing said means a check.
pub fn read_mode(said: Option<&str>) -> (mode: Result<Mode, String>)
    ensures
        match said {
            None => mode == Ok::<Mode, String>(Mode::Check),
            Some(word) => if word@ == "check"@ {
                mode == Ok::<Mode, String>(Mode::Check)
            } else if word@ == "update"@ {
                mode == Ok::<Mode, String>(Mode::Update)
            } else {
                mode matches Err(message) && message@ == "unknown mode `"@ + word@
                    + "` (expected `check` or `update`)"@
            },
        },
{
    match said {
        None => Ok(Mode::Check),
        Some(word) => {
            let word = String::from_str(word);
            if word == String::from_str("check") {
                Ok(Mode::Check)
            } else if word == String::from_str("update") {
                Ok(Mode::Update)
            } else {
                Err(
                    String::from_str("unknown mode `").concat(word.as_str()).concat(
                        "` (expected `check` or `update`)",
                    ),
                )
            }
        },
    }
}

/// What a check comes to: a report, and whether nothing changed.
pub struct Findings {
    pub lines: Vec<String>,
    pub unchanged: bool,
}

/// `lines` after a heading, each as an item.
pub open spec fn listed(heading: Seq<char>, lines: Seq<Seq<char>>) -> Seq<Seq<char>> {
    seq![heading] + lines.map_values(|line: Seq<char>| "- "@ + line)
}

/// Compares the live shapes with the committed ones.
pub fn check(baseline: &Value, live: &Value) -> (findings: Findings)
    ensures
        findings.unchanged == (drifts(""@, baseline@, live@).len() == 0),
        texts_view(findings.lines@) == (if findings.unchanged {
            seq!["no drift: coinset.org matches the committed snapshot"@]
        } else {
            listed(
                "DRIFT DETECTED against tests/fixtures/coinset-api-snapshot.json:"@,
                drifts(""@, baseline@, live@),
            )
        }),
{
    let found = diff_shapes("", baseline, live);
    let ghost all = drifts(""@, baseline@, live@);
    assert(texts_view(found@).len() == found@.len());
    let mut lines: Vec<String> = Vec::new();
    if found.len() == 0 {
        let line = String::from_str("no drift: coinset.org matches the committed snapshot");
        lines.push(line);
        assert(texts_view(lines@) =~= seq![line@]);
        return Findings { lines, unchanged: true };
    }
    let heading = String::from_str(
        "DRIFT DETECTED against tests/fixtures/coinset-api-snapshot.json:",
    );
    lines.push(heading);
    let mut i: usize = 0;
    assert(texts_view(lines@) =~= listed(heading@, all.take(0)));
    while i < found.len()
        invariant
            i <= found.len(),
            all == texts_view(found@),
            texts_view(lines@) == listed(heading@, all.take(i as int)),
        decreases found.len() - i,
    {
        let ghost before = texts_view(lines@);
        let line = String::from_str("- ").concat(found[i].as_str());
        assert(texts_view(lines@.push(line)) =~= before.push(line@));
        assert(listed(heading@, all.take(i + 1)) =~= listed(heading@, all.take(i as int)).push(
            "- "@ + all[i as int],
        ));
        lines.push(line);
        i = i + 1;
    }
    assert(all.take(i as int) =~= all);
    Findings { lines, unchanged: false }
}

/// Every probe is collected under its name, with the shape of what came back for it.
pub proof fn law_every_probe_is_collected(probed: Seq<Probed>, i: int)
    requires
        0 <= i < probed.len(),
        forall|j: int| i < j < probed.len() ==> (#[trigger] probed[j]).name@ != probed[i].name@,
    ensures
        ValueView::Object(by_key(shapes(probed))).get(probed[i].name@) == Some(
            shape(probed[i].response@),
        ),
{
    crate::json::law_members_by_key_stand_in_key_order(shapes(probed));
    lemma_last_shape(probed, i);
    assert(crate::json::member(by_key(shapes(probed)), probed[i].name@)
        == crate::json::last_member(shapes(probed), probed[i].name@));
}

proof fn lemma_last_shape(probed: Seq<Probed>, i: int)
    requires
        0 <= i < probed.len(),
        forall|j: int| i < j < probed.len() ==> (#[trigger] probed[j]).name@ != probed[i].name@,
    ensures
        crate::json::last_member(shapes(probed), probed[i].name@) == Some(
            shape(probed[i].response@),
        ),
    decreases probed.len(),
{
    let last = probed.len() - 1;
    assert(shapes(probed).last() == MemberView {
        key: probed[last].name@,
        value: shape(probed[last].response@),
    });
    if i < last {
        let init = probed.drop_last();
        assert(shapes(init) =~= shapes(probed).drop_last());
        assert(init[i] == probed[i]);
        assert forall|j: int| i < j < init.len() implies (#[trigger] init[j]).name@
            != init[i].name@ by {
            assert(init[j] == probed[j]);
        }
        lemma_last_shape(init, i);
        assert(probed[last].name@ != probed[i].name@);
    }
}

/// A report is its heading and then every line, each as an item and in order.
pub proof fn law_a_report_lists_every_line(heading: Seq<char>, lines: Seq<Seq<char>>, i: int)
    ensures
        listed(heading, lines).len() == lines.len() + 1,
        listed(heading, lines)[0] == heading,
        0 <= i < lines.len() ==> listed(heading, lines)[i + 1] == "- "@ + lines[i],
{
}

/// The monitor checks unless it is told to update, and takes no other word.
pub proof fn law_the_monitor_checks_unless_told_to_update(
    said: Option<&str>,
    mode: Result<Mode, String>,
)
    requires
        call_ensures(read_mode, (said,), mode),
    ensures
        said is None ==> mode == Ok::<Mode, String>(Mode::Check),
        said matches Some(word) ==> {
            &&& mode == Ok::<Mode, String>(Mode::Check) <==> word@ == "check"@
            &&& mode == Ok::<Mode, String>(Mode::Update) <==> word@ == "update"@
            &&& mode matches Err(message) ==> message@ == "unknown mode `"@ + word@
                + "` (expected `check` or `update`)"@
        },
{
    reveal_strlit("check");
    reveal_strlit("update");
    assert("check"@.len() == 5 && "update"@.len() == 6);
}

/// A check finds nothing exactly if no line of drift is shown, and lists every line otherwise.
pub proof fn law_a_check_lists_every_line(baseline: Value, live: Value, findings: Findings, i: int)
    requires
        call_ensures(check, (&baseline, &live), findings),
    ensures
        findings.unchanged <==> crate::drift::alike(baseline@, live@),
        !findings.unchanged ==> findings.lines@.len() == drifts(""@, baseline@, live@).len() + 1,
        !findings.unchanged && 0 <= i < drifts(""@, baseline@, live@).len()
            ==> findings.lines@[i + 1]@ == "- "@ + drifts(""@, baseline@, live@)[i],
        findings.unchanged ==> findings.lines@.len() == 1,
{
    crate::drift::law_no_drift_exactly_when_shapes_match(""@, baseline@, live@);
    let views = texts_view(findings.lines@);
    assert(views.len() == findings.lines@.len());
    if !findings.unchanged && 0 <= i < drifts(""@, baseline@, live@).len() {
        assert(views[i + 1] == findings.lines@[i + 1]@);
    }
}

} // verus!
