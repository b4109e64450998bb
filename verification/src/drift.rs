//! Changes in the shape of what coinset answers.
//!
//! The values of an answer change all the time; its keys and their types are what a reader relies
//! on. An answer is reduced to those, and compared with what it was reduced to before.

use vstd::prelude::*;

use crate::json::{
    find_member, items_view, lemma_value_view, member, members_view, Member, MemberView, Number,
    NumberView, Value, ValueView,
};
use crate::types::texts_view;

verus! {

/// The keys of a value and the type of each: an object keeps its keys, an array is taken to be
/// like its first item, and anything else is the name of its type.
pub open spec fn shape(value: ValueView) -> ValueView
    decreases value,
{
    match value {
        ValueView::Object(members) => ValueView::Object(
            Seq::new(
                members.len(),
                |i: int|
                    if 0 <= i < members.len() {
                        MemberView { key: members[i].key, value: shape(members[i].value) }
                    } else {
                        MemberView { key: Seq::empty(), value: ValueView::Null }
                    },
            ),
        ),
        ValueView::Array(items) => if items.len() > 0 {
            ValueView::Array(seq![shape(items[0])])
        } else {
            ValueView::Array(Seq::empty())
        },
        ValueView::String(_) => ValueView::String("string"@),
        ValueView::Number(NumberView::Real(_)) => ValueView::String("number"@),
        ValueView::Number(_) => ValueView::String("integer"@),
        ValueView::Bool(_) => ValueView::String("boolean"@),
        ValueView::Null => ValueView::String("null"@),
    }
}

/// The shape of a value.
pub fn shape_of(value: &Value) -> (shaped: Value)
    ensures
        shaped@ == shape(value@),
    decreases value,
{
    broadcast use lemma_value_view;

    match value {
        Value::Object(members) => {
            let mut shaped: Vec<Member> = Vec::new();
            let ghost all = shape(value@)->Object_0;
            let mut i: usize = 0;
            while i < members.len()
                invariant
                    i <= members.len(),
                    *value == Value::Object(*members),
                    all == shape(value@)->Object_0,
                    value@ == ValueView::Object(members_view(members@)),
                    members_view(shaped@) == all.take(i as int),
                decreases members.len() - i,
            {
                let ghost before = members_view(shaped@);
                let inner = shape_of(&members[i].value);
                let one = Member { key: members[i].key.clone(), value: inner };
                assert(members_view(members@)[i as int] == members@[i as int]@);
                assert(all[i as int] == one@);
                assert(members_view(shaped@.push(one)) =~= before.push(one@));
                assert(all.take(i + 1) =~= all.take(i as int).push(all[i as int]));
                shaped.push(one);
                i = i + 1;
            }
            assert(all.take(i as int) =~= all);
            Value::Object(shaped)
        },
        Value::Array(items) => {
            let mut shaped: Vec<Value> = Vec::new();
            if items.len() > 0 {
                let inner = shape_of(&items[0]);
                assert(items_view(items@)[0] == items@[0]@);
                shaped.push(inner);
                assert(items_view(shaped@) =~= seq![shape(items_view(items@)[0])]);
            } else {
                assert(items_view(shaped@) =~= Seq::<ValueView>::empty());
            }
            Value::Array(shaped)
        },
        Value::String(_) => Value::text("string"),
        Value::Number(number) => match number {
            Number::Real(_) => Value::text("number"),
            _ => Value::text("integer"),
        },
        Value::Bool(_) => Value::text("boolean"),
        Value::Null => Value::text("null"),
    }
}

/// The structure of a shape, in a word.
pub open spec fn structure(value: ValueView) -> Seq<char> {
    match value {
        ValueView::Object(_) => "object"@,
        ValueView::Array(_) => "array"@,
        _ => "scalar"@,
    }
}

/// Where the member `key` of what is at `path` is.
pub open spec fn below(path: Seq<char>, key: Seq<char>) -> Seq<char> {
    if path.len() == 0 {
        key
    } else {
        path + "."@ + key
    }
}

/// What changed at `path` from one shape to another, one line each.
pub open spec fn drifts(path: Seq<char>, baseline: ValueView, current: ValueView) -> Seq<Seq<char>>
    decreases baseline, 0int,
{
    match (baseline, current) {
        (ValueView::Object(base), ValueView::Object(cur)) => member_drifts(path, base, cur)
            + additions(path, base, cur),
        (ValueView::Array(base), ValueView::Array(cur)) => if base.len() > 0 && cur.len() > 0 {
            drifts(path + "[]"@, base[0], cur[0])
        } else {
            Seq::empty()
        },
        (ValueView::String(base), ValueView::String(cur)) => if base == cur {
            Seq::empty()
        } else {
            seq![path + ": type changed "@ + base + " -> "@ + cur]
        },
        _ => seq![
            path + ": structure changed "@ + structure(baseline) + " -> "@ + structure(current),
        ],
    }
}

/// What became of the members there were, in order.
pub open spec fn member_drifts(
    path: Seq<char>,
    base: Seq<MemberView>,
    cur: Seq<MemberView>,
) -> Seq<Seq<char>>
    decreases base, 1int,
{
    if base.len() == 0 {
        Seq::empty()
    } else {
        let last = base[base.len() - 1];
        let child = below(path, last.key);
        member_drifts(path, base.drop_last(), cur) + match member(cur, last.key) {
            Some(value) => drifts(child, last.value, value),
            None => seq![child + ": key removed"@],
        }
    }
}

/// The members there were not before, in order.
pub open spec fn additions(path: Seq<char>, base: Seq<MemberView>, cur: Seq<MemberView>) -> Seq<
    Seq<char>,
>
    decreases cur.len(),
{
    if cur.len() == 0 {
        Seq::empty()
    } else {
        let before = additions(path, base, cur.drop_last());
        if member(base, cur.last().key) is Some {
            before
        } else {
            before.push(below(path, cur.last().key) + ": key added"@)
        }
    }
}

fn structure_text(value: &Value) -> (text: &'static str)
    ensures
        text@ == structure(value@),
{
    broadcast use lemma_value_view;

    match value {
        Value::Object(_) => "object",
        Value::Array(_) => "array",
        _ => "scalar",
    }
}

fn below_text(path: &str, key: &String) -> (text: String)
    ensures
        text@ == below(path@, key@),
{
    if path.is_empty() {
        key.clone()
    } else {
        String::from_str(path).concat(".").concat(key.as_str())
    }
}

/// Compares two shapes at `path`, and says what changed, one line each.
///
/// An array that is empty on either side has no items to compare: that is no change.
pub fn diff_shapes(path: &str, baseline: &Value, current: &Value) -> (lines: Vec<String>)
    ensures
        texts_view(lines@) == drifts(path@, baseline@, current@),
    decreases baseline, 0int,
{
    broadcast use lemma_value_view;

    let mut lines: Vec<String> = Vec::new();
    assert(texts_view(lines@) =~= Seq::<Seq<char>>::empty());
    match (baseline, current) {
        (Value::Object(base), Value::Object(cur)) => {
            return diff_objects(path, base, cur);
        },
        (Value::Array(base), Value::Array(cur)) => {
            if base.len() > 0 && cur.len() > 0 {
                assert(items_view(base@)[0] == base@[0]@);
                assert(items_view(cur@)[0] == cur@[0]@);
                let inner = String::from_str(path).concat("[]");
                return diff_shapes(inner.as_str(), &base[0], &cur[0]);
            }
        },
        (Value::String(base), Value::String(cur)) => {
            if *base != *cur {
                let line = String::from_str(path).concat(": type changed ").concat(
                    base.as_str(),
                ).concat(" -> ").concat(cur.as_str());
                lines.push(line);
                assert(texts_view(lines@) =~= seq![line@]);
            }
        },
        _ => {
            let line = String::from_str(path).concat(": structure changed ").concat(
                structure_text(baseline),
            ).concat(" -> ").concat(structure_text(current));
            lines.push(line);
            assert(texts_view(lines@) =~= seq![line@]);
        },
    }
    lines
}

/// Compares the members of two shapes at `path`.
fn diff_objects(path: &str, base: &Vec<Member>, cur: &Vec<Member>) -> (lines: Vec<String>)
    ensures
        texts_view(lines@) == member_drifts(path@, members_view(base@), members_view(cur@))
            + additions(path@, members_view(base@), members_view(cur@)),
    decreases base, 1int,
{
    let ghost was = members_view(base@);
    let ghost is = members_view(cur@);
    let mut lines: Vec<String> = Vec::new();
    assert(texts_view(lines@) =~= Seq::<Seq<char>>::empty());
    let mut i: usize = 0;
    while i < base.len()
        invariant
            i <= base.len(),
            was == members_view(base@),
            is == members_view(cur@),
            texts_view(lines@) == member_drifts(path@, was.take(i as int), is),
        decreases base.len() - i,
    {
        let ghost before = texts_view(lines@);
        assert(was.take(i + 1).drop_last() =~= was.take(i as int));
        assert(was.take(i + 1)[i as int] == base@[i as int]@);
        let child = below_text(path, &base[i].key);
        match find_member(cur, base[i].key.as_str()) {
            Some(value) => {
                let mut inner = diff_shapes(child.as_str(), &base[i].value, value);
                assert(texts_view(lines@ + inner@) =~= before + texts_view(inner@));
                lines.append(&mut inner);
            },
            None => {
                let line = child.concat(": key removed");
                assert(texts_view(lines@.push(line)) =~= before + seq![line@]);
                lines.push(line);
            },
        }
        i = i + 1;
    }
    assert(was.take(i as int) =~= was);
    let ghost kept = texts_view(lines@);
    let mut j: usize = 0;
    assert(kept + Seq::<Seq<char>>::empty() =~= kept);
    while j < cur.len()
        invariant
            j <= cur.len(),
            was == members_view(base@),
            is == members_view(cur@),
            texts_view(lines@) == kept + additions(path@, was, is.take(j as int)),
        decreases cur.len() - j,
    {
        let ghost before = texts_view(lines@);
        assert(is.take(j + 1).drop_last() =~= is.take(j as int));
        assert(is.take(j + 1).last() == cur@[j as int]@);
        if find_member(base, cur[j].key.as_str()).is_none() {
            let line = below_text(path, &cur[j].key).concat(": key added");
            assert(texts_view(lines@.push(line)) =~= before.push(line@));
            assert(before.push(line@) =~= kept + additions(path@, was, is.take(j as int)).push(
                line@,
            ));
            lines.push(line);
        }
        j = j + 1;
    }
    assert(is.take(j as int) =~= is);
    lines
}

/// No object in a value has a key twice.
pub open spec fn has_distinct_keys(value: ValueView) -> bool
    decreases value,
{
    match value {
        ValueView::Object(members) => {
            &&& forall|i: int, j: int|
                0 <= i < j < members.len() ==> (#[trigger] members[i]).key != (
                #[trigger] members[j]).key
            &&& forall|i: int|
                0 <= i < members.len() ==> has_distinct_keys((#[trigger] members[i]).value)
        },
        ValueView::Array(items) => forall|i: int|
            0 <= i < items.len() ==> has_distinct_keys(#[trigger] items[i]),
        _ => true,
    }
}

proof fn lemma_member_at(members: Seq<MemberView>, i: int)
    requires
        0 <= i < members.len(),
        forall|j: int, k: int|
            0 <= j < k < members.len() ==> (#[trigger] members[j]).key != (
            #[trigger] members[k]).key,
    ensures
        member(members, members[i].key) == Some(members[i].value),
    decreases members.len(),
{
    if i > 0 {
        let tail = members.drop_first();
        assert(members[0].key != members[i].key);
        assert(tail[i - 1] == members[i]);
        assert forall|j: int, k: int| 0 <= j < k < tail.len() implies (#[trigger] tail[j]).key != (
        #[trigger] tail[k]).key by {
            assert(tail[j] == members[j + 1]);
            assert(tail[k] == members[k + 1]);
        }
        lemma_member_at(tail, i - 1);
    }
}

proof fn lemma_no_member_drifts(path: Seq<char>, members: Seq<MemberView>, n: int)
    requires
        0 <= n <= members.len(),
        has_distinct_keys(ValueView::Object(members)),
    ensures
        ({
            let shaped = shape(ValueView::Object(members))->Object_0;
            member_drifts(path, shaped.take(n), shaped) == Seq::<Seq<char>>::empty()
        }),
    decreases members, n,
{
    let shaped = shape(ValueView::Object(members))->Object_0;
    if n > 0 {
        lemma_no_member_drifts(path, members, n - 1);
        let last = shaped[n - 1];
        assert(last == MemberView {
            key: members[n - 1].key,
            value: shape(members[n - 1].value),
        });
        assert forall|j: int, k: int| 0 <= j < k < shaped.len() implies (
        #[trigger] shaped[j]).key != (#[trigger] shaped[k]).key by {
            assert(shaped[j].key == members[j].key);
            assert(shaped[k].key == members[k].key);
        }
        lemma_member_at(shaped, n - 1);
        law_unchanged_shape_shows_no_drift(below(path, last.key), members[n - 1].value);
        assert(shaped.take(n).drop_last() =~= shaped.take(n - 1));
        assert(shaped.take(n)[n - 1] == last);
        assert(Seq::<Seq<char>>::empty() + Seq::<Seq<char>>::empty()
            =~= Seq::<Seq<char>>::empty());
    }
}

proof fn lemma_no_additions(path: Seq<char>, members: Seq<MemberView>, n: int)
    requires
        0 <= n <= members.len(),
        forall|j: int, k: int|
            0 <= j < k < members.len() ==> (#[trigger] members[j]).key != (
            #[trigger] members[k]).key,
    ensures
        additions(path, members, members.take(n)) == Seq::<Seq<char>>::empty(),
    decreases n,
{
    if n > 0 {
        lemma_no_additions(path, members, n - 1);
        assert(members.take(n).drop_last() =~= members.take(n - 1));
        assert(members.take(n).last() == members[n - 1]);
        lemma_member_at(members, n - 1);
    }
}

/// An answer whose shape has not changed shows no drift, whatever its values are.
pub proof fn law_unchanged_shape_shows_no_drift(path: Seq<char>, value: ValueView)
    requires
        has_distinct_keys(value),
    ensures
        drifts(path, shape(value), shape(value)) == Seq::<Seq<char>>::empty(),
    decreases value,
{
    match value {
        ValueView::Object(members) => {
            let shaped = shape(value)->Object_0;
            lemma_no_member_drifts(path, members, members.len() as int);
            assert(shaped.take(members.len() as int) =~= shaped);
            assert forall|j: int, k: int| 0 <= j < k < shaped.len() implies (
            #[trigger] shaped[j]).key != (#[trigger] shaped[k]).key by {
                assert(shaped[j].key == members[j].key);
                assert(shaped[k].key == members[k].key);
            }
            lemma_no_additions(path, shaped, shaped.len() as int);
            assert(Seq::<Seq<char>>::empty() + Seq::<Seq<char>>::empty()
                =~= Seq::<Seq<char>>::empty());
        },
        ValueView::Array(items) => {
            if items.len() > 0 {
                law_unchanged_shape_shows_no_drift(path + "[]"@, items[0]);
            }
        },
        _ => {},
    }
}

/// Whether two shapes match: they name one type, they are objects with the same keys that match
/// under each of them, or they are arrays of what matches. An empty array matches any.
pub open spec fn alike(a: ValueView, b: ValueView) -> bool
    decreases a,
{
    match (a, b) {
        (ValueView::Object(base), ValueView::Object(cur)) => {
            &&& forall|i: int|
                0 <= i < base.len() ==> (member(cur, (#[trigger] base[i]).key) is Some && alike(
                    base[i].value,
                    member(cur, base[i].key)->0,
                ))
            &&& forall|j: int|
                0 <= j < cur.len() ==> member(base, (#[trigger] cur[j]).key) is Some
        },
        (ValueView::Array(base), ValueView::Array(cur)) => base.len() > 0 && cur.len() > 0
            ==> alike(base[0], cur[0]),
        (ValueView::String(base), ValueView::String(cur)) => base == cur,
        _ => false,
    }
}

proof fn lemma_member_drifts(path: Seq<char>, base: Seq<MemberView>, cur: Seq<MemberView>)
    ensures
        member_drifts(path, base, cur).len() == 0 <==> forall|i: int|
            0 <= i < base.len() ==> (member(cur, (#[trigger] base[i]).key) is Some && alike(
                base[i].value,
                member(cur, base[i].key)->0,
            )),
    decreases base, 1int,
{
    if base.len() > 0 {
        let init = base.drop_last();
        let last = base[base.len() - 1];
        lemma_member_drifts(path, init, cur);
        if let Some(value) = member(cur, last.key) {
            law_no_drift_exactly_when_shapes_match(below(path, last.key), last.value, value);
        }
        assert forall|i: int| 0 <= i < init.len() implies #[trigger] init[i] == base[i] by {}
        if member_drifts(path, base, cur).len() == 0 {
            assert forall|i: int| 0 <= i < base.len() implies (member(
                cur,
                (#[trigger] base[i]).key,
            ) is Some && alike(base[i].value, member(cur, base[i].key)->0)) by {
                if i < init.len() {
                    assert(init[i] == base[i]);
                }
            }
        }
    }
}

proof fn lemma_additions(path: Seq<char>, base: Seq<MemberView>, cur: Seq<MemberView>)
    ensures
        additions(path, base, cur).len() == 0 <==> forall|j: int|
            0 <= j < cur.len() ==> member(base, (#[trigger] cur[j]).key) is Some,
    decreases cur.len(),
{
    if cur.len() > 0 {
        let init = cur.drop_last();
        lemma_additions(path, base, init);
        assert forall|j: int| 0 <= j < init.len() implies #[trigger] init[j] == cur[j] by {}
        if additions(path, base, cur).len() == 0 {
            assert forall|j: int| 0 <= j < cur.len() implies member(
                base,
                (#[trigger] cur[j]).key,
            ) is Some by {
                if j < init.len() {
                    assert(init[j] == cur[j]);
                }
            }
        }
    }
}

/// No drift is shown exactly when the shapes match: a key that vanished or appeared, a type that
/// changed and a structure that changed all show, and nothing else does.
pub proof fn law_no_drift_exactly_when_shapes_match(
    path: Seq<char>,
    baseline: ValueView,
    current: ValueView,
)
    ensures
        drifts(path, baseline, current).len() == 0 <==> alike(baseline, current),
    decreases baseline, 0int,
{
    match (baseline, current) {
        (ValueView::Object(base), ValueView::Object(cur)) => {
            lemma_member_drifts(path, base, cur);
            lemma_additions(path, base, cur);
        },
        (ValueView::Array(base), ValueView::Array(cur)) => {
            if base.len() > 0 && cur.len() > 0 {
                law_no_drift_exactly_when_shapes_match(path + "[]"@, base[0], cur[0]);
            }
        },
        _ => {},
    }
}

/// The shape of a value names its type and nothing of what it holds: whole numbers are told from
/// others, an object keeps its keys in order, and an array the shape of its first item.
pub proof fn law_shapes_name_the_types(value: ValueView)
    ensures
        value is Null ==> shape(value) == ValueView::String("null"@),
        value is Bool ==> shape(value) == ValueView::String("boolean"@),
        value is String ==> shape(value) == ValueView::String("string"@),
        value matches ValueView::Number(n) ==> shape(value) == ValueView::String(
            match n {
                NumberView::PosInt(_) => "integer"@,
                NumberView::NegInt(_) => "integer"@,
                NumberView::Real(_) => "number"@,
            },
        ),
        value matches ValueView::Array(items) ==> shape(value) is Array && (
        shape(value)->Array_0.len() == (if items.len() == 0 {
            0int
        } else {
            1
        })) && (items.len() > 0 ==> shape(value)->Array_0[0] == shape(items[0])),
        value matches ValueView::Object(members) ==> shape(value) is Object && shape(
            value,
        )->Object_0.len() == members.len() && forall|i: int|
            0 <= i < members.len() ==> shape(value)->Object_0[i].key == (
            #[trigger] members[i]).key && shape(value)->Object_0[i].value == shape(
                members[i].value,
            ),
{
}

proof fn lemma_member_drift_is_told(
    path: Seq<char>,
    base: Seq<MemberView>,
    cur: Seq<MemberView>,
    i: int,
    line: Seq<char>,
)
    requires
        0 <= i < base.len(),
        (match member(cur, base[i].key) {
            Some(value) => drifts(below(path, base[i].key), base[i].value, value),
            None => seq![below(path, base[i].key) + ": key removed"@],
        }).contains(line),
    ensures
        member_drifts(path, base, cur).contains(line),
    decreases base.len(),
{
    let init = base.drop_last();
    let last = base[base.len() - 1];
    let before = member_drifts(path, init, cur);
    let own = match member(cur, last.key) {
        Some(value) => drifts(below(path, last.key), last.value, value),
        None => seq![below(path, last.key) + ": key removed"@],
    };
    assert(member_drifts(path, base, cur) == before + own);
    if i < init.len() {
        assert(init[i] == base[i]);
        lemma_member_drift_is_told(path, init, cur, i, line);
        let k = choose|k: int| 0 <= k < before.len() && before[k] == line;
        assert((before + own)[k] == line);
    } else {
        let k = choose|k: int| 0 <= k < own.len() && own[k] == line;
        assert((before + own)[before.len() + k] == line);
    }
}

proof fn lemma_addition_is_told(
    path: Seq<char>,
    base: Seq<MemberView>,
    cur: Seq<MemberView>,
    j: int,
)
    requires
        0 <= j < cur.len(),
        member(base, cur[j].key) is None,
    ensures
        additions(path, base, cur).contains(below(path, cur[j].key) + ": key added"@),
    decreases cur.len(),
{
    let init = cur.drop_last();
    let before = additions(path, base, init);
    let all = additions(path, base, cur);
    if j < init.len() {
        assert(init[j] == cur[j]);
        lemma_addition_is_told(path, base, init, j);
        let line = below(path, cur[j].key) + ": key added"@;
        let k = choose|k: int| 0 <= k < before.len() && before[k] == line;
        assert(all[k] == line);
    } else {
        assert(all[before.len() as int] == below(path, cur[j].key) + ": key added"@);
    }
}

/// A key that vanished is told where it was, one that appeared where it is, and what changed under a
/// key that stayed is told whole. A path goes on with a dot, and starts without one.
pub proof fn law_every_change_of_an_object_is_told(
    path: Seq<char>,
    base: Seq<MemberView>,
    cur: Seq<MemberView>,
    i: int,
    line: Seq<char>,
)
    ensures
        ({
            let told = drifts(path, ValueView::Object(base), ValueView::Object(cur));
            let at = |key: Seq<char>| if path.len() == 0 {
                key
            } else {
                path + "."@ + key
            };
            &&& 0 <= i < base.len() && member(cur, base[i].key) is None ==> told.contains(
                at(base[i].key) + ": key removed"@,
            )
            &&& 0 <= i < base.len() && member(cur, base[i].key) is Some && drifts(
                at(base[i].key),
                base[i].value,
                member(cur, base[i].key)->0,
            ).contains(line) ==> told.contains(line)
            &&& 0 <= i < cur.len() && member(base, cur[i].key) is None ==> told.contains(
                at(cur[i].key) + ": key added"@,
            )
        }),
{
    let kept = member_drifts(path, base, cur);
    let added = additions(path, base, cur);
    let told = drifts(path, ValueView::Object(base), ValueView::Object(cur));
    assert(told == kept + added);
    assert forall|one: Seq<char>| kept.contains(one) implies told.contains(one) by {
        let k = choose|k: int| 0 <= k < kept.len() && kept[k] == one;
        assert((kept + added)[k] == one);
    }
    assert forall|one: Seq<char>| added.contains(one) implies told.contains(one) by {
        let k = choose|k: int| 0 <= k < added.len() && added[k] == one;
        assert((kept + added)[kept.len() + k] == one);
    }
    if 0 <= i < base.len() {
        let child = below(path, base[i].key);
        match member(cur, base[i].key) {
            Some(value) => {
                if drifts(child, base[i].value, value).contains(line) {
                    lemma_member_drift_is_told(path, base, cur, i, line);
                }
            },
            None => {
                let removed = child + ": key removed"@;
                assert(seq![removed][0] == removed);
                lemma_member_drift_is_told(path, base, cur, i, removed);
            },
        }
    }
    if 0 <= i < cur.len() && member(base, cur[i].key) is None {
        lemma_addition_is_told(path, base, cur, i);
    }
}

/// A type that changed is told with what it was and what it is, and so is a structure that changed;
/// the items of an array are told of under its path.
pub proof fn law_changed_types_are_told(path: Seq<char>, baseline: ValueView, current: ValueView)
    ensures
        baseline is String && current is String && baseline != current ==> drifts(
            path,
            baseline,
            current,
        ) == seq![
            path + ": type changed "@ + baseline->String_0 + " -> "@ + current->String_0,
        ],
        baseline is Object && current is Array ==> drifts(path, baseline, current) == seq![
            path + ": structure changed "@ + "object"@ + " -> "@ + "array"@,
        ],
        baseline is Array && current is Object ==> drifts(path, baseline, current) == seq![
            path + ": structure changed "@ + "array"@ + " -> "@ + "object"@,
        ],
        baseline is Object && current is String ==> drifts(path, baseline, current) == seq![
            path + ": structure changed "@ + "object"@ + " -> "@ + "scalar"@,
        ],
        baseline is String && current is Object ==> drifts(path, baseline, current) == seq![
            path + ": structure changed "@ + "scalar"@ + " -> "@ + "object"@,
        ],
        baseline is Array && current is String ==> drifts(path, baseline, current) == seq![
            path + ": structure changed "@ + "array"@ + " -> "@ + "scalar"@,
        ],
        baseline is String && current is Array ==> drifts(path, baseline, current) == seq![
            path + ": structure changed "@ + "scalar"@ + " -> "@ + "array"@,
        ],
        baseline is Array && current is Array && baseline->Array_0.len() > 0
            && current->Array_0.len() > 0 ==> drifts(path, baseline, current) == drifts(
            path + "[]"@,
            baseline->Array_0[0],
            current->Array_0[0],
        ),
{
}

} // verus!
