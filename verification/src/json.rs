//! JSON values.

use vstd::prelude::*;

use crate::text::{
    comes_before, lemma_precedes_irreflexive, lemma_precedes_total, lemma_precedes_transitive,
    precedes,
};

verus! {

/// A JSON number.
#[derive(Debug, PartialEq, Eq)]
pub enum Number {
    PosInt(u64),
    NegInt(i64),
    /// Any other, as it was written.
    Real(String),
}

/// A member of an object.
#[derive(Debug, PartialEq, Eq)]
pub struct Member {
    pub key: String,
    pub value: Value,
}

/// A JSON value. An object's members are in the order they are walked in.
#[derive(Debug, PartialEq, Eq)]
pub enum Value {
    Null,
    Bool(bool),
    Number(Number),
    String(String),
    Array(Vec<Value>),
    Object(Vec<Member>),
}

/// [`Number`] over text.
#[verifier::ext_equal]
pub enum NumberView {
    PosInt(u64),
    NegInt(i64),
    Real(Seq<char>),
}

/// [`Member`] over sequences.
#[verifier::ext_equal]
pub struct MemberView {
    pub key: Seq<char>,
    pub value: ValueView,
}

/// [`Value`] over sequences.
#[verifier::ext_equal]
pub enum ValueView {
    Null,
    Bool(bool),
    Number(NumberView),
    String(Seq<char>),
    Array(Seq<ValueView>),
    Object(Seq<MemberView>),
}

impl View for Number {
    type V = NumberView;

    open spec fn view(&self) -> NumberView {
        match *self {
            Number::PosInt(n) => NumberView::PosInt(n),
            Number::NegInt(n) => NumberView::NegInt(n),
            Number::Real(text) => NumberView::Real(text@),
        }
    }
}

impl View for Value {
    type V = ValueView;

    open spec fn view(&self) -> ValueView
        decreases self,
    {
        match *self {
            Value::Null => ValueView::Null,
            Value::Bool(b) => ValueView::Bool(b),
            Value::Number(n) => ValueView::Number(n@),
            Value::String(text) => ValueView::String(text@),
            Value::Array(items) => ValueView::Array(
                Seq::new(
                    items@.len(),
                    |i: int|
                        if 0 <= i < items@.len() {
                            items@[i].view()
                        } else {
                            ValueView::Null
                        },
                ),
            ),
            Value::Object(members) => ValueView::Object(
                Seq::new(
                    members@.len(),
                    |i: int|
                        if 0 <= i < members@.len() {
                            MemberView { key: members@[i].key@, value: members@[i].value.view() }
                        } else {
                            MemberView { key: Seq::empty(), value: ValueView::Null }
                        },
                ),
            ),
        }
    }
}

impl View for Member {
    type V = MemberView;

    open spec fn view(&self) -> MemberView {
        MemberView { key: self.key@, value: self.value@ }
    }
}

/// The views of `items`, in order.
pub open spec fn items_view(items: Seq<Value>) -> Seq<ValueView> {
    items.map_values(|v: Value| v@)
}

/// The views of `members`, in order.
pub open spec fn members_view(members: Seq<Member>) -> Seq<MemberView> {
    members.map_values(|m: Member| m@)
}

/// An array's view is that of its items, and an object's that of its members.
pub broadcast proof fn lemma_value_view(v: Value)
    ensures
        v matches Value::Array(items) ==> #[trigger] v@ == ValueView::Array(items_view(items@)),
        v matches Value::Object(members) ==> v@ == ValueView::Object(members_view(members@)),
{
    reveal_with_fuel(<Value as View>::view, 2);
    match v {
        Value::Array(items) => {
            assert forall|i: int| 0 <= i < items@.len() implies #[trigger] v@->Array_0[i]
                == items_view(items@)[i] by {
                assert(items_view(items@)[i] == items@[i]@);
            }
            assert(v@->Array_0 =~= items_view(items@));
        },
        Value::Object(members) => {
            assert forall|i: int| 0 <= i < members@.len() implies #[trigger] v@->Object_0[i]
                == members_view(members@)[i] by {
                assert(members_view(members@)[i] == members@[i]@);
            }
            assert(v@->Object_0 =~= members_view(members@));
        },
        _ => {},
    }
}

/// The value of the first member with `key`.
pub open spec fn member(members: Seq<MemberView>, key: Seq<char>) -> Option<ValueView>
    decreases members.len(),
{
    if members.len() == 0 {
        None
    } else if members[0].key == key {
        Some(members[0].value)
    } else {
        member(members.drop_first(), key)
    }
}

/// The value of the last member with `key`.
pub open spec fn last_member(members: Seq<MemberView>, key: Seq<char>) -> Option<ValueView>
    decreases members.len(),
{
    if members.len() == 0 {
        None
    } else if members.last().key == key {
        Some(members.last().value)
    } else {
        last_member(members.drop_last(), key)
    }
}

/// Each member comes before the next by its key, so no key stands twice.
pub open spec fn in_key_order(members: Seq<MemberView>) -> bool {
    forall|i: int, j: int|
        0 <= i < j < members.len() ==> precedes(
            #[trigger] members[i].key,
            #[trigger] members[j].key,
        )
}

/// `members`, which stand in key order, with `one` put in its place: instead of a member with its
/// key, if there is one.
pub open spec fn put(members: Seq<MemberView>, one: MemberView) -> Seq<MemberView>
    decreases members.len(),
{
    if members.len() == 0 {
        seq![one]
    } else if precedes(one.key, members.last().key) {
        put(members.drop_last(), one).push(members.last())
    } else if one.key == members.last().key {
        members.drop_last().push(one)
    } else {
        members.push(one)
    }
}

/// `members` put in their places, one after the other.
pub open spec fn by_key(members: Seq<MemberView>) -> Seq<MemberView>
    decreases members.len(),
{
    if members.len() == 0 {
        Seq::empty()
    } else {
        put(by_key(members.drop_last()), members.last())
    }
}

/// Puts a member in its place among members that stand in key order.
pub fn put_member(members: &mut Vec<Member>, one: Member)
    ensures
        members_view(final(members)@) == put(members_view(old(members)@), one@),
{
    let ghost all = members_view(members@);
    let mut i: usize = members.len();
    assert(all.take(i as int) =~= all);
    assert(put(all.take(i as int), one@) + all.skip(i as int) =~= put(all, one@));
    while i > 0 && comes_before(one.key.as_str(), members[i - 1].key.as_str())
        invariant
            i <= members.len(),
            all == members_view(members@),
            put(all, one@) == put(all.take(i as int), one@) + all.skip(i as int),
        decreases i,
    {
        assert(all.take(i as int).last() == members@[i - 1]@);
        assert(all.take(i as int).drop_last() =~= all.take(i - 1));
        assert(put(all.take(i - 1), one@).push(all[i - 1]) + all.skip(i as int) =~= put(
            all.take(i - 1),
            one@,
        ) + all.skip(i - 1));
        i = i - 1;
    }
    if i > 0 {
        assert(all.take(i as int).last() == members@[i - 1]@);
        assert(all.take(i as int).drop_last() =~= all.take(i - 1));
        if members[i - 1].key == one.key {
            members.set(i - 1, one);
            assert(members_view(members@) =~= all.take(i - 1).push(one@) + all.skip(i as int));
            return;
        }
    }
    members.insert(i, one);
    assert(members_view(members@) =~= all.take(i as int).push(one@) + all.skip(i as int));
    if i == 0 {
        assert(all.take(0).push(one@) =~= seq![one@]);
    }
}

/// A member put in its place leaves the members in key order, and is the one its key is looked up
/// to; every other key is looked up to what it was.
pub proof fn law_member_is_put_in_its_place(members: Seq<MemberView>, one: MemberView)
    requires
        in_key_order(members),
    ensures
        in_key_order(put(members, one)),
        forall|i: int|
            0 <= i < put(members, one).len() ==> (#[trigger] put(members, one)[i]) == one
                || members.contains(put(members, one)[i]),
        forall|key: Seq<char>| #[trigger]
            last_member(put(members, one), key) == (if key == one.key {
                Some(one.value)
            } else {
                last_member(members, key)
            }),
    decreases members.len(),
{
    let after = put(members, one);
    if members.len() == 0 {
        assert forall|key: Seq<char>| #[trigger] last_member(after, key) == (if key == one.key {
            Some(one.value)
        } else {
            last_member(members, key)
        }) by {
            reveal_with_fuel(last_member, 2);
            assert(after.drop_last() =~= Seq::<MemberView>::empty());
        }
    } else {
        let head = members.drop_last();
        let last = members.last();
        assert(in_key_order(head));
        if precedes(one.key, last.key) {
            law_member_is_put_in_its_place(head, one);
            let inner = put(head, one);
            assert(after.drop_last() =~= inner);
            lemma_precedes_irreflexive(one.key);
            assert forall|i: int| 0 <= i < inner.len() implies precedes(
                (#[trigger] inner[i]).key,
                last.key,
            ) && (inner[i] == one || members.contains(inner[i])) by {
                if inner[i] != one {
                    let k = choose|k: int| 0 <= k < head.len() && head[k] == inner[i];
                    assert(members[k] == inner[i]);
                    assert(precedes(members[k].key, members[members.len() - 1].key));
                }
            }
            assert(members[members.len() - 1] == last);
            assert(after.last() == last && one.key != last.key);
            assert forall|key: Seq<char>| #[trigger] last_member(after, key) == (if key == one.key {
                Some(one.value)
            } else {
                last_member(members, key)
            }) by {
                assert(last_member(after, key) == if last.key == key {
                    Some(last.value)
                } else {
                    last_member(inner, key)
                });
                assert(last_member(members, key) == if last.key == key {
                    Some(last.value)
                } else {
                    last_member(head, key)
                });
            }
        } else {
            lemma_precedes_total(one.key, last.key);
            assert(after.drop_last() =~= (if one.key == last.key {
                head
            } else {
                members
            }));
            assert forall|i: int| 0 <= i < after.len() - 1 implies precedes(
                (#[trigger] after[i]).key,
                one.key,
            ) && members.contains(after[i]) by {
                assert(after[i] == members[i]);
                if i < members.len() - 1 {
                    assert(precedes(members[i].key, members[members.len() - 1].key));
                    if one.key != last.key {
                        lemma_precedes_transitive(members[i].key, last.key, one.key);
                    }
                }
            }
            assert forall|i: int, j: int| 0 <= i < j < after.len() implies precedes(
                #[trigger] after[i].key,
                #[trigger] after[j].key,
            ) by {
                if j < after.len() - 1 {
                    assert(after[i] == members[i] && after[j] == members[j]);
                }
            }
            assert(after.last() == one);
            assert forall|key: Seq<char>| #[trigger] last_member(after, key) == (if key == one.key {
                Some(one.value)
            } else {
                last_member(members, key)
            }) by {
                assert(last_member(after, key) == if one.key == key {
                    Some(one.value)
                } else {
                    last_member(after.drop_last(), key)
                });
                assert(last_member(members, key) == if last.key == key {
                    Some(last.value)
                } else {
                    last_member(head, key)
                });
            }
        }
    }
}

/// What the first member with a key holds is held by a member with that key.
proof fn lemma_first_member(members: Seq<MemberView>, key: Seq<char>)
    ensures
        match member(members, key) {
            Some(value) => members.contains(MemberView { key, value }),
            None => forall|i: int| 0 <= i < members.len() ==> (#[trigger] members[i]).key != key,
        },
    decreases members.len(),
{
    if members.len() > 0 {
        let tail = members.drop_first();
        if members[0].key == key {
            assert(members[0] == MemberView { key, value: members[0].value });
        } else {
            lemma_first_member(tail, key);
            if let Some(value) = member(tail, key) {
                let k = choose|k: int|
                    0 <= k < tail.len() && tail[k] == (MemberView { key, value });
                assert(members[k + 1] == tail[k]);
            } else {
                assert forall|i: int| 0 <= i < members.len() implies (#[trigger] members[i]).key
                    != key by {
                    if i > 0 {
                        assert(members[i] == tail[i - 1]);
                    }
                }
            }
        }
    }
}

/// What the last member with a key holds is held by a member with that key.
proof fn lemma_last_member(members: Seq<MemberView>, key: Seq<char>)
    ensures
        match last_member(members, key) {
            Some(value) => members.contains(MemberView { key, value }),
            None => forall|i: int| 0 <= i < members.len() ==> (#[trigger] members[i]).key != key,
        },
    decreases members.len(),
{
    if members.len() > 0 {
        let head = members.drop_last();
        let end = members.len() - 1;
        if members.last().key == key {
            assert(members[end] == MemberView { key, value: members[end].value });
        } else {
            lemma_last_member(head, key);
            if let Some(value) = last_member(head, key) {
                let k = choose|k: int|
                    0 <= k < head.len() && head[k] == (MemberView { key, value });
                assert(members[k] == head[k]);
            } else {
                assert forall|i: int| 0 <= i < members.len() implies (#[trigger] members[i]).key
                    != key by {
                    if i < end {
                        assert(members[i] == head[i]);
                    }
                }
            }
        }
    }
}

/// In key order, the first member with a key is the last.
proof fn lemma_key_stands_once(members: Seq<MemberView>, key: Seq<char>)
    requires
        in_key_order(members),
    ensures
        member(members, key) == last_member(members, key),
{
    lemma_first_member(members, key);
    lemma_last_member(members, key);
    if let (Some(first), Some(last)) = (member(members, key), last_member(members, key)) {
        let i = choose|i: int|
            0 <= i < members.len() && members[i] == (MemberView { key, value: first });
        let j = choose|j: int|
            0 <= j < members.len() && members[j] == (MemberView { key, value: last });
        lemma_precedes_irreflexive(key);
        if i != j {
            assert(precedes(members[i].key, members[j].key) || precedes(
                members[j].key,
                members[i].key,
            ));
        }
    }
}

proof fn lemma_by_key(members: Seq<MemberView>)
    ensures
        in_key_order(by_key(members)),
        forall|key: Seq<char>| #[trigger]
            last_member(by_key(members), key) == last_member(members, key),
    decreases members.len(),
{
    if members.len() > 0 {
        lemma_by_key(members.drop_last());
        law_member_is_put_in_its_place(by_key(members.drop_last()), members.last());
    }
}

/// Members put in their places stand in key order, and looking a key up finds what the last of them
/// with that key held.
pub proof fn law_members_by_key_stand_in_key_order(members: Seq<MemberView>)
    ensures
        in_key_order(by_key(members)),
        forall|key: Seq<char>| #[trigger]
            member(by_key(members), key) == last_member(members, key),
{
    lemma_by_key(members);
    assert forall|key: Seq<char>| #[trigger] member(by_key(members), key) == last_member(
        members,
        key,
    ) by {
        lemma_key_stands_once(by_key(members), key);
        assert(last_member(by_key(members), key) == last_member(members, key));
    }
}

impl ValueView {
    /// The member `key` of an object.
    pub open spec fn get(self, key: Seq<char>) -> Option<ValueView> {
        match self {
            ValueView::Object(members) => member(members, key),
            _ => None,
        }
    }
}

/// Looks a member up.
pub fn find_member<'a>(members: &'a Vec<Member>, key: &str) -> (value: Option<&'a Value>)
    ensures
        match value {
            Some(v) => member(members_view(members@), key@) == Some(v@),
            None => member(members_view(members@), key@) is None,
        },
{
    let name = String::from_str(key);
    let ghost all = members_view(members@);
    let mut i: usize = 0;
    assert(all.skip(0) =~= all);
    while i < members.len()
        invariant
            i <= members.len(),
            name@ == key@,
            all == members_view(members@),
            member(all, key@) == member(all.skip(i as int), key@),
        decreases members.len() - i,
    {
        assert(all.skip(i as int)[0] == members@[i as int]@);
        if members[i].key == name {
            return Some(&members[i].value);
        }
        assert(all.skip(i as int).drop_first() =~= all.skip(i + 1));
        i = i + 1;
    }
    None
}

/// Takes a member out, or null where there is none.
fn take_member(members: Vec<Member>, key: &str) -> (value: Value)
    ensures
        value@ == (match member(members_view(members@), key@) {
            Some(v) => v,
            None => ValueView::Null,
        }),
{
    let name = String::from_str(key);
    let ghost all = members_view(members@);
    let mut left = members;
    let mut i: usize = 0;
    assert(all.skip(0) =~= all);
    while i < left.len()
        invariant
            i <= left.len(),
            name@ == key@,
            all == members_view(left@),
            all == members_view(members@),
            member(all, key@) == member(all.skip(i as int), key@),
        decreases left.len() - i,
    {
        assert(all.skip(i as int)[0] == left@[i as int]@);
        if left[i].key == name {
            return left.swap_remove(i).value;
        }
        assert(all.skip(i as int).drop_first() =~= all.skip(i + 1));
        i = i + 1;
    }
    Value::Null
}

impl Value {
    /// The member `key` of an object.
    pub fn get(&self, key: &str) -> (value: Option<&Value>)
        ensures
            match value {
                Some(v) => self@.get(key@) == Some(v@),
                None => self@.get(key@) is None,
            },
    {
        broadcast use lemma_value_view;

        match self {
            Value::Object(members) => find_member(members, key),
            _ => None,
        }
    }

    /// The member `key` of an object, or null where there is none.
    pub fn take(self, key: &str) -> (value: Value)
        ensures
            value@ == (match self@.get(key@) {
                Some(v) => v,
                None => ValueView::Null,
            }),
    {
        broadcast use lemma_value_view;

        match self {
            Value::Object(members) => take_member(members, key),
            _ => Value::Null,
        }
    }

    /// A text.
    pub fn text(text: &str) -> (value: Value)
        ensures
            value@ == ValueView::String(text@),
    {
        Value::String(String::from_str(text))
    }

    /// A whole number.
    pub fn number(n: u64) -> (value: Value)
        ensures
            value@ == ValueView::Number(NumberView::PosInt(n)),
    {
        Value::Number(Number::PosInt(n))
    }

    /// A whole number, or null where there is none.
    pub fn number_or_null(n: Option<u32>) -> (value: Value)
        ensures
            value@ == (match n {
                Some(n) => ValueView::Number(NumberView::PosInt(n as u64)),
                None => ValueView::Null,
            }),
    {
        match n {
            Some(n) => Value::number(n as u64),
            None => Value::Null,
        }
    }

    /// Texts, in order.
    pub fn texts(texts: &[String]) -> (value: Value)
        ensures
            value@ == ValueView::Array(
                texts@.map_values(|t: String| ValueView::String(t@)),
            ),
    {
        broadcast use lemma_value_view;

        let mut items: Vec<Value> = Vec::new();
        let mut i: usize = 0;
        while i < texts.len()
            invariant
                i <= texts.len(),
                items_view(items@) == texts@.take(i as int).map_values(
                    |t: String| ValueView::String(t@),
                ),
            decreases texts.len() - i,
        {
            let item = Value::String(texts[i].clone());
            assert(items_view(items@.push(item)) =~= items_view(items@).push(item@));
            assert(texts@.take(i + 1).map_values(|t: String| ValueView::String(t@))
                =~= texts@.take(i as int).map_values(|t: String| ValueView::String(t@)).push(
                item@,
            ));
            items.push(item);
            i = i + 1;
        }
        assert(texts@.take(i as int) =~= texts@);
        Value::Array(items)
    }

    /// Whole numbers, in order.
    pub fn numbers(numbers: &[u64]) -> (value: Value)
        ensures
            value@ == ValueView::Array(
                numbers@.map_values(|n: u64| ValueView::Number(NumberView::PosInt(n))),
            ),
    {
        broadcast use lemma_value_view;

        let mut items: Vec<Value> = Vec::new();
        let mut i: usize = 0;
        while i < numbers.len()
            invariant
                i <= numbers.len(),
                items_view(items@) == numbers@.take(i as int).map_values(
                    |n: u64| ValueView::Number(NumberView::PosInt(n)),
                ),
            decreases numbers.len() - i,
        {
            let item = Value::number(numbers[i]);
            assert(items_view(items@.push(item)) =~= items_view(items@).push(item@));
            assert(numbers@.take(i + 1).map_values(
                |n: u64| ValueView::Number(NumberView::PosInt(n)),
            ) =~= numbers@.take(i as int).map_values(
                |n: u64| ValueView::Number(NumberView::PosInt(n)),
            ).push(item@));
            items.push(item);
            i = i + 1;
        }
        assert(numbers@.take(i as int) =~= numbers@);
        Value::Array(items)
    }
}

impl Member {
    /// A member.
    pub fn new(key: &str, value: Value) -> (member: Self)
        ensures
            member@ == (MemberView { key: key@, value: value@ }),
    {
        Member { key: String::from_str(key), value }
    }
}

/// Looking a key up finds the first member with that key, and nothing where there is none. Only an
/// object has members.
pub proof fn law_a_key_is_looked_up_to_the_first_member(
    members: Seq<MemberView>,
    key: Seq<char>,
    i: int,
)
    ensures
        0 <= i < members.len() && members[i].key == key && (forall|k: int|
            0 <= k < i ==> (#[trigger] members[k]).key != key) ==> ValueView::Object(members).get(
            key,
        ) == Some(members[i].value),
        (forall|k: int| 0 <= k < members.len() ==> (#[trigger] members[k]).key != key)
            ==> ValueView::Object(members).get(key) is None,
        forall|value: ValueView| !(value is Object) ==> (#[trigger] value.get(key)) is None,
    decreases members.len(),
{
    if members.len() > 0 {
        let tail = members.drop_first();
        law_a_key_is_looked_up_to_the_first_member(tail, key, i - 1);
        if forall|k: int| 0 <= k < members.len() ==> (#[trigger] members[k]).key != key {
            assert forall|k: int| 0 <= k < tail.len() implies (#[trigger] tail[k]).key != key by {
                assert(tail[k] == members[k + 1]);
            }
            assert(members[0].key != key);
        }
        if 0 < i < members.len() && members[i].key == key && (forall|k: int|
            0 <= k < i ==> (#[trigger] members[k]).key != key) {
            assert(members[0].key != key);
            assert(tail[i - 1] == members[i]);
            assert forall|k: int| 0 <= k < i - 1 implies (#[trigger] tail[k]).key != key by {
                assert(tail[k] == members[k + 1]);
            }
        }
        assert(ValueView::Object(tail).get(key) == member(tail, key));
    }
}

} // verus!
