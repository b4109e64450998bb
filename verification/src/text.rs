//! Text helpers: decimal rendering, whitespace trimming and ASCII case folding.

use vstd::prelude::*;

verus! {

/// The decimal digit for `d`.
pub open spec fn digit(d: nat) -> char {
    (48 + d) as char
}

/// `n` written in base ten without leading zeroes.
pub open spec fn decimal(n: nat) -> Seq<char>
    decreases n,
{
    if n < 10 {
        seq![digit(n)]
    } else {
        decimal(n / 10).push(digit(n % 10))
    }
}

fn digit_text(d: u64) -> (text: &'static str)
    requires
        d < 10,
    ensures
        text@ == seq![digit(d as nat)],
{
    proof {
        reveal_strlit("0");
        reveal_strlit("1");
        reveal_strlit("2");
        reveal_strlit("3");
        reveal_strlit("4");
        reveal_strlit("5");
        reveal_strlit("6");
        reveal_strlit("7");
        reveal_strlit("8");
        reveal_strlit("9");
    }
    if d == 0 {
        "0"
    } else if d == 1 {
        "1"
    } else if d == 2 {
        "2"
    } else if d == 3 {
        "3"
    } else if d == 4 {
        "4"
    } else if d == 5 {
        "5"
    } else if d == 6 {
        "6"
    } else if d == 7 {
        "7"
    } else if d == 8 {
        "8"
    } else {
        "9"
    }
}

/// Renders `n` in base ten.
pub fn decimal_text(n: u64) -> (text: String)
    ensures
        text@ == decimal(n as nat),
    decreases n,
{
    if n < 10 {
        String::from_str(digit_text(n))
    } else {
        let mut text = decimal_text(n / 10);
        text.append(digit_text(n % 10));
        assert(decimal((n / 10) as nat) + seq![digit((n % 10) as nat)] =~= decimal(n as nat));
        text
    }
}

/// `numbers` in base ten, with a comma and a space between them.
pub open spec fn joined(numbers: Seq<u32>) -> Seq<char>
    decreases numbers.len(),
{
    if numbers.len() == 0 {
        Seq::empty()
    } else if numbers.len() == 1 {
        decimal(numbers[0] as nat)
    } else {
        joined(numbers.drop_last()) + ", "@ + decimal(numbers.last() as nat)
    }
}

/// Renders `numbers` as a bracketed list.
pub fn list_text(numbers: &[u32]) -> (text: String)
    ensures
        text@ == "["@ + joined(numbers@) + "]"@,
{
    let mut inner = String::new();
    let mut i: usize = 0;
    while i < numbers.len()
        invariant
            i <= numbers.len(),
            inner@ == joined(numbers@.take(i as int)),
        decreases numbers.len() - i,
    {
        if i > 0 {
            inner.append(", ");
        }
        let number = decimal_text(numbers[i] as u64);
        inner.append(number.as_str());
        assert(numbers@.take(i + 1).drop_last() =~= numbers@.take(i as int));
        assert(i == 0 ==> inner@ =~= decimal(numbers@[0] as nat));
        i = i + 1;
    }
    assert(numbers@.take(i as int) =~= numbers@);
    String::from_str("[").concat(inner.as_str()).concat("]")
}

/// The characters with the Unicode `White_Space` property.
pub open spec fn is_white_space(c: char) -> bool {
    let u = c as u32;
    ||| 0x9 <= u <= 0xd
    ||| u == 0x20
    ||| u == 0x85
    ||| u == 0xa0
    ||| u == 0x1680
    ||| 0x2000 <= u <= 0x200a
    ||| u == 0x2028
    ||| u == 0x2029
    ||| u == 0x202f
    ||| u == 0x205f
    ||| u == 0x3000
}

fn white_space(c: char) -> (found: bool)
    ensures
        found == is_white_space(c),
{
    let u: u32 = c as u32;
    (0x9 <= u && u <= 0xd) || u == 0x20 || u == 0x85 || u == 0xa0 || u == 0x1680 || (0x2000 <= u
        && u <= 0x200a) || u == 0x2028 || u == 0x2029 || u == 0x202f || u == 0x205f || u == 0x3000
}

/// `s` without its leading white space.
pub open spec fn trimmed_start(s: Seq<char>) -> Seq<char>
    decreases s.len(),
{
    if s.len() > 0 && is_white_space(s[0]) {
        trimmed_start(s.drop_first())
    } else {
        s
    }
}

/// `s` without its trailing white space.
pub open spec fn trimmed_end(s: Seq<char>) -> Seq<char>
    decreases s.len(),
{
    if s.len() > 0 && is_white_space(s.last()) {
        trimmed_end(s.drop_last())
    } else {
        s
    }
}

/// `s` without the white space on either side.
pub open spec fn trimmed(s: Seq<char>) -> Seq<char> {
    trimmed_end(trimmed_start(s))
}

/// Whether `s` is white space throughout.
pub open spec fn is_blank(s: Seq<char>) -> bool {
    forall|i: int| 0 <= i < s.len() ==> is_white_space(#[trigger] s[i])
}

proof fn lemma_blank_start(blank: Seq<char>, s: Seq<char>)
    requires
        is_blank(blank),
    ensures
        trimmed_start(blank + s) == trimmed_start(s),
    decreases blank.len(),
{
    if blank.len() > 0 {
        assert((blank + s).drop_first() =~= blank.drop_first() + s);
        lemma_blank_start(blank.drop_first(), s);
    } else {
        assert(blank + s =~= s);
    }
}

proof fn lemma_blank_end(s: Seq<char>, blank: Seq<char>)
    requires
        is_blank(blank),
    ensures
        trimmed_end(s + blank) == trimmed_end(s),
    decreases blank.len(),
{
    if blank.len() > 0 {
        assert((s + blank).drop_last() =~= s + blank.drop_last());
        lemma_blank_end(s, blank.drop_last());
    } else {
        assert(s + blank =~= s);
    }
}

proof fn lemma_start_before_blank(s: Seq<char>, blank: Seq<char>)
    requires
        is_blank(blank),
    ensures
        trimmed_start(s).len() > 0 ==> trimmed_start(s + blank) == trimmed_start(s) + blank,
        trimmed_start(s).len() == 0 ==> trimmed_start(s + blank).len() == 0,
    decreases s.len(),
{
    if s.len() == 0 {
        assert(s + blank =~= blank + Seq::<char>::empty());
        lemma_blank_start(blank, Seq::empty());
    } else if is_white_space(s[0]) {
        assert((s + blank).drop_first() =~= s.drop_first() + blank);
        lemma_start_before_blank(s.drop_first(), blank);
    }
}

/// White space around a text changes nothing of what is left once it is trimmed.
pub proof fn lemma_padding_is_trimmed(before: Seq<char>, s: Seq<char>, after: Seq<char>)
    requires
        is_blank(before),
        is_blank(after),
    ensures
        trimmed(before + s + after) == trimmed(s),
{
    assert(before + s + after =~= before + (s + after));
    lemma_blank_start(before, s + after);
    lemma_start_before_blank(s, after);
    if trimmed_start(s).len() > 0 {
        lemma_blank_end(trimmed_start(s), after);
    } else {
        assert(trimmed_start(s + after) =~= trimmed_start(s));
    }
}

/// The characters of `text`, in order.
pub fn characters(text: &str) -> (chars: Vec<char>)
    ensures
        chars@ == text@,
{
    let mut chars: Vec<char> = Vec::new();
    for c in it: text.chars()
        invariant
            chars@ == it.seq().take(it.index()),
            it.seq() == text@,
    {
        assert(it.seq().take(it.index() + 1) =~= it.seq().take(it.index()).push(c));
        chars.push(c);
    }
    assert(text@.take(text@.len() as int) =~= text@);
    chars
}

/// Whether `a` comes before `b`: by the first character they differ in, and a text before those
/// that go on from it.
pub open spec fn precedes(a: Seq<char>, b: Seq<char>) -> bool
    decreases a.len(),
{
    if b.len() == 0 {
        false
    } else if a.len() == 0 {
        true
    } else if a[0] == b[0] {
        precedes(a.drop_first(), b.drop_first())
    } else {
        a[0] < b[0]
    }
}

/// Tells whether `a` comes before `b`.
pub fn comes_before(a: &str, b: &str) -> (before: bool)
    ensures
        before == precedes(a@, b@),
{
    let left = characters(a);
    let right = characters(b);
    let mut i: usize = 0;
    assert(left@.skip(0) =~= left@);
    assert(right@.skip(0) =~= right@);
    while i < left.len() && i < right.len()
        invariant
            i <= left.len(),
            i <= right.len(),
            left@ == a@,
            right@ == b@,
            precedes(a@, b@) == precedes(a@.skip(i as int), b@.skip(i as int)),
        decreases left.len() - i,
    {
        if left[i] != right[i] {
            return left[i] < right[i];
        }
        assert(a@.skip(i as int).drop_first() =~= a@.skip(i + 1));
        assert(b@.skip(i as int).drop_first() =~= b@.skip(i + 1));
        i = i + 1;
    }
    i < right.len()
}

/// No text comes before itself.
pub proof fn lemma_precedes_irreflexive(a: Seq<char>)
    ensures
        !precedes(a, a),
    decreases a.len(),
{
    if a.len() > 0 {
        lemma_precedes_irreflexive(a.drop_first());
    }
}

/// What comes before a text comes before all that follow the text.
pub proof fn lemma_precedes_transitive(a: Seq<char>, b: Seq<char>, c: Seq<char>)
    requires
        precedes(a, b),
        precedes(b, c),
    ensures
        precedes(a, c),
    decreases a.len(),
{
    if a.len() > 0 && a[0] == b[0] && b[0] == c[0] {
        lemma_precedes_transitive(a.drop_first(), b.drop_first(), c.drop_first());
    }
}

/// Of two texts that differ, one comes before the other.
pub proof fn lemma_precedes_total(a: Seq<char>, b: Seq<char>)
    ensures
        a == b || precedes(a, b) || precedes(b, a),
    decreases a.len(),
{
    if a.len() > 0 && b.len() > 0 && a[0] == b[0] {
        lemma_precedes_total(a.drop_first(), b.drop_first());
        if a.drop_first() == b.drop_first() {
            assert(a =~= seq![a[0]] + a.drop_first());
            assert(b =~= seq![b[0]] + b.drop_first());
        }
    } else if a.len() == 0 && b.len() == 0 {
        assert(a =~= b);
    }
}

/// Removes the white space on either side of `text`.
pub fn trim(text: &str) -> (inner: &str)
    ensures
        inner@ == trimmed(text@),
{
    let chars = characters(text);
    let mut from: usize = 0;
    assert(text@.skip(0) =~= text@);
    while from < chars.len() && white_space(chars[from])
        invariant
            from <= chars.len(),
            chars@ == text@,
            trimmed_start(text@) == trimmed_start(text@.skip(from as int)),
        decreases chars.len() - from,
    {
        assert(text@.skip(from as int).drop_first() =~= text@.skip(from + 1));
        from = from + 1;
    }
    let ghost start = text@.skip(from as int);
    assert(trimmed_start(text@) == start);
    let mut to: usize = chars.len();
    assert(text@.subrange(from as int, to as int) =~= start);
    while from < to && white_space(chars[to - 1])
        invariant
            from <= to <= chars.len(),
            chars@ == text@,
            trimmed_end(start) == trimmed_end(text@.subrange(from as int, to as int)),
        decreases to - from,
    {
        assert(text@.subrange(from as int, to as int).drop_last() =~= text@.subrange(
            from as int,
            to - 1,
        ));
        to = to - 1;
    }
    text.substring_char(from, to)
}

/// `c` with the ASCII upper-case letters folded to lower case.
pub open spec fn ascii_lower(c: char) -> char {
    if 'A' <= c <= 'Z' {
        (c as u32 + 32) as char
    } else {
        c
    }
}

/// Every character of `s` folded by [`ascii_lower`].
pub open spec fn ascii_lowered(s: Seq<char>) -> Seq<char> {
    s.map_values(|c: char| ascii_lower(c))
}

proof fn lemma_lowered_start(s: Seq<char>)
    ensures
        trimmed_start(ascii_lowered(s)) == ascii_lowered(trimmed_start(s)),
    decreases s.len(),
{
    if s.len() > 0 {
        assert(is_white_space(ascii_lower(s[0])) == is_white_space(s[0]));
        assert(ascii_lowered(s).drop_first() =~= ascii_lowered(s.drop_first()));
        lemma_lowered_start(s.drop_first());
    }
}

proof fn lemma_lowered_end(s: Seq<char>)
    ensures
        trimmed_end(ascii_lowered(s)) == ascii_lowered(trimmed_end(s)),
    decreases s.len(),
{
    if s.len() > 0 {
        assert(is_white_space(ascii_lower(s.last())) == is_white_space(s.last()));
        assert(ascii_lowered(s).drop_last() =~= ascii_lowered(s.drop_last()));
        lemma_lowered_end(s.drop_last());
    }
}

/// Folding the case before or after trimming makes no difference, and neither does folding it
/// twice.
pub proof fn lemma_case_and_trimming(s: Seq<char>)
    ensures
        trimmed(ascii_lowered(s)) == ascii_lowered(trimmed(s)),
        ascii_lowered(ascii_lowered(s)) == ascii_lowered(s),
{
    lemma_lowered_start(s);
    lemma_lowered_end(trimmed_start(s));
    assert forall|c: char| ascii_lower(#[trigger] ascii_lower(c)) == ascii_lower(c) by {}
    assert(ascii_lowered(ascii_lowered(s)) =~= ascii_lowered(s));
}

/// Whether `a` and `b` are the same letter up to ASCII case.
fn same_letter(a: char, b: char) -> (same: bool)
    ensures
        same == (ascii_lower(a) == ascii_lower(b)),
{
    let x: u32 = a as u32;
    let y: u32 = b as u32;
    let folded_x: u32 = if 65 <= x && x <= 90 {
        x + 32
    } else {
        x
    };
    let folded_y: u32 = if 65 <= y && y <= 90 {
        y + 32
    } else {
        y
    };
    folded_x == folded_y
}

/// Whether `a` and `b` are the same text up to ASCII case.
pub fn eq_ignore_ascii_case(a: &str, b: &str) -> (same: bool)
    ensures
        same == (ascii_lowered(a@) == ascii_lowered(b@)),
{
    let left = characters(a);
    let right = characters(b);
    if left.len() != right.len() {
        assert(ascii_lowered(a@).len() != ascii_lowered(b@).len());
        return false;
    }
    let mut i: usize = 0;
    while i < left.len()
        invariant
            i <= left.len(),
            left.len() == right.len(),
            left@ == a@,
            right@ == b@,
            forall|j: int| 0 <= j < i ==> ascii_lower(a@[j]) == ascii_lower(b@[j]),
        decreases left.len() - i,
    {
        if !same_letter(left[i], right[i]) {
            assert(ascii_lowered(a@)[i as int] != ascii_lowered(b@)[i as int]);
            return false;
        }
        i = i + 1;
    }
    assert(ascii_lowered(a@) =~= ascii_lowered(b@));
    true
}

/// Whether `needle` stands somewhere in `haystack`.
pub open spec fn has_substring(haystack: Seq<char>, needle: Seq<char>) -> bool {
    exists|at: int|
        0 <= at && at + needle.len() <= haystack.len() && #[trigger] haystack.subrange(
            at,
            at + needle.len(),
        ) == needle
}

/// Whether `needle` stands at position `at` of `haystack`, up to ASCII case.
fn matches_at(haystack: &Vec<char>, needle: &Vec<char>, at: usize) -> (found: bool)
    requires
        at + needle.len() <= haystack.len(),
    ensures
        found == (ascii_lowered(haystack@).subrange(at as int, at + needle.len())
            == ascii_lowered(needle@)),
{
    let ghost window = ascii_lowered(haystack@).subrange(at as int, at + needle.len());
    let mut i: usize = 0;
    while i < needle.len()
        invariant
            i <= needle.len(),
            at + needle.len() <= haystack.len(),
            window == ascii_lowered(haystack@).subrange(at as int, at + needle.len()),
            forall|j: int| 0 <= j < i ==> window[j] == ascii_lowered(needle@)[j],
        decreases needle.len() - i,
    {
        if !same_letter(haystack[at + i], needle[i]) {
            assert(window[i as int] != ascii_lowered(needle@)[i as int]);
            return false;
        }
        i = i + 1;
    }
    assert(window =~= ascii_lowered(needle@));
    true
}

/// Whether `needle` stands somewhere in `haystack`, up to ASCII case.
pub fn contains_ignore_ascii_case(haystack: &str, needle: &str) -> (found: bool)
    ensures
        found == has_substring(ascii_lowered(haystack@), ascii_lowered(needle@)),
{
    let hay = characters(haystack);
    let sought = characters(needle);
    let ghost all = ascii_lowered(haystack@);
    let ghost want = ascii_lowered(needle@);
    if hay.len() < sought.len() {
        return false;
    }
    let last: usize = hay.len() - sought.len();
    let mut at: usize = 0;
    while at <= last
        invariant
            at <= last + 1,
            last + sought.len() == hay.len(),
            hay@ == haystack@,
            sought@ == needle@,
            all == ascii_lowered(haystack@),
            want == ascii_lowered(needle@),
            forall|k: int|
                0 <= k < at ==> #[trigger] all.subrange(k, k + want.len()) != want,
        decreases last + 1 - at,
    {
        if matches_at(&hay, &sought, at) {
            assert(all.subrange(at as int, at + want.len()) == want);
            return true;
        }
        if at == last {
            return false;
        }
        at = at + 1;
    }
    false
}

/// Numbers are written digit by digit, the highest first and without leading zeroes.
pub proof fn law_numbers_are_written_digit_by_digit(m: nat, d: nat)
    requires
        d < 10,
    ensures
        decimal(d) == seq![(48 + d) as char],
        m > 0 ==> decimal(10 * m + d) == decimal(m).push((48 + d) as char),
{
    if m > 0 {
        assert((10 * m + d) / 10 == m && (10 * m + d) % 10 == d);
    }
}

/// A list is written number by number, with a comma and a space before each but the first.
pub proof fn law_lists_are_written_number_by_number(numbers: Seq<u32>, n: u32)
    ensures
        joined(Seq::empty()) == Seq::<char>::empty(),
        joined(numbers.push(n)) == (if numbers.len() == 0 {
            decimal(n as nat)
        } else {
            joined(numbers) + ", "@ + decimal(n as nat)
        }),
{
    assert(numbers.push(n).drop_last() =~= numbers);
}

proof fn lemma_trimmed_start(s: Seq<char>) -> (before: Seq<char>)
    ensures
        is_blank(before),
        s == before + trimmed_start(s),
        trimmed_start(s).len() > 0 ==> !is_white_space(trimmed_start(s)[0]),
    decreases s.len(),
{
    if s.len() > 0 && is_white_space(s[0]) {
        let rest = lemma_trimmed_start(s.drop_first());
        let before = seq![s[0]] + rest;
        assert forall|i: int| 0 <= i < before.len() implies is_white_space(#[trigger] before[i]) by {
            if i > 0 {
                assert(before[i] == rest[i - 1]);
            }
        }
        let inner = trimmed_start(s.drop_first());
        assert(s.drop_first() == rest + inner);
        assert(s =~= seq![s[0]] + s.drop_first());
        assert(before + inner =~= seq![s[0]] + (rest + inner));
        before
    } else {
        assert(s =~= Seq::<char>::empty() + s);
        Seq::empty()
    }
}

proof fn lemma_trimmed_end(s: Seq<char>) -> (after: Seq<char>)
    ensures
        is_blank(after),
        s == trimmed_end(s) + after,
        trimmed_end(s).len() > 0 ==> !is_white_space(trimmed_end(s).last()),
        trimmed_end(s).len() > 0 ==> trimmed_end(s)[0] == s[0],
    decreases s.len(),
{
    if s.len() > 0 && is_white_space(s.last()) {
        let rest = lemma_trimmed_end(s.drop_last());
        let after = rest.push(s.last());
        assert forall|i: int| 0 <= i < after.len() implies is_white_space(#[trigger] after[i]) by {
            if i < rest.len() {
                assert(after[i] == rest[i]);
            }
        }
        let inner = trimmed_end(s.drop_last());
        assert(s.drop_last() == inner + rest);
        assert(s =~= s.drop_last().push(s.last()));
        assert(inner + after =~= (inner + rest).push(s.last()));
        after
    } else {
        assert(s =~= s + Seq::<char>::empty());
        Seq::empty()
    }
}

/// Trimming takes away white space on either side and nothing else, and leaves none there.
pub proof fn law_trimming_takes_white_space_only(s: Seq<char>)
    ensures
        trimmed(s).len() > 0 ==> !is_white_space(trimmed(s)[0]) && !is_white_space(
            trimmed(s).last(),
        ),
        exists|before: Seq<char>, after: Seq<char>|
            #![trigger is_blank(before), is_blank(after)]
            is_blank(before) && is_blank(after) && s == before + trimmed(s) + after,
{
    let before = lemma_trimmed_start(s);
    let after = lemma_trimmed_end(trimmed_start(s));
    assert(is_blank(before) && is_blank(after));
    assert(s =~= before + trimmed(s) + after);
}

/// What counts as white space is tab, line feed, vertical tab, form feed, carriage return, space,
/// next line, and the spaces and separators beyond ASCII.
pub proof fn law_white_space_characters(c: char)
    ensures
        is_white_space(c) <==> {
            let u = c as u32;
            ||| u == 9 || u == 10 || u == 11 || u == 12 || u == 13 || u == 32
            ||| u == 133 || u == 160 || u == 5760
            ||| u == 8192 || u == 8193 || u == 8194 || u == 8195 || u == 8196 || u == 8197
            ||| u == 8198 || u == 8199 || u == 8200 || u == 8201 || u == 8202
            ||| u == 8232 || u == 8233 || u == 8239 || u == 8287 || u == 12288
        },
{
}

/// Two texts are the same up to case exactly if they are of one length and differ only in that an
/// ASCII letter stands in upper case in one and in lower case in the other.
pub proof fn law_case_is_all_that_is_ignored(a: Seq<char>, b: Seq<char>)
    ensures
        ascii_lowered(a) == ascii_lowered(b) <==> a.len() == b.len() && forall|i: int|
            0 <= i < a.len() ==> {
                let x = #[trigger] a[i];
                let y = b[i];
                ||| x == y
                ||| 65 <= x as u32 <= 90 && y as u32 == x as u32 + 32
                ||| 65 <= y as u32 <= 90 && x as u32 == y as u32 + 32
            },
{
    if ascii_lowered(a) == ascii_lowered(b) {
        assert(ascii_lowered(a).len() == a.len() && ascii_lowered(b).len() == b.len());
        assert forall|i: int| 0 <= i < a.len() implies ({
            let x = #[trigger] a[i];
            let y = b[i];
            ||| x == y
            ||| 65 <= x as u32 <= 90 && y as u32 == x as u32 + 32
            ||| 65 <= y as u32 <= 90 && x as u32 == y as u32 + 32
        }) by {
            assert(ascii_lowered(a)[i] == ascii_lowered(b)[i]);
        }
    } else if a.len() == b.len() && forall|i: int|
        0 <= i < a.len() ==> {
            let x = #[trigger] a[i];
            let y = b[i];
            ||| x == y
            ||| 65 <= x as u32 <= 90 && y as u32 == x as u32 + 32
            ||| 65 <= y as u32 <= 90 && x as u32 == y as u32 + 32
        } {
        assert(ascii_lowered(a) =~= ascii_lowered(b));
    }
}

/// A text comes before another exactly if they agree up to a place where the first ends, or has the
/// lower character.
pub proof fn law_order_is_by_the_first_difference(a: Seq<char>, b: Seq<char>, k: int)
    requires
        0 <= k <= a.len(),
        k <= b.len(),
        a.take(k) == b.take(k),
        k == a.len() || k == b.len() || a[k] != b[k],
    ensures
        precedes(a, b) <==> k < b.len() && (k == a.len() || a[k] < b[k]),
    decreases k,
{
    if k > 0 {
        assert(a[0] == a.take(k)[0] && b[0] == b.take(k)[0]);
        assert(a.drop_first().take(k - 1) =~= a.take(k).drop_first());
        assert(b.drop_first().take(k - 1) =~= b.take(k).drop_first());
        law_order_is_by_the_first_difference(a.drop_first(), b.drop_first(), k - 1);
    }
}

} // verus!
