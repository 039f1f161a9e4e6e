//! The text of a JSON object whose values are all strings, in the compact form
//! with its members in the order of their keys.

use crate::text::{
    lemma_occurs_between, lemma_occurs_in_part, lemma_occurs_on_a_side, occurs_at, occurs_in,
};
use vstd::prelude::*;

verus! {

/// The hexadecimal digit for a number below sixteen.
pub open spec fn hex_digit(number: int) -> char {
    if number < 10 {
        (48 + number) as char
    } else {
        (87 + number) as char
    }
}

/// A character that JSON strings hold as it is: neither below U+0020 nor a
/// quote nor a backslash.
pub open spec fn is_plain(c: char) -> bool {
    c >= ' ' && c != '"' && c != '\\'
}

/// All characters of the text are plain.
pub open spec fn all_plain(text: Seq<char>) -> bool {
    forall|i: int| 0 <= i < text.len() ==> is_plain(#[trigger] text[i])
}

/// How a character is written inside a JSON string.
pub open spec fn escaped_char(c: char) -> Seq<char> {
    if is_plain(c) {
        seq![c]
    } else if c == '"' || c == '\\' {
        seq!['\\', c]
    } else if c == '\n' {
        seq!['\\', 'n']
    } else if c == '\r' {
        seq!['\\', 'r']
    } else if c == '\t' {
        seq!['\\', 't']
    } else if c == '\u{8}' {
        seq!['\\', 'b']
    } else if c == '\u{c}' {
        seq!['\\', 'f']
    } else {
        seq!['\\', 'u', '0', '0', hex_digit(c as int / 16), hex_digit(c as int % 16)]
    }
}

/// How a text is written inside a JSON string, character by character.
pub open spec fn escaped(text: Seq<char>) -> Seq<char>
    decreases text.len(),
{
    if text.len() == 0 {
        Seq::empty()
    } else {
        escaped_char(text[0]) + escaped(text.drop_first())
    }
}

/// The text as a JSON string.
pub open spec fn quoted(text: Seq<char>) -> Seq<char> {
    seq!['"'] + escaped(text) + seq!['"']
}

/// One member of a JSON object.
pub open spec fn member_text(key: Seq<char>, value: Seq<char>) -> Seq<char> {
    quoted(key) + seq![':'] + quoted(value)
}

/// Members of a JSON object in the order of `keys`, with commas between them.
pub open spec fn members_text(keys: Seq<Seq<char>>, strings: Map<Seq<char>, Seq<char>>) -> Seq<char>
    decreases keys.len(),
{
    if keys.len() == 0 {
        Seq::empty()
    } else if keys.len() == 1 {
        member_text(keys[0], strings[keys[0]])
    } else {
        member_text(keys[0], strings[keys[0]]) + seq![','] + members_text(
            keys.drop_first(),
            strings,
        )
    }
}

/// The order of texts: by their first difference, a text before those that
/// continue it.
pub open spec fn precedes(left: Seq<char>, right: Seq<char>) -> bool
    decreases left.len(),
{
    if right.len() == 0 {
        false
    } else if left.len() == 0 {
        true
    } else if left[0] == right[0] {
        precedes(left.drop_first(), right.drop_first())
    } else {
        left[0] < right[0]
    }
}

/// `keys` is in ascending order, no key standing twice.
pub open spec fn is_ascending(keys: Seq<Seq<char>>) -> bool {
    forall|i: int, j: int|
        0 <= i < j < keys.len() ==> precedes(#[trigger] keys[i], #[trigger] keys[j])
}

/// `keys` lists the keys of the object in ascending order.
pub open spec fn lists_keys(keys: Seq<Seq<char>>, strings: Map<Seq<char>, Seq<char>>) -> bool {
    &&& is_ascending(keys)
    &&& forall|key: Seq<char>| #[trigger] keys.contains(key) <==> strings.contains_key(key)
}

/// The keys of the object in ascending order. There is exactly one such list
/// (see `lemma_keys_can_be_listed` and `lemma_keys_are_listed_once`).
pub open spec fn ascending_keys(strings: Map<Seq<char>, Seq<char>>) -> Seq<Seq<char>> {
    choose|keys: Seq<Seq<char>>| lists_keys(keys, strings)
}

/// The text of the object with these members: braces round the members, which
/// stand in ascending order of their keys.
pub open spec fn object_text(strings: Map<Seq<char>, Seq<char>>) -> Seq<char> {
    seq!['{'] + members_text(ascending_keys(strings), strings) + seq!['}']
}

/// The text holds nothing below U+0020, so no line break.
pub open spec fn is_one_line(text: Seq<char>) -> bool {
    forall|i: int| 0 <= i < text.len() ==> #[trigger] text[i] >= ' '
}

/// No text precedes itself.
proof fn lemma_precedes_irreflexive(text: Seq<char>)
    ensures
        !precedes(text, text),
    decreases text.len(),
{
    if text.len() > 0 {
        lemma_precedes_irreflexive(text.drop_first());
    }
}

/// What precedes a text precedes all that the text precedes.
proof fn lemma_precedes_transitive(first: Seq<char>, second: Seq<char>, third: Seq<char>)
    requires
        precedes(first, second),
        precedes(second, third),
    ensures
        precedes(first, third),
    decreases first.len(),
{
    if first.len() > 0 && first[0] == second[0] && second[0] == third[0] {
        lemma_precedes_transitive(first.drop_first(), second.drop_first(), third.drop_first());
    }
}

/// Of two different texts one precedes the other.
proof fn lemma_precedes_total(left: Seq<char>, right: Seq<char>)
    ensures
        left == right || precedes(left, right) || precedes(right, left),
    decreases left.len(),
{
    if left.len() == 0 && right.len() == 0 {
        assert(left =~= right);
    } else if left.len() > 0 && right.len() > 0 && left[0] == right[0] {
        lemma_precedes_total(left.drop_first(), right.drop_first());
        if left.drop_first() == right.drop_first() {
            assert(left =~= seq![left[0]] + left.drop_first());
            assert(right =~= seq![right[0]] + right.drop_first());
        }
    }
}

/// Where a new key goes in a list in ascending order.
proof fn lemma_place(keys: Seq<Seq<char>>, key: Seq<char>) -> (place: int)
    requires
        is_ascending(keys),
        !keys.contains(key),
    ensures
        0 <= place <= keys.len(),
        forall|i: int| 0 <= i < place ==> precedes(#[trigger] keys[i], key),
        forall|i: int| place <= i < keys.len() ==> precedes(key, #[trigger] keys[i]),
    decreases keys.len(),
{
    if keys.len() == 0 {
        0
    } else {
        let last = keys[keys.len() - 1];
        assert(keys.contains(last));
        lemma_precedes_total(last, key);
        if precedes(last, key) {
            assert forall|i: int| 0 <= i < keys.len() implies precedes(#[trigger] keys[i], key) by {
                if i < keys.len() - 1 {
                    lemma_precedes_transitive(keys[i], last, key);
                }
            }
            keys.len() as int
        } else {
            let shorter = keys.drop_last();
            assert forall|i: int| 0 <= i < shorter.len() implies #[trigger] shorter[i] != key by {
                assert(shorter[i] == keys[i]);
                assert(keys.contains(keys[i]));
            }
            let place = lemma_place(shorter, key);
            assert forall|i: int| 0 <= i < place implies precedes(#[trigger] keys[i], key) by {
                assert(keys[i] == shorter[i]);
            }
            assert forall|i: int| place <= i < keys.len() implies precedes(
                key,
                #[trigger] keys[i],
            ) by {
                if i < keys.len() - 1 {
                    assert(keys[i] == shorter[i]);
                }
            }
            place
        }
    }
}

/// The keys of a finite object can be listed in ascending order.
pub proof fn lemma_keys_can_be_listed(strings: Map<Seq<char>, Seq<char>>)
    requires
        strings.dom().finite(),
    ensures
        lists_keys(ascending_keys(strings), strings),
    decreases strings.dom().len(),
{
    if strings.dom().len() == 0 {
        assert(strings.dom() =~= Set::<Seq<char>>::empty());
        let none = Seq::<Seq<char>>::empty();
        assert(forall|key: Seq<char>| #[trigger] none.contains(key) <==> strings.contains_key(key));
        assert(lists_keys(none, strings));
    } else {
        let key = strings.dom().choose();
        let fewer = strings.remove(key);
        lemma_keys_can_be_listed(fewer);
        let earlier = ascending_keys(fewer);
        assert(!earlier.contains(key));
        let place = lemma_place(earlier, key);
        let keys = earlier.insert(place, key);
        assert forall|i: int, j: int| 0 <= i < j < keys.len() implies precedes(
            #[trigger] keys[i],
            #[trigger] keys[j],
        ) by {
            let i0 = if i < place { i } else { i - 1 };
            let j0 = if j < place { j } else { j - 1 };
            assert(i != place ==> keys[i] == earlier[i0]);
            assert(j != place ==> keys[j] == earlier[j0]);
        }
        assert forall|other: Seq<char>| #[trigger]
            keys.contains(other) <==> strings.contains_key(other) by {
            if keys.contains(other) && other != key {
                let i = choose|i: int| 0 <= i < keys.len() && keys[i] == other;
                let i0 = if i < place { i } else { i - 1 };
                assert(earlier[i0] == other);
                assert(earlier.contains(other));
            }
            if other == key {
                assert(keys[place] == key);
            }
            if strings.contains_key(other) && other != key {
                assert(fewer.contains_key(other));
                assert(earlier.contains(other));
                let i0 = choose|i0: int| 0 <= i0 < earlier.len() && earlier[i0] == other;
                let i = if i0 < place { i0 } else { i0 + 1 };
                assert(keys[i] == other);
            }
        }
        assert(lists_keys(keys, strings));
    }
}

/// The keys of an object can be listed in ascending order in one way only.
pub proof fn lemma_keys_are_listed_once(
    keys: Seq<Seq<char>>,
    keys2: Seq<Seq<char>>,
    strings: Map<Seq<char>, Seq<char>>,
)
    requires
        lists_keys(keys, strings),
        lists_keys(keys2, strings),
    ensures
        keys == keys2,
    decreases keys.len(),
{
    if keys.len() == 0 {
        if keys2.len() > 0 {
            assert(keys2.contains(keys2[0]));
            assert(keys.contains(keys2[0]));
        }
        assert(keys =~= keys2);
    } else {
        let first = keys[0];
        assert(keys.contains(first));
        assert(keys2.contains(first));
        let first2 = keys2[0];
        assert(keys2.contains(first2));
        assert(keys.contains(first2));
        let at = choose|at: int| 0 <= at < keys.len() && keys[at] == first2;
        let at2 = choose|at2: int| 0 <= at2 < keys2.len() && keys2[at2] == first;
        if at != 0 {
            assert(precedes(keys[0], keys[at]));
            if at2 != 0 {
                assert(precedes(keys2[0], keys2[at2]));
                lemma_precedes_transitive(first, first2, first);
            }
            lemma_precedes_irreflexive(first);
        }
        assert(first == first2);
        let fewer = strings.remove(first);
        lemma_rest_is_listed(keys, strings);
        lemma_rest_is_listed(keys2, strings);
        lemma_keys_are_listed_once(keys.drop_first(), keys2.drop_first(), fewer);
        assert(keys =~= seq![first] + keys.drop_first());
        assert(keys2 =~= seq![first] + keys2.drop_first());
    }
}

/// Without its first key, a list lists the object without that member.
proof fn lemma_rest_is_listed(keys: Seq<Seq<char>>, strings: Map<Seq<char>, Seq<char>>)
    requires
        lists_keys(keys, strings),
        keys.len() > 0,
    ensures
        lists_keys(keys.drop_first(), strings.remove(keys[0])),
{
    let rest = keys.drop_first();
    let fewer = strings.remove(keys[0]);
    assert forall|i: int, j: int| 0 <= i < j < rest.len() implies precedes(
        #[trigger] rest[i],
        #[trigger] rest[j],
    ) by {
        assert(rest[i] == keys[i + 1]);
        assert(rest[j] == keys[j + 1]);
    }
    assert forall|key: Seq<char>| #[trigger] rest.contains(key) <==> fewer.contains_key(key) by {
        if rest.contains(key) {
            let i = choose|i: int| 0 <= i < rest.len() && rest[i] == key;
            assert(keys[i + 1] == key);
            assert(keys.contains(key));
            assert(precedes(keys[0], keys[i + 1]));
            lemma_precedes_irreflexive(key);
        }
        if fewer.contains_key(key) {
            assert(keys.contains(key));
            let i = choose|i: int| 0 <= i < keys.len() && keys[i] == key;
            assert(rest[i - 1] == key);
        }
    }
}

/// The text of an object, given its keys in ascending order.
pub proof fn lemma_object_text(keys: Seq<Seq<char>>, strings: Map<Seq<char>, Seq<char>>)
    requires
        lists_keys(keys, strings),
    ensures
        object_text(strings) == seq!['{'] + members_text(keys, strings) + seq!['}'],
{
    lemma_keys_are_listed_once(keys, ascending_keys(strings), strings);
}

/// Texts in a row are escaped by escaping each.
pub proof fn lemma_escaped_concat(first: Seq<char>, second: Seq<char>)
    ensures
        escaped(first + second) == escaped(first) + escaped(second),
    decreases first.len(),
{
    if first.len() == 0 {
        assert(first + second =~= second);
        assert(escaped(first) + escaped(second) =~= escaped(second));
    } else {
        let rest = first.drop_first();
        assert((first + second).drop_first() =~= rest + second);
        lemma_escaped_concat(rest, second);
        assert(escaped(first + second) =~= escaped(first) + escaped(second));
    }
}

/// A text that needs no escape is written as it is.
pub proof fn lemma_plain_text_is_kept(text: Seq<char>)
    requires
        all_plain(text),
    ensures
        escaped(text) == text,
    decreases text.len(),
{
    if text.len() > 0 {
        let rest = text.drop_first();
        assert forall|i: int| 0 <= i < rest.len() implies is_plain(#[trigger] rest[i]) by {
            assert(rest[i] == text[i + 1]);
        }
        lemma_plain_text_is_kept(rest);
        assert(is_plain(text[0]));
        assert(seq![text[0]] + rest =~= text);
    } else {
        assert(text =~= Seq::<char>::empty());
    }
}

/// Characters that need no escape are written as they are, wherever they stand
/// in a text.
pub proof fn lemma_plain_run_is_kept(run: Seq<char>, text: Seq<char>)
    requires
        occurs_in(run, text),
        all_plain(run),
    ensures
        occurs_in(run, escaped(text)),
{
    let at = choose|at: int| occurs_at(run, text, at);
    let before = text.subrange(0, at);
    let after = text.subrange(at + run.len(), text.len() as int);
    assert(text =~= before + run + after);
    lemma_escaped_concat(before, run);
    lemma_escaped_concat(before + run, after);
    lemma_plain_text_is_kept(run);
    lemma_occurs_between(escaped(before), run, escaped(after));
}

proof fn lemma_escaped_char_is_one_line(c: char)
    ensures
        is_one_line(escaped_char(c)),
{
    let code = c as int;
    assert(code >= 32 || code / 16 == 0 || code / 16 == 1);
}

/// Escaped text holds nothing below U+0020.
proof fn lemma_escaped_is_one_line(text: Seq<char>)
    ensures
        is_one_line(escaped(text)),
    decreases text.len(),
{
    if text.len() > 0 {
        lemma_escaped_is_one_line(text.drop_first());
        lemma_escaped_char_is_one_line(text[0]);
        let start = escaped_char(text[0]);
        let rest = escaped(text.drop_first());
        assert forall|i: int| 0 <= i < escaped(text).len() implies #[trigger] escaped(text)[i]
            >= ' ' by {
            if i >= start.len() {
                assert(escaped(text)[i] == rest[i - start.len()]);
            } else {
                assert(escaped(text)[i] == start[i]);
            }
        }
    }
}

/// Two one-line texts in a row make one line.
proof fn lemma_one_line_concat(first: Seq<char>, second: Seq<char>)
    requires
        is_one_line(first),
        is_one_line(second),
    ensures
        is_one_line(first + second),
{
    let whole = first + second;
    assert forall|i: int| 0 <= i < whole.len() implies #[trigger] whole[i] >= ' ' by {
        if i >= first.len() {
            assert(whole[i] == second[i - first.len()]);
        } else {
            assert(whole[i] == first[i]);
        }
    }
}

proof fn lemma_member_is_one_line(key: Seq<char>, value: Seq<char>)
    ensures
        is_one_line(member_text(key, value)),
{
    lemma_escaped_is_one_line(key);
    lemma_escaped_is_one_line(value);
    lemma_one_line_concat(seq!['"'], escaped(key));
    lemma_one_line_concat(seq!['"'] + escaped(key), seq!['"']);
    lemma_one_line_concat(seq!['"'], escaped(value));
    lemma_one_line_concat(seq!['"'] + escaped(value), seq!['"']);
    lemma_one_line_concat(quoted(key), seq![':']);
    lemma_one_line_concat(quoted(key) + seq![':'], quoted(value));
}

proof fn lemma_members_are_one_line(keys: Seq<Seq<char>>, strings: Map<Seq<char>, Seq<char>>)
    ensures
        is_one_line(members_text(keys, strings)),
    decreases keys.len(),
{
    if keys.len() > 0 {
        let member = member_text(keys[0], strings[keys[0]]);
        lemma_member_is_one_line(keys[0], strings[keys[0]]);
        if keys.len() > 1 {
            lemma_members_are_one_line(keys.drop_first(), strings);
            lemma_one_line_concat(member, seq![',']);
            lemma_one_line_concat(member + seq![','], members_text(keys.drop_first(), strings));
        }
    }
}

/// The text of an object keeps to one line.
pub proof fn lemma_object_is_one_line(strings: Map<Seq<char>, Seq<char>>)
    ensures
        is_one_line(object_text(strings)),
{
    let members = members_text(ascending_keys(strings), strings);
    lemma_members_are_one_line(ascending_keys(strings), strings);
    lemma_one_line_concat(seq!['{'], members);
    lemma_one_line_concat(seq!['{'] + members, seq!['}']);
}

proof fn lemma_listed_member_is_shown(
    keys: Seq<Seq<char>>,
    strings: Map<Seq<char>, Seq<char>>,
    at: int,
)
    requires
        0 <= at < keys.len(),
    ensures
        occurs_in(member_text(keys[at], strings[keys[at]]), members_text(keys, strings)),
    decreases keys.len(),
{
    let member = member_text(keys[at], strings[keys[at]]);
    let rest = keys.drop_first();
    let none = Seq::<char>::empty();
    if at == 0 {
        let after = if keys.len() == 1 { none } else { seq![','] + members_text(rest, strings) };
        lemma_occurs_between(none, member, after);
        assert(none + member + after =~= members_text(keys, strings));
    } else {
        assert(rest[at - 1] == keys[at]);
        lemma_listed_member_is_shown(rest, strings, at - 1);
        let before = member_text(keys[0], strings[keys[0]]) + seq![','];
        lemma_occurs_in_part(member, before, members_text(rest, strings), none);
        assert(before + members_text(rest, strings) + none =~= members_text(keys, strings));
    }
}

/// Each member stands in the text of the object.
pub proof fn lemma_member_is_shown(strings: Map<Seq<char>, Seq<char>>, key: Seq<char>)
    requires
        strings.dom().finite(),
        strings.contains_key(key),
    ensures
        occurs_in(member_text(key, strings[key]), object_text(strings)),
{
    lemma_keys_can_be_listed(strings);
    let keys = ascending_keys(strings);
    assert(keys.contains(key));
    let at = choose|at: int| 0 <= at < keys.len() && keys[at] == key;
    lemma_listed_member_is_shown(keys, strings, at);
    lemma_occurs_in_part(
        member_text(key, strings[key]),
        seq!['{'],
        members_text(keys, strings),
        seq!['}'],
    );
}

/// Where a run without quotes stands in a member: in its key or in its value.
proof fn lemma_run_in_member(run: Seq<char>, key: Seq<char>, value: Seq<char>)
    requires
        run.len() > 2,
        !run.contains('"'),
        occurs_in(run, member_text(key, value)),
    ensures
        occurs_in(run, escaped(key)) || occurs_in(run, escaped(value)),
{
    let none = Seq::<char>::empty();
    let after_key = seq![':'] + seq!['"'] + escaped(value) + seq!['"'];
    assert(member_text(key, value) =~= none + seq!['"'] + (escaped(key) + seq!['"'] + after_key));
    lemma_occurs_on_a_side(run, none, '"', escaped(key) + seq!['"'] + after_key);
    if !occurs_in(run, escaped(key)) {
        lemma_occurs_on_a_side(run, escaped(key), '"', after_key);
        let last = escaped(value) + seq!['"'] + none;
        assert(after_key =~= seq![':'] + seq!['"'] + last);
        lemma_occurs_on_a_side(run, seq![':'], '"', last);
        lemma_occurs_on_a_side(run, escaped(value), '"', none);
    }
}

proof fn lemma_run_in_members(
    run: Seq<char>,
    keys: Seq<Seq<char>>,
    strings: Map<Seq<char>, Seq<char>>,
    end: Seq<char>,
) -> (at: int)
    requires
        run.len() > 2,
        !run.contains('"'),
        end.len() <= 1,
        occurs_in(run, members_text(keys, strings) + end),
    ensures
        0 <= at < keys.len(),
        occurs_in(run, escaped(keys[at])) || occurs_in(run, escaped(strings[keys[at]])),
    decreases keys.len(),
{
    let none = Seq::<char>::empty();
    if keys.len() == 0 {
        assert(members_text(keys, strings) + end =~= end);
        assert(false);
        0
    } else {
        let key = keys[0];
        let value = strings[key];
        let rest = keys.drop_first();
        let inner = seq!['"'] + escaped(key) + seq!['"'] + seq![':'] + seq!['"'] + escaped(value);
        let after = if keys.len() == 1 { end } else {
            seq![','] + (members_text(rest, strings) + end)
        };
        assert(members_text(keys, strings) + end =~= inner + seq!['"'] + after);
        lemma_occurs_on_a_side(run, inner, '"', after);
        if occurs_in(run, inner) {
            lemma_occurs_in_part(run, none, inner, seq!['"']);
            assert(none + inner + seq!['"'] =~= member_text(key, value));
            lemma_run_in_member(run, key, value);
            0
        } else {
            assert(keys.len() > 1);
            // The next member starts with a quote, which the run cannot hold.
            let next = rest[0];
            let opened = escaped(next) + seq!['"'] + seq![':'] + quoted(strings[next]) + (
            if rest.len() == 1 { none } else {
                seq![','] + members_text(rest.drop_first(), strings)
            }) + end;
            assert(members_text(rest, strings) + end =~= none + seq!['"'] + opened);
            assert(after =~= seq![','] + seq!['"'] + opened);
            lemma_occurs_on_a_side(run, seq![','], '"', opened);
            lemma_occurs_in_part(run, seq!['"'], opened, none);
            assert(seq!['"'] + opened + none =~= members_text(rest, strings) + end);
            let at = lemma_run_in_members(run, rest, strings, end);
            assert(rest[at] == keys[at + 1]);
            at + 1
        }
    }
}

/// The text of an object shows nothing but its members: a run of more than two
/// characters, none of them a quote, that stands in it stands in one of its
/// keys or values.
pub proof fn lemma_nothing_else_is_shown(strings: Map<Seq<char>, Seq<char>>, run: Seq<char>) -> (key:
    Seq<char>)
    requires
        strings.dom().finite(),
        run.len() > 2,
        !run.contains('"'),
        occurs_in(run, object_text(strings)),
    ensures
        strings.contains_key(key),
        occurs_in(run, escaped(key)) || occurs_in(run, escaped(strings[key])),
{
    lemma_keys_can_be_listed(strings);
    let keys = ascending_keys(strings);
    let members = members_text(keys, strings);
    let none = Seq::<char>::empty();
    let end = seq!['}'];
    if keys.len() == 0 {
        assert(object_text(strings) =~= seq!['{', '}']);
        assert(false);
    }
    // Past the opening brace the first member starts with a quote.
    let opened = escaped(keys[0]) + seq!['"'] + seq![':'] + quoted(strings[keys[0]]) + (if keys.len()
        == 1 { none } else { seq![','] + members_text(keys.drop_first(), strings) }) + end;
    assert(members + end =~= seq!['"'] + opened);
    assert(object_text(strings) =~= seq!['{'] + seq!['"'] + opened);
    lemma_occurs_on_a_side(run, seq!['{'], '"', opened);
    lemma_occurs_in_part(run, seq!['"'], opened, none);
    assert(seq!['"'] + opened + none =~= members + end);
    let at = lemma_run_in_members(run, keys, strings, end);
    assert(keys.contains(keys[at]));
    keys[at]
}

/// After the same beginning, two texts are the same where they go on the same.
pub proof fn lemma_same_rest(start: Seq<char>, left: Seq<char>, right: Seq<char>)
    requires
        start + left == start + right,
    ensures
        left == right,
{
    let whole = start + left;
    assert(left =~= whole.skip(start.len() as int));
    assert(right =~= whole.skip(start.len() as int));
}

/// How a character is written tells where its writing ends, and the character.
proof fn lemma_escaped_char_is_told(
    left: char,
    left_rest: Seq<char>,
    right: char,
    right_rest: Seq<char>,
)
    requires
        escaped_char(left) + left_rest == escaped_char(right) + right_rest,
    ensures
        left == right,
        left_rest == right_rest,
{
    let whole = escaped_char(left) + left_rest;
    let whole2 = escaped_char(right) + right_rest;
    assert(whole[0] == escaped_char(left)[0]);
    assert(whole2[0] == escaped_char(right)[0]);
    if !is_plain(left) && !is_plain(right) {
        assert(whole[1] == escaped_char(left)[1]);
        assert(whole2[1] == escaped_char(right)[1]);
        if escaped_char(left).len() == 6 && escaped_char(right).len() == 6 {
            assert(whole[4] == escaped_char(left)[4]);
            assert(whole2[4] == escaped_char(right)[4]);
            assert(whole[5] == escaped_char(left)[5]);
            assert(whole2[5] == escaped_char(right)[5]);
            assert(left as int / 16 == right as int / 16);
            assert(left as int % 16 == right as int % 16);
        }
    }
    assert(left == right);
    lemma_same_rest(escaped_char(left), left_rest, right_rest);
}

/// A JSON string tells where it ends, and the text in it.
proof fn lemma_escaped_is_told(
    left: Seq<char>,
    left_rest: Seq<char>,
    right: Seq<char>,
    right_rest: Seq<char>,
)
    requires
        escaped(left) + (seq!['"'] + left_rest) == escaped(right) + (seq!['"'] + right_rest),
    ensures
        left == right,
        left_rest == right_rest,
    decreases left.len(),
{
    let whole = escaped(left) + (seq!['"'] + left_rest);
    let whole2 = escaped(right) + (seq!['"'] + right_rest);
    if left.len() == 0 || right.len() == 0 {
        if left.len() > 0 {
            assert(whole[0] == escaped_char(left[0])[0]);
            assert(whole2[0] == '"');
            assert(false);
        }
        if right.len() > 0 {
            assert(whole2[0] == escaped_char(right[0])[0]);
            assert(whole[0] == '"');
            assert(false);
        }
        assert(left =~= right);
        assert(whole =~= seq!['"'] + left_rest);
        assert(whole2 =~= seq!['"'] + right_rest);
        lemma_same_rest(seq!['"'], left_rest, right_rest);
    } else {
        let tail = escaped(left.drop_first()) + (seq!['"'] + left_rest);
        let tail2 = escaped(right.drop_first()) + (seq!['"'] + right_rest);
        assert(whole =~= escaped_char(left[0]) + tail);
        assert(whole2 =~= escaped_char(right[0]) + tail2);
        lemma_escaped_char_is_told(left[0], tail, right[0], tail2);
        lemma_escaped_is_told(left.drop_first(), left_rest, right.drop_first(), right_rest);
        assert(left =~= seq![left[0]] + left.drop_first());
        assert(right =~= seq![right[0]] + right.drop_first());
    }
}

/// A member tells where it ends, its key and its value.
proof fn lemma_member_is_told(
    key: Seq<char>,
    value: Seq<char>,
    rest: Seq<char>,
    key2: Seq<char>,
    value2: Seq<char>,
    rest2: Seq<char>,
)
    requires
        member_text(key, value) + rest == member_text(key2, value2) + rest2,
    ensures
        key == key2,
        value == value2,
        rest == rest2,
{
    let quote = seq!['"'];
    let between = seq![':', '"'];
    let tail = escaped(value) + (quote + rest);
    let tail2 = escaped(value2) + (quote + rest2);
    assert(member_text(key, value) + rest =~= quote + (escaped(key) + (quote + (between + tail))));
    assert(member_text(key2, value2) + rest2 =~= quote + (escaped(key2) + (quote + (between
        + tail2))));
    lemma_same_rest(
        quote,
        escaped(key) + (quote + (between + tail)),
        escaped(key2) + (quote + (between + tail2)),
    );
    lemma_escaped_is_told(key, between + tail, key2, between + tail2);
    lemma_same_rest(between, tail, tail2);
    lemma_escaped_is_told(value, rest, value2, rest2);
}

/// The members of an object tell their keys and values.
proof fn lemma_members_are_told(
    keys: Seq<Seq<char>>,
    strings: Map<Seq<char>, Seq<char>>,
    keys2: Seq<Seq<char>>,
    strings2: Map<Seq<char>, Seq<char>>,
)
    requires
        members_text(keys, strings) + seq!['}'] == members_text(keys2, strings2) + seq!['}'],
    ensures
        keys == keys2,
        forall|i: int| 0 <= i < keys.len() ==> strings[#[trigger] keys[i]] == strings2[keys[i]],
    decreases keys.len(),
{
    let end = seq!['}'];
    let whole = members_text(keys, strings) + end;
    let whole2 = members_text(keys2, strings2) + end;
    if keys.len() == 0 || keys2.len() == 0 {
        if keys.len() > 0 {
            assert(whole[0] == '"');
            assert(whole2[0] == '}');
            assert(false);
        }
        if keys2.len() > 0 {
            assert(whole2[0] == '"');
            assert(whole[0] == '}');
            assert(false);
        }
        assert(keys =~= keys2);
    } else {
        let tail = keys.drop_first();
        let tail2 = keys2.drop_first();
        let rest = if keys.len() == 1 { end } else {
            seq![','] + (members_text(tail, strings) + end)
        };
        let rest2 = if keys2.len() == 1 { end } else {
            seq![','] + (members_text(tail2, strings2) + end)
        };
        assert(whole =~= member_text(keys[0], strings[keys[0]]) + rest);
        assert(whole2 =~= member_text(keys2[0], strings2[keys2[0]]) + rest2);
        lemma_member_is_told(
            keys[0],
            strings[keys[0]],
            rest,
            keys2[0],
            strings2[keys2[0]],
            rest2,
        );
        assert(keys.len() == 1 ==> rest[0] == '}');
        assert(keys.len() > 1 ==> rest[0] == ',');
        assert(keys2.len() == 1 ==> rest2[0] == '}');
        assert(keys2.len() > 1 ==> rest2[0] == ',');
        if keys.len() > 1 {
            lemma_same_rest(
                seq![','],
                members_text(tail, strings) + end,
                members_text(tail2, strings2) + end,
            );
            lemma_members_are_told(tail, strings, tail2, strings2);
        } else {
            assert(tail =~= tail2);
        }
        assert(keys =~= seq![keys[0]] + tail);
        assert(keys2 =~= seq![keys2[0]] + tail2);
        assert forall|i: int| 0 <= i < keys.len() implies strings[#[trigger] keys[i]]
            == strings2[keys[i]] by {
            if i > 0 {
                assert(tail[i - 1] == keys[i]);
            }
        }
    }
}

/// Objects with the same text have the same members.
pub proof fn lemma_object_is_told(
    strings: Map<Seq<char>, Seq<char>>,
    strings2: Map<Seq<char>, Seq<char>>,
)
    requires
        strings.dom().finite(),
        strings2.dom().finite(),
        object_text(strings) == object_text(strings2),
    ensures
        strings == strings2,
{
    lemma_keys_can_be_listed(strings);
    lemma_keys_can_be_listed(strings2);
    let keys = ascending_keys(strings);
    let keys2 = ascending_keys(strings2);
    let inner = members_text(keys, strings) + seq!['}'];
    let inner2 = members_text(keys2, strings2) + seq!['}'];
    assert(object_text(strings) =~= seq!['{'] + inner);
    assert(object_text(strings2) =~= seq!['{'] + inner2);
    lemma_same_rest(seq!['{'], inner, inner2);
    lemma_members_are_told(keys, strings, keys2, strings2);
    assert forall|key: Seq<char>|
        strings.contains_key(key) <==> #[trigger] strings2.contains_key(key) by {
        assert(keys.contains(key) <==> strings.contains_key(key));
        assert(keys2.contains(key) <==> strings2.contains_key(key));
    }
    assert forall|key: Seq<char>| strings.contains_key(key) implies #[trigger] strings[key]
        == strings2[key] by {
        assert(keys.contains(key));
        let i = choose|i: int| 0 <= i < keys.len() && keys[i] == key;
        assert(strings[keys[i]] == strings2[keys[i]]);
    }
    assert(strings =~= strings2);
}

} // verus!
