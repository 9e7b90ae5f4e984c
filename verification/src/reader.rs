//! What a JSON reader finds in the reports.
//!
//! The reader here is a specification only. It scans an object for a key as any reader of JSON
//! would, by what the characters mean and not by how the reports are put together.
use vstd::prelude::*;

verus! {

/// Where the value that starts at `i` ends: at the comma or the closing bracket that is neither
/// inside a string nor inside a bracket that the value itself opens. `depth` counts the brackets
/// that are open, and `quoted` tells whether `i` is inside a string.
pub open spec fn value_end(s: Seq<char>, i: int, depth: int, quoted: bool) -> int
    decreases s.len() - i + 1,
{
    if i < 0 || i >= s.len() {
        s.len() as int
    } else if quoted {
        if s[i] == '\\' {
            value_end(s, i + 2, depth, true)
        } else {
            value_end(s, i + 1, depth, s[i] != '"')
        }
    } else if s[i] == '"' {
        value_end(s, i + 1, depth, true)
    } else if s[i] == '{' || s[i] == '[' {
        value_end(s, i + 1, depth + 1, false)
    } else if s[i] == '}' || s[i] == ']' {
        if depth == 0 {
            i
        } else {
            value_end(s, i + 1, depth - 1, false)
        }
    } else if s[i] == ',' && depth == 0 {
        i
    } else {
        value_end(s, i + 1, depth, false)
    }
}

/// The index of the first quote from `i` on.
pub open spec fn quote_from(s: Seq<char>, i: int) -> int
    decreases s.len() - i,
{
    if i < 0 || i >= s.len() {
        s.len() as int
    } else if s[i] == '"' {
        i
    } else {
        quote_from(s, i + 1)
    }
}

/// The value under a key, among the members of an object that start at `i`.
pub open spec fn member_from(s: Seq<char>, i: int, key: Seq<char>) -> Option<Seq<char>>
    decreases s.len() - i,
{
    let colon = quote_from(s, i + 1) + 1;
    let end = value_end(s, colon + 1, 0, false);
    if i < 0 || i >= s.len() || s[i] != '"' || colon >= s.len() || s[colon] != ':' || !(i < colon
        < end < s.len()) {
        None
    } else if s.subrange(i + 1, colon - 1) == key {
        Some(s.subrange(colon + 1, end))
    } else if s[end] == ',' {
        member_from(s, end + 1, key)
    } else {
        None
    }
}

/// The value under a key of an object, as the text it is written as.
pub open spec fn value_of(object: Seq<char>, key: Seq<char>) -> Option<Seq<char>> {
    if object.len() > 0 && object[0] == '{' {
        member_from(object, 1, key)
    } else {
        None
    }
}

/// A key with its value.
pub open spec fn member_text(member: (Seq<char>, Seq<char>)) -> Seq<char> {
    seq!['"'] + member.0 + seq!['"', ':'] + member.1
}

/// The members of an object as they are written.
pub open spec fn member_texts(members: Seq<(Seq<char>, Seq<char>)>) -> Seq<Seq<char>> {
    members.map_values(|member: (Seq<char>, Seq<char>)| member_text(member))
}

/// An object with the members, in order.
pub open spec fn object_text(members: Seq<(Seq<char>, Seq<char>)>) -> Seq<char> {
    seq!['{'] + crate::text::separated(member_texts(members)) + seq!['}']
}

/// An array with the items, in order.
pub open spec fn array_text(items: Seq<Seq<char>>) -> Seq<char> {
    seq!['['] + crate::text::separated(items) + seq![']']
}

/// A string, whose contents are already escaped.
pub open spec fn string_text(contents: Seq<char>) -> Seq<char> {
    seq!['"'] + contents + seq!['"']
}

/// `true` or `false`.
pub open spec fn truth_text(b: bool) -> Seq<char> {
    if b {
        "true"@
    } else {
        "false"@
    }
}

/// A number, or `null` when there is none.
pub open spec fn optional_text(value: Option<u64>) -> Seq<char> {
    match value {
        Some(n) => crate::number::decimal(n as nat),
        None => "null"@,
    }
}

/// The text stands in `s` from `i` on.
pub open spec fn stands_at(s: Seq<char>, i: int, v: Seq<char>) -> bool {
    &&& 0 <= i && i + v.len() <= s.len()
    &&& forall|j: int| 0 <= j < v.len() ==> s[i + j] == #[trigger] v[j]
}

/// Scanning goes over the text, wherever it stands with at least `least` brackets open.
#[verifier::opaque]
pub open spec fn skips(v: Seq<char>, least: int) -> bool {
    forall|s: Seq<char>, i: int, depth: int|
        #![trigger value_end(s, i, depth, false), stands_at(s, i, v)]
        stands_at(s, i, v) && depth >= least ==> value_end(s, i, depth, false) == value_end(
            s,
            i + v.len(),
            depth,
            false,
        )
}

/// Scanning goes over the text inside a string.
#[verifier::opaque]
pub open spec fn skips_quoted(v: Seq<char>) -> bool {
    forall|s: Seq<char>, i: int, depth: int|
        #![trigger value_end(s, i, depth, true), stands_at(s, i, v)]
        stands_at(s, i, v) ==> value_end(s, i, depth, true) == value_end(
            s,
            i + v.len(),
            depth,
            true,
        )
}

proof fn lemma_skip(v: Seq<char>, least: int, s: Seq<char>, i: int, depth: int)
    requires
        skips(v, least),
        stands_at(s, i, v),
        depth >= least,
    ensures
        value_end(s, i, depth, false) == value_end(s, i + v.len(), depth, false),
{
    reveal(skips);
    assert(value_end(s, i, depth, false) == value_end(s, i + v.len(), depth, false));
}

proof fn lemma_skip_quoted(v: Seq<char>, s: Seq<char>, i: int, depth: int)
    requires
        skips_quoted(v),
        stands_at(s, i, v),
    ensures
        value_end(s, i, depth, true) == value_end(s, i + v.len(), depth, true),
{
    reveal(skips_quoted);
    assert(value_end(s, i, depth, true) == value_end(s, i + v.len(), depth, true));
}

/// A text that stands somewhere stands there in parts.
proof fn lemma_stands(s: Seq<char>, i: int, u: Seq<char>, v: Seq<char>)
    requires
        stands_at(s, i, u + v),
    ensures
        stands_at(s, i, u),
        stands_at(s, i + u.len(), v),
{
    let w = u + v;
    assert forall|j: int| 0 <= j < u.len() implies s[i + j] == #[trigger] u[j] by {
        assert(w[j] == u[j]);
    }
    assert forall|j: int| 0 <= j < v.len() implies s[i + u.len() + j] == #[trigger] v[j] by {
        assert(w[u.len() + j] == v[j]);
    }
}

proof fn lemma_skips_both(u: Seq<char>, v: Seq<char>, least: int)
    requires
        skips(u, least),
        skips(v, least),
    ensures
        skips(u + v, least),
{
    assert forall|s: Seq<char>, i: int, depth: int|
        #![trigger value_end(s, i, depth, false), stands_at(s, i, u + v)]
        stands_at(s, i, u + v) && depth >= least implies value_end(s, i, depth, false) == value_end(
        s,
        i + (u + v).len(),
        depth,
        false,
    ) by {
        lemma_stands(s, i, u, v);
        lemma_skip(u, least, s, i, depth);
        lemma_skip(v, least, s, i + u.len(), depth);
    }
    reveal(skips);
}

proof fn lemma_skips_quoted_both(u: Seq<char>, v: Seq<char>)
    requires
        skips_quoted(u),
        skips_quoted(v),
    ensures
        skips_quoted(u + v),
{
    assert forall|s: Seq<char>, i: int, depth: int|
        #![trigger value_end(s, i, depth, true), stands_at(s, i, u + v)]
        stands_at(s, i, u + v) implies value_end(s, i, depth, true) == value_end(
        s,
        i + (u + v).len(),
        depth,
        true,
    ) by {
        lemma_stands(s, i, u, v);
        lemma_skip_quoted(u, s, i, depth);
        lemma_skip_quoted(v, s, i + u.len(), depth);
    }
    reveal(skips_quoted);
}

/// A character without a meaning to the scan.
pub open spec fn is_idle(c: char) -> bool {
    c != '"' && c != '{' && c != '}' && c != '[' && c != ']' && c != ','
}

/// Text without brackets, quotes and commas is gone over.
pub proof fn lemma_skips_idle(v: Seq<char>)
    requires
        forall|j: int| 0 <= j < v.len() ==> is_idle(#[trigger] v[j]),
    ensures
        skips(v, 0),
    decreases v.len(),
{
    if v.len() == 0 {
        reveal(skips);
    } else {
        let c = v.last();
        let one = seq![c];
        assert(is_idle(v[v.len() - 1]));
        lemma_skips_idle(v.drop_last());
        assert forall|s: Seq<char>, i: int, depth: int|
            #![trigger value_end(s, i, depth, false), stands_at(s, i, one)]
            stands_at(s, i, one) && depth >= 0 implies value_end(s, i, depth, false) == value_end(
            s,
            i + one.len(),
            depth,
            false,
        ) by {
            assert(s[i + 0] == one[0]);
        }
        reveal(skips);
        lemma_skips_both(v.drop_last(), one, 0);
        assert(v =~= v.drop_last() + one);
    }
}

/// Inside brackets a comma is gone over.
proof fn lemma_skips_comma()
    ensures
        skips(seq![','], 1),
{
    let one = seq![','];
    assert forall|s: Seq<char>, i: int, depth: int|
        #![trigger value_end(s, i, depth, false), stands_at(s, i, one)]
        stands_at(s, i, one) && depth >= 1 implies value_end(s, i, depth, false) == value_end(
        s,
        i + one.len(),
        depth,
        false,
    ) by {
        assert(s[i + 0] == one[0]);
    }
    reveal(skips);
}

/// What is gone over anywhere is gone over inside brackets.
proof fn lemma_skips_deeper(v: Seq<char>)
    requires
        skips(v, 0),
    ensures
        skips(v, 1),
{
    reveal(skips);
}

/// A bracketed text is gone over as a whole.
proof fn lemma_skips_brackets(open: char, inner: Seq<char>, close: char)
    requires
        open == '{' || open == '[',
        close == '}' || close == ']',
        skips(inner, 1),
    ensures
        skips(seq![open] + inner + seq![close], 0),
{
    let v = seq![open] + inner + seq![close];
    assert forall|s: Seq<char>, i: int, depth: int|
        #![trigger value_end(s, i, depth, false), stands_at(s, i, v)]
        stands_at(s, i, v) && depth >= 0 implies value_end(s, i, depth, false) == value_end(
        s,
        i + v.len(),
        depth,
        false,
    ) by {
        assert(v =~= seq![open] + (inner + seq![close]));
        lemma_stands(s, i, seq![open], inner + seq![close]);
        lemma_stands(s, i + 1, inner, seq![close]);
        assert(s[i + 0] == v[0]);
        lemma_skip(inner, 1, s, i + 1, depth + 1);
        let end = i + 1 + inner.len();
        assert(s[end + 0] == seq![close][0]);
        assert(value_end(s, end, depth + 1, false) == value_end(s, end + 1, depth, false));
    }
    reveal(skips);
}

/// A string is gone over as a whole.
pub proof fn lemma_skips_string(contents: Seq<char>)
    requires
        skips_quoted(contents),
    ensures
        skips(string_text(contents), 0),
{
    let v = string_text(contents);
    assert forall|s: Seq<char>, i: int, depth: int|
        #![trigger value_end(s, i, depth, false), stands_at(s, i, v)]
        stands_at(s, i, v) && depth >= 0 implies value_end(s, i, depth, false) == value_end(
        s,
        i + v.len(),
        depth,
        false,
    ) by {
        assert(v =~= seq!['"'] + (contents + seq!['"']));
        lemma_stands(s, i, seq!['"'], contents + seq!['"']);
        lemma_stands(s, i + 1, contents, seq!['"']);
        assert(s[i + 0] == v[0]);
        lemma_skip_quoted(contents, s, i + 1, depth);
        let end = i + 1 + contents.len();
        assert(s[end + 0] == seq!['"'][0]);
        assert(value_end(s, end, depth, true) == value_end(s, end + 1, depth, false));
    }
    reveal(skips);
}

/// Text without quotes and backslashes is gone over inside a string.
pub proof fn lemma_skips_quoted_plain(v: Seq<char>)
    requires
        forall|j: int| 0 <= j < v.len() ==> #[trigger] v[j] != '"' && v[j] != '\\',
    ensures
        skips_quoted(v),
    decreases v.len(),
{
    if v.len() == 0 {
        reveal(skips_quoted);
    } else {
        let one = seq![v.last()];
        assert(v[v.len() - 1] != '"');
        lemma_skips_quoted_plain(v.drop_last());
        assert forall|s: Seq<char>, i: int, depth: int|
            #![trigger value_end(s, i, depth, true), stands_at(s, i, one)]
            stands_at(s, i, one) implies value_end(s, i, depth, true) == value_end(
            s,
            i + one.len(),
            depth,
            true,
        ) by {
            assert(s[i + 0] == one[0]);
        }
        reveal(skips_quoted);
        lemma_skips_quoted_both(v.drop_last(), one);
        assert(v =~= v.drop_last() + one);
    }
}

/// A backslash takes the character behind it along.
proof fn lemma_skips_quoted_pair(c: char)
    ensures
        skips_quoted(seq!['\\', c]),
{
    let v = seq!['\\', c];
    assert forall|s: Seq<char>, i: int, depth: int|
        #![trigger value_end(s, i, depth, true), stands_at(s, i, v)]
        stands_at(s, i, v) implies value_end(s, i, depth, true) == value_end(
        s,
        i + v.len(),
        depth,
        true,
    ) by {
        assert(s[i + 0] == v[0]);
    }
    reveal(skips_quoted);
}

/// Escaped text is gone over inside a string, whatever it was before.
pub proof fn lemma_skips_quoted_escaped(s: Seq<char>)
    ensures
        skips_quoted(crate::json::escaped(s)),
    decreases s.len(),
{
    if s.len() == 0 {
        reveal(skips_quoted);
    } else {
        lemma_skips_quoted_escaped(s.drop_last());
        let c = s.last();
        let e = crate::json::escaped_char(c);
        if e.len() == 1 {
            lemma_skips_quoted_plain(e);
        } else {
            lemma_skips_quoted_pair(e[1]);
            let rest = e.skip(2);
            assert forall|j: int| 0 <= j < rest.len() implies #[trigger] rest[j] != '"' && rest[j]
                != '\\' by {
                assert(rest[j] == e[j + 2]);
            }
            lemma_skips_quoted_plain(rest);
            lemma_skips_quoted_both(seq!['\\', e[1]], rest);
            assert(e =~= seq!['\\', e[1]] + rest);
        }
        lemma_skips_quoted_both(crate::json::escaped(s.drop_last()), e);
    }
}

/// Items that are gone over are gone over together, inside brackets.
proof fn lemma_skips_separated(items: Seq<Seq<char>>)
    requires
        forall|j: int| 0 <= j < items.len() ==> skips(#[trigger] items[j], 0),
    ensures
        skips(crate::text::separated(items), 1),
    decreases items.len(),
{
    if items.len() == 0 {
        lemma_skips_idle(Seq::empty());
        lemma_skips_deeper(Seq::empty());
    } else {
        assert(skips(items[0], 0));
        lemma_skips_deeper(items[0]);
        if items.len() > 1 {
            let rest = items.drop_first();
            assert forall|j: int| 0 <= j < rest.len() implies skips(#[trigger] rest[j], 0) by {
                assert(skips(items[j + 1], 0));
            }
            lemma_skips_separated(rest);
            lemma_skips_comma();
            lemma_skips_both(items[0], seq![','], 1);
            lemma_skips_both(items[0] + seq![','], crate::text::separated(rest), 1);
        }
    }
}

/// An array of values is a value.
pub proof fn lemma_skips_array(items: Seq<Seq<char>>)
    requires
        forall|j: int| 0 <= j < items.len() ==> skips(#[trigger] items[j], 0),
    ensures
        skips(array_text(items), 0),
{
    lemma_skips_separated(items);
    lemma_skips_brackets('[', crate::text::separated(items), ']');
}

/// No character of a key ends it or escapes.
pub open spec fn is_plain_key(key: Seq<char>) -> bool {
    forall|j: int| 0 <= j < key.len() ==> #[trigger] key[j] != '"' && key[j] != '\\'
}

/// The members can be told apart by a reader: keys are plain, and values are whole.
pub open spec fn are_members(members: Seq<(Seq<char>, Seq<char>)>) -> bool {
    forall|j: int|
        0 <= j < members.len() ==> is_plain_key((#[trigger] members[j]).0) && skips(members[j].1, 0)
}

/// An object with such members is a value.
pub proof fn lemma_skips_object(members: Seq<(Seq<char>, Seq<char>)>)
    requires
        are_members(members),
    ensures
        skips(object_text(members), 0),
{
    let texts = member_texts(members);
    assert forall|j: int| 0 <= j < texts.len() implies skips(#[trigger] texts[j], 0) by {
        let (key, value) = members[j];
        assert(is_plain_key(members[j].0) && skips(members[j].1, 0));
        lemma_skips_quoted_plain(key);
        lemma_skips_string(key);
        lemma_skips_idle(seq![':']);
        lemma_skips_both(string_text(key), seq![':'], 0);
        lemma_skips_both(string_text(key) + seq![':'], value, 0);
        assert(texts[j] =~= string_text(key) + seq![':'] + value);
    }
    lemma_skips_separated(texts);
    lemma_skips_brackets('{', crate::text::separated(texts), '}');
}

/// Where the quote behind a plain text is.
proof fn lemma_quote_from(s: Seq<char>, i: int, key: Seq<char>)
    requires
        is_plain_key(key),
        stands_at(s, i, key + seq!['"']),
    ensures
        quote_from(s, i) == i + key.len(),
    decreases key.len(),
{
    let whole = key + seq!['"'];
    assert(s[i + 0] == whole[0]);
    if key.len() > 0 {
        let rest = key.drop_first();
        assert(key[0] != '"');
        assert forall|j: int| 0 <= j < rest.len() implies #[trigger] rest[j] != '"' && rest[j]
            != '\\' by {
            assert(key[j + 1] != '"' && key[j + 1] != '\\');
        }
        assert forall|j: int| 0 <= j < (rest + seq!['"']).len() implies s[i + 1 + j]
            == #[trigger] (rest + seq!['"'])[j] by {
            assert(whole[j + 1] == (rest + seq!['"'])[j]);
        }
        lemma_quote_from(s, i + 1, rest);
    }
}

/// A reader that comes to the first of some members finds the value under a key among them.
proof fn lemma_member_from(
    s: Seq<char>,
    i: int,
    members: Seq<(Seq<char>, Seq<char>)>,
    key: Seq<char>,
    k: int,
)
    requires
        members.len() > 0,
        are_members(members),
        stands_at(s, i, crate::text::separated(member_texts(members)) + seq!['}']),
        -1 <= k < members.len(),
        k >= 0 ==> members[k].0 == key,
        forall|j: int|
            0 <= j < members.len() && (k < 0 || j < k) ==> (#[trigger] members[j]).0 != key,
    ensures
        member_from(s, i, key) == (if k >= 0 {
            Some(members[k].1)
        } else {
            None
        }),
    decreases members.len(),
{
    let texts = member_texts(members);
    let (name, value) = members[0];
    assert(is_plain_key(members[0].0) && skips(members[0].1, 0));
    let rest = members.drop_first();
    let head = seq!['"'] + (name + seq!['"']) + seq![':'];
    let tail = if members.len() == 1 {
        seq!['}']
    } else {
        seq![','] + (crate::text::separated(member_texts(rest)) + seq!['}'])
    };
    assert(texts[0] =~= head + value);
    assert(member_texts(rest) =~= texts.drop_first());
    assert(crate::text::separated(texts) + seq!['}'] =~= head + (value + tail));
    lemma_stands(s, i, head, value + tail);
    lemma_stands(s, i + head.len(), value, tail);
    lemma_stands(s, i, seq!['"'] + (name + seq!['"']), seq![':']);
    lemma_stands(s, i, seq!['"'], name + seq!['"']);
    assert(s[i + 0] == seq!['"'][0]);
    lemma_quote_from(s, i + 1, name);
    let colon = i + 1 + name.len() + 1;
    assert(s[colon + 0] == seq![':'][0]);
    let start = colon + 1;
    let end = start + value.len();
    lemma_skip(value, 0, s, start, 0);
    assert(s[end + 0] == tail[0]);
    assert(value_end(s, end, 0, false) == end);
    assert(s.subrange(i + 1, colon - 1) =~= name) by {
        lemma_stands(s, i + 1, name, seq!['"']);
        assert forall|j: int| 0 <= j < name.len() implies s[i + 1 + j] == name[j] by {}
    }
    assert(s.subrange(start, end) =~= value) by {
        assert forall|j: int| 0 <= j < value.len() implies s[start + j] == value[j] by {}
    }
    if name != key && members.len() > 1 {
        let after = crate::text::separated(member_texts(rest)) + seq!['}'];
        lemma_stands(s, end, seq![','], after);
        assert forall|j: int| 0 <= j < rest.len() implies is_plain_key((#[trigger] rest[j]).0)
            && skips(rest[j].1, 0) by {
            assert(members[j + 1] == rest[j]);
        }
        assert forall|j: int|
            0 <= j < rest.len() && (k < 0 || j < k - 1) implies (#[trigger] rest[j]).0 != key by {
            assert(members[j + 1] == rest[j]);
        }
        if k >= 1 {
            assert(rest[k - 1] == members[k]);
        }
        lemma_member_from(s, end + 1, rest, key, if k < 0 {
            -1
        } else {
            k - 1
        });
    }
}

/// A reader finds under a key the value that an object was written with, and finds nothing under a
/// key that it was not written with.
pub proof fn law_a_reader_finds_what_was_written(
    members: Seq<(Seq<char>, Seq<char>)>,
    key: Seq<char>,
    k: int,
)
    requires
        members.len() > 0,
        are_members(members),
        -1 <= k < members.len(),
        k >= 0 ==> members[k].0 == key,
        forall|j: int|
            0 <= j < members.len() && (k < 0 || j < k) ==> (#[trigger] members[j]).0 != key,
    ensures
        value_of(object_text(members), key) == (if k >= 0 {
            Some(members[k].1)
        } else {
            None
        }),
{
    let s = object_text(members);
    let inner = crate::text::separated(member_texts(members)) + seq!['}'];
    assert(s =~= seq!['{'] + inner);
    assert forall|j: int| 0 <= j < inner.len() implies s[1 + j] == #[trigger] inner[j] by {}
    lemma_member_from(s, 1, members, key, k);
}

/// What stands before the first value of an object.
pub open spec fn first_key(key: Seq<char>) -> Seq<char> {
    seq!['{', '"'] + key + seq!['"', ':']
}

/// What stands before any other value of an object.
pub open spec fn next_key(key: Seq<char>) -> Seq<char> {
    seq![',', '"'] + key + seq!['"', ':']
}

/// An object that is not closed yet.
pub open spec fn open_object(members: Seq<(Seq<char>, Seq<char>)>) -> Seq<char> {
    seq!['{'] + crate::text::separated(member_texts(members))
}

/// The first member of an object.
pub proof fn lemma_first_member(key: Seq<char>, value: Seq<char>)
    ensures
        first_key(key) + value == open_object(seq![(key, value)]),
{
    let members = seq![(key, value)];
    assert(member_texts(members) =~= seq![member_text((key, value))]);
    assert(crate::text::separated(member_texts(members)) == member_text((key, value)));
    assert(first_key(key) + value =~= open_object(members));
}

/// One more member of an object, behind whatever stands before it.
pub proof fn lemma_next_member(
    prefix: Seq<char>,
    members: Seq<(Seq<char>, Seq<char>)>,
    key: Seq<char>,
    value: Seq<char>,
)
    requires
        members.len() > 0,
    ensures
        prefix + open_object(members) + next_key(key) + value == prefix + open_object(
            members.push((key, value)),
        ),
        open_object(members) + next_key(key) + value == open_object(members.push((key, value))),
{
    let texts = member_texts(members);
    let longer = members.push((key, value));
    assert(member_texts(longer) =~= texts.push(member_text((key, value))));
    crate::text::lemma_separated_push(texts, member_text((key, value)));
    let text = open_object(members) + next_key(key) + value;
    assert(text =~= open_object(longer));
    assert(prefix + open_object(members) + next_key(key) + value =~= prefix + text);
}

/// The closing brace.
pub proof fn lemma_last_member(members: Seq<(Seq<char>, Seq<char>)>)
    ensures
        open_object(members) + seq!['}'] == object_text(members),
{
}

/// A numeral is a value.
pub proof fn lemma_skips_decimal(n: nat)
    ensures
        skips(crate::number::decimal(n), 0),
{
    crate::number::lemma_decimal_is_numeral(n);
    let text = crate::number::decimal(n);
    assert forall|j: int| 0 <= j < text.len() implies is_idle(#[trigger] text[j]) by {
        assert(crate::number::is_digit(text[j]));
    }
    lemma_skips_idle(text);
}

/// A signed numeral is a value.
pub proof fn lemma_skips_signed(n: int)
    ensures
        skips(crate::number::signed_decimal(n), 0),
{
    if n < 0 {
        lemma_skips_idle(seq!['-']);
        lemma_skips_decimal((-n) as nat);
        lemma_skips_both(seq!['-'], crate::number::decimal((-n) as nat), 0);
    } else {
        lemma_skips_decimal(n as nat);
    }
}

/// `true`, `false` and `null` are values.
pub proof fn lemma_skips_word(b: bool, value: Option<u64>)
    ensures
        skips(truth_text(b), 0),
        skips(optional_text(value), 0),
{
    reveal_strlit("true");
    reveal_strlit("false");
    reveal_strlit("null");
    lemma_skips_idle(truth_text(b));
    match value {
        Some(n) => {
            lemma_skips_decimal(n as nat);
        },
        None => {
            lemma_skips_idle("null"@);
        },
    }
}

} // verus!
