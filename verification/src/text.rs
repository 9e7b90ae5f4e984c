//! Character-level helpers: trimming, searching and comparing.
use vstd::prelude::*;
use vstd::slice::slice_subrange;

verus! {

/// `String::push`: the character is added at the end, and nothing else changes.
pub assume_specification[String::push](s: &mut String, c: char)
    ensures
        final(s)@ == old(s)@.push(c),
;

/// The characters with Unicode's `White_Space` property.
pub open spec fn is_white_space(c: char) -> bool {
    ||| '\u{9}' <= c <= '\u{d}'
    ||| c == ' '
    ||| c == '\u{85}'
    ||| c == '\u{a0}'
    ||| c == '\u{1680}'
    ||| '\u{2000}' <= c <= '\u{200a}'
    ||| c == '\u{2028}'
    ||| c == '\u{2029}'
    ||| c == '\u{202f}'
    ||| c == '\u{205f}'
    ||| c == '\u{3000}'
}

/// Which characters are stripped from the two ends of a text.
#[derive(Debug, Clone, Copy, PartialEq, Eq)]
pub enum Margin {
    /// Unicode white space.
    WhiteSpace,
    /// The white space of JSON.
    JsonSpace,
}

impl Margin {
    pub open spec fn holds(self, c: char) -> bool {
        match self {
            Margin::WhiteSpace => is_white_space(c),
            Margin::JsonSpace => c == ' ' || c == '\t' || c == '\n' || c == '\r',
        }
    }

    pub fn test(self, c: char) -> (b: bool)
        ensures
            b == self.holds(c),
    {
        match self {
            Margin::WhiteSpace => ('\u{9}' <= c && c <= '\u{d}') || c == ' ' || c == '\u{85}' || c
                == '\u{a0}' || c == '\u{1680}' || ('\u{2000}' <= c && c <= '\u{200a}') || c
                == '\u{2028}' || c == '\u{2029}' || c == '\u{202f}' || c == '\u{205f}' || c
                == '\u{3000}',
            Margin::JsonSpace => c == ' ' || c == '\t' || c == '\n' || c == '\r',
        }
    }
}

/// `s` without its leading run of margin characters.
pub open spec fn strip_start(s: Seq<char>, margin: Margin) -> Seq<char>
    decreases s.len(),
{
    if s.len() > 0 && margin.holds(s.first()) {
        strip_start(s.drop_first(), margin)
    } else {
        s
    }
}

/// `s` without its trailing run of margin characters.
pub open spec fn strip_end(s: Seq<char>, margin: Margin) -> Seq<char>
    decreases s.len(),
{
    if s.len() > 0 && margin.holds(s.last()) {
        strip_end(s.drop_last(), margin)
    } else {
        s
    }
}

/// `s` without margin characters at either end.
pub open spec fn strip(s: Seq<char>, margin: Margin) -> Seq<char> {
    strip_end(strip_start(s, margin), margin)
}

/// `strip` as executable code.
pub fn strip_margin(s: &[char], margin: Margin) -> (r: &[char])
    ensures
        r@ == strip(s@, margin),
{
    let mut from: usize = 0;
    assert(s@.skip(0) =~= s@);
    while from < s.len() && margin.test(s[from])
        invariant
            from <= s@.len(),
            strip_start(s@, margin) == strip_start(s@.skip(from as int), margin),
        decreases s.len() - from,
    {
        assert(s@.skip(from as int).drop_first() =~= s@.skip(from + 1));
        from = from + 1;
    }
    let ghost head = s@.skip(from as int);
    assert(strip_start(s@, margin) == head);
    let mut to: usize = s.len();
    assert(s@.subrange(from as int, to as int) =~= head);
    while from < to && margin.test(s[to - 1])
        invariant
            from <= to <= s@.len(),
            head == strip_start(s@, margin),
            strip_end(head, margin) == strip_end(s@.subrange(from as int, to as int), margin),
        decreases to - from,
    {
        assert(s@.subrange(from as int, to as int).drop_last() =~= s@.subrange(
            from as int,
            to - 1,
        ));
        to = to - 1;
    }
    slice_subrange(s, from, to)
}

/// The index of the first `c` in `s`, or `s.len()` when there is none.
pub open spec fn index_of(s: Seq<char>, c: char) -> nat
    decreases s.len(),
{
    if s.len() == 0 || s.first() == c {
        0
    } else {
        1 + index_of(s.drop_first(), c)
    }
}

pub proof fn lemma_index_of(s: Seq<char>, c: char)
    ensures
        index_of(s, c) <= s.len(),
        index_of(s, c) < s.len() ==> s[index_of(s, c) as int] == c,
        forall|i: int| 0 <= i < index_of(s, c) ==> s[i] != c,
    decreases s.len(),
{
    if s.len() > 0 && s.first() != c {
        lemma_index_of(s.drop_first(), c);
        assert forall|i: int| 0 <= i < index_of(s, c) implies s[i] != c by {
            if i > 0 {
                assert(s.drop_first()[i - 1] == s[i]);
            }
        }
    }
}

/// `index_of` as executable code.
pub fn find(s: &[char], c: char) -> (r: usize)
    ensures
        r == index_of(s@, c),
        r <= s@.len(),
{
    let mut i: usize = 0;
    assert(s@.skip(0) =~= s@);
    while i < s.len() && s[i] != c
        invariant
            i <= s@.len(),
            index_of(s@, c) == i + index_of(s@.skip(i as int), c),
        decreases s.len() - i,
    {
        assert(s@.skip(i as int).drop_first() =~= s@.skip(i + 1));
        i = i + 1;
    }
    i
}

/// The characters of a string slice, in order.
pub fn chars_of(s: &str) -> (v: Vec<char>)
    ensures
        v@ == s@,
{
    let mut v: Vec<char> = Vec::new();
    for c in it: s.chars()
        invariant
            v@ =~= it.seq().take(it.index() as int),
            it.seq() == s@,
    {
        v.push(c);
    }
    v
}

/// Whether the characters are those of `literal`.
pub fn chars_are(s: &[char], literal: &str) -> (b: bool)
    ensures
        b == (s@ == literal@),
{
    let other = chars_of(literal);
    if s.len() != other.len() {
        return false;
    }
    let mut i: usize = 0;
    while i < s.len()
        invariant
            i <= s@.len(),
            s@.len() == other@.len(),
            other@ == literal@,
            forall|j: int| 0 <= j < i ==> s@[j] == other@[j],
        decreases s.len() - i,
    {
        if s[i] != other[i] {
            assert(s@[i as int] != literal@[i as int]);
            return false;
        }
        i = i + 1;
    }
    assert(s@ =~= literal@);
    true
}

/// Appends the characters to `out`.
pub fn push_chars(out: &mut String, s: &[char])
    ensures
        final(out)@ == old(out)@ + s@,
{
    let mut i: usize = 0;
    while i < s.len()
        invariant
            i <= s@.len(),
            out@ =~= old(out)@ + s@.take(i as int),
        decreases s.len() - i,
    {
        out.push(s[i]);
        i = i + 1;
    }
    assert(s@.take(i as int) =~= s@);
}

/// The text holds margin characters only.
pub open spec fn is_margin(s: Seq<char>, margin: Margin) -> bool {
    forall|i: int| 0 <= i < s.len() ==> margin.holds(#[trigger] s[i])
}

/// The text is empty, or neither starts nor ends with a margin character.
pub open spec fn is_core(s: Seq<char>, margin: Margin) -> bool {
    s.len() > 0 ==> !margin.holds(s.first()) && !margin.holds(s.last())
}

/// The white space of JSON is the space, the tab, the line feed and the carriage return.
pub proof fn law_json_has_four_white_spaces(c: char)
    ensures
        Margin::JsonSpace.holds(c) <==> c == ' ' || c == '\t' || c == '\n' || c == '\r',
        Margin::JsonSpace.holds(c) ==> Margin::WhiteSpace.holds(c),
{
}

/// Stripping the start of a text that is all margin leaves nothing.
proof fn lemma_strip_start_of_margin(s: Seq<char>, rest: Seq<char>, margin: Margin)
    requires
        is_margin(s, margin),
    ensures
        strip_start(s + rest, margin) == strip_start(rest, margin),
    decreases s.len(),
{
    if s.len() > 0 {
        let whole = s + rest;
        assert(margin.holds(s[0]));
        assert(whole.first() == s[0]);
        assert(whole.drop_first() =~= s.drop_first() + rest);
        assert forall|i: int| 0 <= i < s.drop_first().len() implies margin.holds(
            #[trigger] s.drop_first()[i],
        ) by {
            assert(margin.holds(s[i + 1]));
        }
        lemma_strip_start_of_margin(s.drop_first(), rest, margin);
    } else {
        assert(s + rest =~= rest);
    }
}

/// Stripping the end of a text takes a trailing margin away.
proof fn lemma_strip_end_of_margin(rest: Seq<char>, s: Seq<char>, margin: Margin)
    requires
        is_margin(s, margin),
    ensures
        strip_end(rest + s, margin) == strip_end(rest, margin),
    decreases s.len(),
{
    if s.len() > 0 {
        let whole = rest + s;
        assert(margin.holds(s[s.len() - 1]));
        assert(whole.last() == s[s.len() - 1]);
        assert(whole.drop_last() =~= rest + s.drop_last());
        assert forall|i: int| 0 <= i < s.drop_last().len() implies margin.holds(
            #[trigger] s.drop_last()[i],
        ) by {
            assert(margin.holds(s[i]));
        }
        lemma_strip_end_of_margin(rest, s.drop_last(), margin);
    } else {
        assert(rest + s =~= rest);
    }
}

/// Stripping takes away what stands around a text, all of it and nothing else.
pub proof fn law_stripping_leaves_the_core(
    before: Seq<char>,
    core: Seq<char>,
    after: Seq<char>,
    margin: Margin,
)
    requires
        is_margin(before, margin),
        is_core(core, margin),
        is_margin(after, margin),
    ensures
        strip(before + core + after, margin) == core,
{
    assert(before + core + after =~= before + (core + after));
    lemma_strip_start_of_margin(before, core + after, margin);
    if core.len() > 0 {
        assert((core + after).first() == core.first());
        assert(strip_start(core + after, margin) == core + after);
        lemma_strip_end_of_margin(core, after, margin);
    } else {
        let none = Seq::<char>::empty();
        assert(core =~= none);
        assert(core + after =~= after + none);
        lemma_strip_start_of_margin(after, none, margin);
    }
}

/// Every text is a core with margins around it.
pub proof fn lemma_parts(s: Seq<char>, margin: Margin) -> (parts: (Seq<char>, Seq<char>))
    ensures
        is_margin(parts.0, margin),
        is_core(strip(s, margin), margin),
        is_margin(parts.1, margin),
        s == parts.0 + strip(s, margin) + parts.1,
    decreases s.len(),
{
    let none = Seq::<char>::empty();
    if s.len() == 0 {
        assert(s =~= none + strip(s, margin) + none);
        (none, none)
    } else if margin.holds(s.first()) {
        let (before, after) = lemma_parts(s.drop_first(), margin);
        let longer = seq![s.first()] + before;
        let core = strip(s.drop_first(), margin);
        assert(strip(s, margin) == core);
        assert(s =~= seq![s.first()] + s.drop_first());
        assert(seq![s.first()] + (before + core + after) =~= longer + core + after);
        assert forall|i: int| 0 <= i < longer.len() implies margin.holds(#[trigger] longer[i]) by {
            if i > 0 {
                assert(margin.holds(before[i - 1]));
            }
        }
        (longer, after)
    } else if margin.holds(s.last()) {
        let shorter = s.drop_last();
        assert(shorter.len() > 0 && shorter.first() == s.first());
        let (before, after) = lemma_parts(shorter, margin);
        let longer = after.push(s.last());
        let core = strip(shorter, margin);
        assert(strip_start(s, margin) == s && strip_start(shorter, margin) == shorter);
        assert(strip(s, margin) == core);
        assert(s =~= shorter.push(s.last()));
        assert((before + core + after).push(s.last()) =~= before + core + longer);
        assert forall|i: int| 0 <= i < longer.len() implies margin.holds(#[trigger] longer[i]) by {
            if i < after.len() {
                assert(margin.holds(after[i]));
            }
        }
        (before, longer)
    } else {
        assert(s =~= none + strip(s, margin) + none);
        (none, none)
    }
}

/// The items in order, with a comma between each and the next.
pub open spec fn separated(items: Seq<Seq<char>>) -> Seq<char>
    decreases items.len(),
{
    if items.len() == 0 {
        Seq::empty()
    } else if items.len() == 1 {
        items[0]
    } else {
        items[0] + seq![','] + separated(items.drop_first())
    }
}

/// One more item is written after a comma.
pub proof fn lemma_separated_push(items: Seq<Seq<char>>, item: Seq<char>)
    requires
        items.len() > 0,
    ensures
        separated(items.push(item)) == separated(items) + seq![','] + item,
    decreases items.len(),
{
    let longer = items.push(item);
    assert(longer.drop_first() =~= items.drop_first().push(item));
    if items.len() == 1 {
        assert(longer.drop_first() =~= seq![item]);
        assert(separated(longer.drop_first()) == item);
    } else {
        lemma_separated_push(items.drop_first(), item);
        assert(separated(longer) =~= separated(items) + seq![','] + item);
    }
}

} // verus!
