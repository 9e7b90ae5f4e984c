//! The limits spec: a deliberately small JSON reader for a file the control plane writes.
//!
//! It is not a general parser, and does not pretend to be: it accepts a flat object of
//! number-or-null fields and refuses everything else, nested objects and strings among it, and what
//! is not JSON at all.
use vstd::prelude::*;
use vstd::slice::slice_subrange;

use crate::limits::{Dimension, IsolationLimits};
use crate::number::parse_json_u64;
use crate::text::{chars_are, chars_of, find, push_chars, strip_margin, Margin};

verus! {

/// Why a spec is refused.
#[verifier::ext_equal]
pub enum SpecFault {
    NotAnObject,
    NotAField { field: Seq<char> },
    NotANumber { key: Seq<char>, value: Seq<char> },
    UnknownLimit { key: Seq<char> },
    NamesNothing,
}

impl SpecFault {
    /// The fault as an operator reads it.
    pub open spec fn message(self) -> Seq<char> {
        match self {
            SpecFault::NotAnObject => "a limits spec must be a single JSON object"@,
            SpecFault::NotAField { field } => "field `"@ + field + "` is not `key: value`"@,
            SpecFault::NotANumber { key, value } => "field `"@ + key
                + "` must be an unquoted non-negative integer or null, got `"@ + value + "`"@,
            SpecFault::UnknownLimit { key } => "unknown limit `"@ + key + "`"@,
            SpecFault::NamesNothing => "a limits spec naming no dimension confines nothing"@,
        }
    }
}

/// What stands between the braces of a single object, with white space around the braces left out.
pub open spec fn object_body(text: Seq<char>) -> Option<Seq<char>> {
    let trimmed = crate::text::strip(text, Margin::JsonSpace);
    if trimmed.len() >= 2 && trimmed.first() == '{' && trimmed.last() == '}' {
        Some(trimmed.subrange(1, trimmed.len() - 1))
    } else {
        None
    }
}

/// The pieces between the commas.
pub open spec fn fields(body: Seq<char>) -> Seq<Seq<char>>
    decreases body.len(),
{
    let comma = crate::text::index_of(body, ',') as int;
    if comma >= body.len() {
        seq![body]
    } else {
        seq![body.take(comma)] + fields(body.skip(comma + 1))
    }
}

/// The dimension with a given name.
pub open spec fn dimension_named(key: Seq<char>) -> Option<Dimension> {
    if key == Dimension::Memory.key() {
        Some(Dimension::Memory)
    } else if key == Dimension::Cpu.key() {
        Some(Dimension::Cpu)
    } else if key == Dimension::OpenFiles.key() {
        Some(Dimension::OpenFiles)
    } else if key == Dimension::Processes.key() {
        Some(Dimension::Processes)
    } else if key == Dimension::FileSize.key() {
        Some(Dimension::FileSize)
    } else if key == Dimension::CoreDump.key() {
        Some(Dimension::CoreDump)
    } else {
        None
    }
}

/// A text with exactly one quote on each side.
pub open spec fn is_quoted(s: Seq<char>) -> bool {
    &&& s.len() >= 2
    &&& s.first() == '"'
    &&& s.last() == '"'
    &&& forall|i: int| 0 < i < s.len() - 1 ==> #[trigger] s[i] != '"'
}

/// What a field says: a value for a dimension, the number or null. A quoted number is not a number:
/// guessing what it meant is how a limit becomes larger than intended.
pub open spec fn read_field(field: Seq<char>) -> Result<(Dimension, Option<u64>), SpecFault> {
    let trimmed = crate::text::strip(field, Margin::JsonSpace);
    let colon = crate::text::index_of(trimmed, ':') as int;
    let name = crate::text::strip(trimmed.take(colon), Margin::JsonSpace);
    let key = name.subrange(1, name.len() - 1);
    let value = crate::text::strip(trimmed.skip(colon + 1), Margin::JsonSpace);
    if colon >= trimmed.len() || !is_quoted(name) {
        Err(SpecFault::NotAField { field: trimmed })
    } else if value != "null"@ && crate::number::read_json_u64(value) is None {
        Err(SpecFault::NotANumber { key, value })
    } else {
        match dimension_named(key) {
            None => Err(SpecFault::UnknownLimit { key }),
            Some(dimension) => Ok(
                (
                    dimension,
                    if value == "null"@ {
                        None
                    } else {
                        crate::number::read_json_u64(value)
                    },
                ),
            ),
        }
    }
}

/// The limits once every field has been read in order, a later field overriding an earlier one. The
/// first faulty field decides the fault.
pub open spec fn read_fields(fields: Seq<Seq<char>>, limits: IsolationLimits) -> Result<
    IsolationLimits,
    SpecFault,
>
    decreases fields.len(),
{
    if fields.len() == 0 {
        Ok(limits)
    } else {
        match read_field(fields.first()) {
            Err(fault) => Err(fault),
            Ok((dimension, value)) => read_fields(
                fields.drop_first(),
                limits.with(dimension, value),
            ),
        }
    }
}

/// What a spec says. One that constrains nothing is refused, be it empty or be it full of nulls that
/// make it look as if it did.
pub open spec fn read_limits(text: Seq<char>) -> Result<IsolationLimits, SpecFault> {
    match object_body(text) {
        None => Err(SpecFault::NotAnObject),
        Some(body) => if crate::text::strip(body, Margin::JsonSpace).len() == 0 {
            Err(SpecFault::NamesNothing)
        } else {
            match read_fields(fields(body), IsolationLimits::unlimited()) {
                Err(fault) => Err(fault),
                Ok(limits) => if limits.constrained().len() > 0 {
                    Ok(limits)
                } else {
                    Err(SpecFault::NamesNothing)
                },
            }
        },
    }
}

fn find_dimension(key: &[char]) -> (dimension: Option<Dimension>)
    ensures
        dimension == dimension_named(key@),
{
    if chars_are(key, Dimension::Memory.name()) {
        Some(Dimension::Memory)
    } else if chars_are(key, Dimension::Cpu.name()) {
        Some(Dimension::Cpu)
    } else if chars_are(key, Dimension::OpenFiles.name()) {
        Some(Dimension::OpenFiles)
    } else if chars_are(key, Dimension::Processes.name()) {
        Some(Dimension::Processes)
    } else if chars_are(key, Dimension::FileSize.name()) {
        Some(Dimension::FileSize)
    } else if chars_are(key, Dimension::CoreDump.name()) {
        Some(Dimension::CoreDump)
    } else {
        None
    }
}

/// `is_quoted` as executable code.
fn quoted(s: &[char]) -> (b: bool)
    ensures
        b == is_quoted(s@),
{
    let length: usize = s.len();
    if length < 2 || s[0] != '"' || s[length - 1] != '"' {
        return false;
    }
    let mut i: usize = 1;
    while i < length - 1
        invariant
            1 <= i <= length - 1,
            length == s@.len(),
            forall|j: int| 0 < j < i ==> #[trigger] s@[j] != '"',
        decreases length - i,
    {
        if s[i] == '"' {
            assert(s@[i as int] == '"');
            return false;
        }
        i = i + 1;
    }
    true
}

fn parse_field(field: &[char]) -> (r: Result<(Dimension, Option<u64>), String>)
    ensures
        match r {
            Ok(reading) => read_field(field@) == Ok::<_, SpecFault>(reading),
            Err(message) => read_field(field@) is Err && message@ == (read_field(
                field@,
            )->Err_0).message(),
        },
{
    let trimmed = strip_margin(field, Margin::JsonSpace);
    let colon = find(trimmed, ':');
    let raw_name = slice_subrange(trimmed, 0, colon);
    assert(raw_name@ =~= trimmed@.take(colon as int));
    let name = strip_margin(raw_name, Margin::JsonSpace);
    if colon >= trimmed.len() || !quoted(name) {
        let mut message = String::new();
        message.append("field `");
        push_chars(&mut message, trimmed);
        message.append("` is not `key: value`");
        assert(message@ =~= (SpecFault::NotAField { field: trimmed@ }).message());
        return Err(message);
    }
    let raw_value = slice_subrange(trimmed, colon + 1, trimmed.len());
    assert(raw_value@ =~= trimmed@.skip(colon + 1));
    let key = slice_subrange(name, 1, name.len() - 1);
    let value = strip_margin(raw_value, Margin::JsonSpace);
    let parsed = if chars_are(value, "null") {
        None
    } else {
        let number = parse_json_u64(value);
        if number.is_none() {
            let mut message = String::new();
            message.append("field `");
            push_chars(&mut message, key);
            message.append("` must be an unquoted non-negative integer or null, got `");
            push_chars(&mut message, value);
            message.append("`");
            assert(message@ =~= (SpecFault::NotANumber { key: key@, value: value@ }).message());
            return Err(message);
        }
        number
    };
    match find_dimension(key) {
        Some(dimension) => Ok((dimension, parsed)),
        None => {
            let mut message = String::new();
            message.append("unknown limit `");
            push_chars(&mut message, key);
            message.append("`");
            assert(message@ =~= (SpecFault::UnknownLimit { key: key@ }).message());
            Err(message)
        },
    }
}

fn names_nothing() -> (message: String)
    ensures
        message@ == SpecFault::NamesNothing.message(),
{
    "a limits spec naming no dimension confines nothing".to_owned()
}

/// Reads a limits spec, or says why it is refused.
pub fn parse_limits(text: &str) -> (r: Result<IsolationLimits, String>)
    ensures
        match r {
            Ok(limits) => read_limits(text@) == Ok::<_, SpecFault>(limits),
            Err(message) => read_limits(text@) is Err && message@ == (read_limits(
                text@,
            )->Err_0).message(),
        },
{
    let chars = chars_of(text);
    let trimmed = strip_margin(chars.as_slice(), Margin::JsonSpace);
    let length: usize = trimmed.len();
    if length < 2 || trimmed[0] != '{' || trimmed[length - 1] != '}' {
        return Err("a limits spec must be a single JSON object".to_owned());
    }
    let mut rest = slice_subrange(trimmed, 1, length - 1);
    let ghost body = rest@;
    if strip_margin(rest, Margin::JsonSpace).len() == 0 {
        return Err(names_nothing());
    }
    let mut limits = IsolationLimits::default();
    let mut more = true;
    while more
        invariant
            object_body(text@) == Some(body),
            crate::text::strip(body, Margin::JsonSpace).len() > 0,
            read_fields(fields(body), IsolationLimits::unlimited()) == if more {
                read_fields(fields(rest@), limits)
            } else {
                Ok(limits)
            },
        decreases
                if more {
                    rest@.len() + 1
                } else {
                    0
                },
    {
        let comma = find(rest, ',');
        let field = slice_subrange(rest, 0, comma);
        assert(field@ =~= rest@.take(comma as int));
        assert(fields(rest@).first() =~= field@);
        match parse_field(field) {
            Err(message) => {
                return Err(message);
            },
            Ok((dimension, value)) => {
                limits.set(dimension, value);
            },
        }
        if comma < rest.len() {
            let next = slice_subrange(rest, comma + 1, rest.len());
            assert(next@ =~= rest@.skip(comma + 1));
            assert(fields(rest@).drop_first() =~= fields(next@));
            rest = next;
        } else {
            assert(fields(rest@).drop_first() =~= Seq::<Seq<char>>::empty());
            assert(read_fields(Seq::empty(), limits) == Ok::<_, SpecFault>(limits));
            more = false;
        }
    }
    if limits.constrained_dimensions() == 0 {
        return Err(names_nothing());
    }
    Ok(limits)
}

/// No character that separates fields, keys or values.
pub open spec fn is_plain(s: Seq<char>) -> bool {
    forall|i: int|
        0 <= i < s.len() ==> {
            let c = #[trigger] s[i];
            c != ',' && c != ':' && c != '"' && !crate::text::is_white_space(c)
        }
}

/// The first occurrence of a character is where nothing before it is that character.
proof fn lemma_index_is(s: Seq<char>, c: char, at: int)
    requires
        0 <= at <= s.len(),
        forall|i: int| 0 <= i < at ==> s[i] != c,
        at < s.len() ==> s[at] == c,
    ensures
        crate::text::index_of(s, c) == at,
{
    crate::text::lemma_index_of(s, c);
    let found = crate::text::index_of(s, c) as int;
    if found < at {
        assert(s[found] != c);
    }
    if at < found {
        assert(s[at] != c);
    }
}

/// A text that neither starts nor ends with a margin character has no margin.
proof fn lemma_strip_is_identity(s: Seq<char>, margin: Margin)
    requires
        s.len() > 0,
        !margin.holds(s.first()),
        !margin.holds(s.last()),
    ensures
        crate::text::strip(s, margin) == s,
{
}

/// Splitting at the first comma.
proof fn lemma_fields_split(first: Seq<char>, rest: Seq<char>)
    requires
        forall|i: int| 0 <= i < first.len() ==> first[i] != ',',
    ensures
        fields(first + ","@ + rest) == seq![first] + fields(rest),
{
    reveal_strlit(",");
    let body = first + ","@ + rest;
    lemma_index_is(body, ',', first.len() as int);
    assert(body.take(first.len() as int) =~= first);
    assert(body.skip(first.len() as int + 1) =~= rest);
}

/// A text without a comma is a single field.
proof fn lemma_fields_single(only: Seq<char>)
    requires
        forall|i: int| 0 <= i < only.len() ==> only[i] != ',',
    ensures
        fields(only) == seq![only],
{
    lemma_index_is(only, ',', only.len() as int);
}

/// Keys are plain, and tell the dimensions apart.
proof fn lemma_key(dimension: Dimension)
    ensures
        is_plain(dimension.key()),
        dimension.key().len() > 0,
        dimension_named(dimension.key()) == Some(dimension),
{
    reveal_strlit("memoryBytes");
    reveal_strlit("cpuSeconds");
    reveal_strlit("openFiles");
    reveal_strlit("processes");
    reveal_strlit("fileSizeBytes");
    reveal_strlit("coreDumpBytes");
    assert("memoryBytes"@.len() == 11);
    assert("cpuSeconds"@.len() == 10);
    assert("openFiles"@.len() == 9 && "openFiles"@[0] == 'o');
    assert("processes"@.len() == 9 && "processes"@[0] == 'p');
    assert("fileSizeBytes"@.len() == 13 && "fileSizeBytes"@[0] == 'f');
    assert("coreDumpBytes"@.len() == 13 && "coreDumpBytes"@[0] == 'c');
}

/// Written values are plain, and read back as the value they were written from.
proof fn lemma_value(value: Option<u64>)
    ensures
        is_plain(crate::json::value_text(value)),
        crate::json::value_text(value).len() > 0,
        value is None ==> crate::json::value_text(value) == "null"@,
        value is Some ==> crate::json::value_text(value) != "null"@ && crate::number::read_json_u64(
            crate::json::value_text(value),
        ) == value,
{
    reveal_strlit("null");
    assert("null"@.len() == 4 && "null"@[0] == 'n');
    if value is Some {
        let text = crate::json::value_text(value);
        crate::number::lemma_decimal_is_numeral(value->0 as nat);
        crate::number::lemma_read_decimal(value->0);
        assert forall|i: int| 0 <= i < text.len() implies {
            let c = #[trigger] text[i];
            c != ',' && c != ':' && c != '"' && !crate::text::is_white_space(c)
        } by {
            assert(crate::number::is_digit(text[i]));
        }
        assert(crate::number::is_digit(text[0]));
    }
}

/// A written field reads back as the dimension and the value it was written from.
proof fn lemma_read_written_field(dimension: Dimension, value: Option<u64>)
    ensures
        read_field(crate::json::limit_text(dimension.key(), value)) == Ok::<_, SpecFault>(
            (dimension, value),
        ),
        forall|i: int|
            0 <= i < crate::json::limit_text(dimension.key(), value).len() ==> crate::json::limit_text(
                dimension.key(),
                value,
            )[i] != ',',
{
    reveal_strlit("\"");
    reveal_strlit("\":");
    lemma_key(dimension);
    lemma_value(value);
    let key = dimension.key();
    let written = crate::json::value_text(value);
    let field = crate::json::limit_text(key, value);
    let name = crate::json::quoted(key);
    let colon: int = key.len() as int + 2;
    assert(field =~= name + seq![':'] + written);
    lemma_strip_is_identity(field, Margin::JsonSpace);
    lemma_index_is(field, ':', colon);
    assert(field.take(colon) =~= name);
    assert(field.skip(colon + 1) =~= written);
    lemma_strip_is_identity(name, Margin::JsonSpace);
    lemma_strip_is_identity(written, Margin::JsonSpace);
    assert(name.subrange(1, name.len() - 1) =~= key);
    assert forall|i: int| 0 < i < name.len() - 1 implies #[trigger] name[i] != '"' by {
        assert(name[i] == key[i - 1]);
    }
}

/// Reading a list of fields whose first one is not faulty.
proof fn lemma_read_fields_step(
    field: Seq<char>,
    rest: Seq<Seq<char>>,
    limits: IsolationLimits,
    dimension: Dimension,
    value: Option<u64>,
)
    requires
        read_field(field) == Ok::<_, SpecFault>((dimension, value)),
    ensures
        read_fields(seq![field] + rest, limits) == read_fields(
            rest,
            limits.with(dimension, value),
        ),
{
    let all = seq![field] + rest;
    assert(all.first() == field);
    assert(all.drop_first() =~= rest);
}

/// Six pieces, joined from the left or from the right.
proof fn lemma_joined_pieces(
    open: Seq<char>,
    comma: Seq<char>,
    close: Seq<char>,
    m: Seq<char>,
    c: Seq<char>,
    o: Seq<char>,
    p: Seq<char>,
    f: Seq<char>,
    d: Seq<char>,
)
    ensures
        open + m + comma + c + comma + o + comma + p + comma + f + comma + d + close == open + (m
            + comma + (c + comma + (o + comma + (p + comma + (f + comma + d))))) + close,
{
    let left = open + m + comma + c + comma + o + comma + p + comma + f + comma + d + close;
    let right = open + (m + comma + (c + comma + (o + comma + (p + comma + (f + comma + d)))))
        + close;
    assert(left =~= right);
}

/// What stands between the braces of an object.
proof fn lemma_object_body(body: Seq<char>)
    ensures
        object_body("{"@ + body + "}"@) == Some(body),
{
    reveal_strlit("{");
    reveal_strlit("}");
    let text = "{"@ + body + "}"@;
    assert(text.first() == '{' && text.last() == '}');
    lemma_strip_is_identity(text, Margin::JsonSpace);
    assert(text.subrange(1, text.len() - 1) =~= body);
}

/// A list of fields that starts with a quote is not blank.
proof fn lemma_body_is_not_blank(key: Seq<char>, value: Option<u64>, rest: Seq<char>)
    ensures
        crate::text::strip(
            crate::json::limit_text(key, value) + ","@ + rest,
            Margin::JsonSpace,
        ).len() > 0,
{
    reveal_strlit("\"");
    let body = crate::json::limit_text(key, value) + ","@ + rest;
    assert(body.first() == '"');
    assert(crate::text::strip_start(body, Margin::JsonSpace) == body);
    lemma_strip_end_keeps_first(body, Margin::JsonSpace);
}

/// Stripping the end of a text whose first character is not in the margin leaves that character.
proof fn lemma_strip_end_keeps_first(s: Seq<char>, margin: Margin)
    requires
        s.len() > 0,
        !margin.holds(s.first()),
    ensures
        crate::text::strip_end(s, margin).len() > 0,
    decreases s.len(),
{
    if margin.holds(s.last()) {
        assert(s.len() > 1);
        lemma_strip_end_keeps_first(s.drop_last(), margin);
    }
}

/// Reading a spec gives back the limits it was written from, except that limits which constrain
/// nothing are refused.
pub proof fn law_written_limits_read_back(limits: IsolationLimits)
    ensures
        read_limits(crate::json::limits_text(limits)) == if limits.constrained().len() > 0 {
            Ok(limits)
        } else {
            Err(SpecFault::NamesNothing)
        },
{
    let m = crate::json::limit_text(Dimension::Memory.key(), limits.memory_bytes);
    let c = crate::json::limit_text(Dimension::Cpu.key(), limits.cpu_seconds);
    let o = crate::json::limit_text(Dimension::OpenFiles.key(), limits.open_files);
    let p = crate::json::limit_text(Dimension::Processes.key(), limits.processes);
    let f = crate::json::limit_text(Dimension::FileSize.key(), limits.file_size_bytes);
    let d = crate::json::limit_text(Dimension::CoreDump.key(), limits.core_dump_bytes);
    let from_f = f + ","@ + d;
    let from_p = p + ","@ + from_f;
    let from_o = o + ","@ + from_p;
    let from_c = c + ","@ + from_o;
    let body = m + ","@ + from_c;
    lemma_joined_pieces("{"@, ","@, "}"@, m, c, o, p, f, d);
    lemma_object_body(body);
    lemma_body_is_not_blank(Dimension::Memory.key(), limits.memory_bytes, from_c);
    lemma_read_written_field(Dimension::Memory, limits.memory_bytes);
    lemma_read_written_field(Dimension::Cpu, limits.cpu_seconds);
    lemma_read_written_field(Dimension::OpenFiles, limits.open_files);
    lemma_read_written_field(Dimension::Processes, limits.processes);
    lemma_read_written_field(Dimension::FileSize, limits.file_size_bytes);
    lemma_read_written_field(Dimension::CoreDump, limits.core_dump_bytes);
    lemma_fields_split(m, from_c);
    lemma_fields_split(c, from_o);
    lemma_fields_split(o, from_p);
    lemma_fields_split(p, from_f);
    lemma_fields_split(f, d);
    lemma_fields_single(d);
    let l0 = IsolationLimits::unlimited();
    let l1 = l0.with(Dimension::Memory, limits.memory_bytes);
    let l2 = l1.with(Dimension::Cpu, limits.cpu_seconds);
    let l3 = l2.with(Dimension::OpenFiles, limits.open_files);
    let l4 = l3.with(Dimension::Processes, limits.processes);
    let l5 = l4.with(Dimension::FileSize, limits.file_size_bytes);
    let none = Seq::<Seq<char>>::empty();
    lemma_read_fields_step(m, fields(from_c), l0, Dimension::Memory, limits.memory_bytes);
    lemma_read_fields_step(c, fields(from_o), l1, Dimension::Cpu, limits.cpu_seconds);
    lemma_read_fields_step(o, fields(from_p), l2, Dimension::OpenFiles, limits.open_files);
    lemma_read_fields_step(p, fields(from_f), l3, Dimension::Processes, limits.processes);
    lemma_read_fields_step(f, fields(d), l4, Dimension::FileSize, limits.file_size_bytes);
    lemma_read_fields_step(d, none, l5, Dimension::CoreDump, limits.core_dump_bytes);
    assert(seq![d] + none =~= seq![d]);
}

/// The field sets the dimension.
pub open spec fn names(field: Seq<char>, dimension: Dimension) -> bool {
    read_field(field) matches Ok((d, _)) && d == dimension
}

/// The value a field sets its dimension to.
pub open spec fn value_set(field: Seq<char>) -> Option<u64> {
    match read_field(field) {
        Ok((_, value)) => value,
        Err(_) => None,
    }
}

/// The field is the last one that sets its dimension, and sets it to a number.
pub open spec fn constrains(list: Seq<Seq<char>>, i: int, dimension: Dimension) -> bool {
    &&& names(list[i], dimension)
    &&& value_set(list[i]) is Some
    &&& forall|j: int| i < j < list.len() ==> !names(#[trigger] list[j], dimension)
}

/// When reading a list of fields succeeds.
proof fn lemma_read_fields_succeeds(list: Seq<Seq<char>>, limits: IsolationLimits)
    ensures
        read_fields(list, limits) is Ok <==> forall|i: int|
            0 <= i < list.len() ==> (#[trigger] read_field(list[i])) is Ok,
    decreases list.len(),
{
    if list.len() > 0 && read_field(list[0]) is Ok {
        let rest = list.drop_first();
        let (dimension, value) = read_field(list[0])->Ok_0;
        lemma_read_fields_succeeds(rest, limits.with(dimension, value));
        if forall|i: int| 0 <= i < list.len() ==> (#[trigger] read_field(list[i])) is Ok {
            assert forall|i: int| 0 <= i < rest.len() implies (#[trigger] read_field(
                rest[i],
            )) is Ok by {
                assert(rest[i] == list[i + 1]);
                assert(read_field(list[i + 1]) is Ok);
            }
        }
        if forall|i: int| 0 <= i < rest.len() ==> (#[trigger] read_field(rest[i])) is Ok {
            assert forall|i: int| 0 <= i < list.len() implies (#[trigger] read_field(
                list[i],
            )) is Ok by {
                if i > 0 {
                    assert(list[i] == rest[i - 1]);
                    assert(read_field(rest[i - 1]) is Ok);
                }
            }
        }
    } else if list.len() > 0 {
        assert(!(read_field(list[0]) is Ok));
    }
}

/// After reading a list of fields, a dimension has the value of the last field that names it, or
/// the one it had before if none does.
proof fn lemma_last_field_decides(
    list: Seq<Seq<char>>,
    limits: IsolationLimits,
    dimension: Dimension,
    last: int,
)
    requires
        read_fields(list, limits) is Ok,
        -1 <= last < list.len(),
        last >= 0 ==> names(list[last], dimension),
        forall|j: int| last < j < list.len() ==> !names(#[trigger] list[j], dimension),
    ensures
        (read_fields(list, limits)->Ok_0).at(dimension) == (if last >= 0 {
            value_set(list[last])
        } else {
            limits.at(dimension)
        }),
    decreases list.len(),
{
    if list.len() > 0 {
        let rest = list.drop_first();
        let (d, value) = read_field(list[0])->Ok_0;
        let next = limits.with(d, value);
        assert(read_fields(list, limits) == read_fields(rest, next));
        assert forall|j: int| last - 1 < j < rest.len() && 0 <= j implies !names(
            #[trigger] rest[j],
            dimension,
        ) by {
            assert(rest[j] == list[j + 1]);
        }
        if last >= 1 {
            assert(rest[last - 1] == list[last]);
            lemma_last_field_decides(rest, next, dimension, last - 1);
        } else {
            lemma_last_field_decides(rest, next, dimension, -1);
            if last == -1 {
                assert(!names(list[0], dimension));
            }
        }
    }
}

/// The last field that names a dimension, or -1.
proof fn lemma_last_field(list: Seq<Seq<char>>, dimension: Dimension) -> (last: int)
    ensures
        -1 <= last < list.len(),
        last >= 0 ==> names(list[last], dimension),
        forall|j: int| last < j < list.len() ==> !names(#[trigger] list[j], dimension),
    decreases list.len(),
{
    if list.len() == 0 {
        -1
    } else if names(list.last(), dimension) {
        list.len() - 1
    } else {
        let last = lemma_last_field(list.drop_last(), dimension);
        assert forall|j: int| last < j < list.len() implies !names(
            #[trigger] list[j],
            dimension,
        ) by {
            if j < list.len() - 1 {
                assert(list.drop_last()[j] == list[j]);
            }
        }
        last
    }
}

/// Nothing in a spec is ignored: a spec is accepted exactly when it is a single object, each of its
/// fields sets a known dimension to a number or to null, and some dimension is left with a number.
pub proof fn law_nothing_in_a_spec_is_ignored(text: Seq<char>)
    ensures
        read_limits(text) is Ok <==> {
            &&& object_body(text) is Some
            &&& forall|i: int|
                0 <= i < fields(object_body(text)->0).len() ==> (#[trigger] read_field(
                    fields(object_body(text)->0)[i],
                )) is Ok
            &&& exists|i: int, d: Dimension|
                0 <= i < fields(object_body(text)->0).len() && #[trigger] constrains(
                    fields(object_body(text)->0),
                    i,
                    d,
                )
        },
{
    if object_body(text) is Some {
        let body = object_body(text)->0;
        let list = fields(body);
        lemma_read_fields_succeeds(list, IsolationLimits::unlimited());
        let read = read_fields(list, IsolationLimits::unlimited());
        if read is Ok {
            let limits = read->Ok_0;
            crate::limits::law_constraining_nothing_is_being_unlimited(limits);
            if crate::text::strip(body, Margin::JsonSpace).len() == 0 {
                lemma_blank_body_is_faulty(body);
                assert(read_field(list[0]) is Err);
            }
            if limits.constrained().len() > 0 {
                if forall|d: Dimension| (#[trigger] limits.at(d)) is None {
                    crate::limits::lemma_limits_are_their_dimensions(
                        limits,
                        IsolationLimits::unlimited(),
                    );
                }
                let d = choose|d: Dimension| (#[trigger] limits.at(d)) is Some;
                let last = lemma_last_field(list, d);
                lemma_last_field_decides(list, IsolationLimits::unlimited(), d, last);
                assert(constrains(list, last, d));
            }
            if exists|i: int, d: Dimension|
                0 <= i < list.len() && #[trigger] constrains(list, i, d) {
                let (i, d) = choose|i: int, d: Dimension|
                    0 <= i < list.len() && #[trigger] constrains(list, i, d);
                lemma_last_field_decides(list, IsolationLimits::unlimited(), d, i);
                assert(limits.at(d) is Some);
            }
        }
    }
}

/// Between braces with nothing but white space there is one field, and it is faulty.
proof fn lemma_blank_body_is_faulty(body: Seq<char>)
    requires
        crate::text::strip(body, Margin::JsonSpace).len() == 0,
    ensures
        fields(body).len() > 0,
        read_field(fields(body)[0]) is Err,
{
    crate::text::lemma_index_of(body, ',');
    let comma = crate::text::index_of(body, ',') as int;
    lemma_blank_text(body, Margin::JsonSpace);
    if comma < body.len() {
        assert(Margin::JsonSpace.holds(body[comma]));
    }
    assert(fields(body)[0] == body);
}

/// A text that is stripped to nothing holds margin characters only.
proof fn lemma_blank_text(s: Seq<char>, margin: Margin)
    requires
        crate::text::strip(s, margin).len() == 0,
    ensures
        forall|i: int| 0 <= i < s.len() ==> margin.holds(#[trigger] s[i]),
    decreases s.len(),
{
    if s.len() > 0 {
        if !margin.holds(s.first()) {
            lemma_strip_end_keeps_first(s, margin);
        } else {
            lemma_blank_text(s.drop_first(), margin);
            assert forall|i: int| 0 <= i < s.len() implies margin.holds(#[trigger] s[i]) by {
                if i > 0 {
                    assert(s.drop_first()[i - 1] == s[i]);
                }
            }
        }
    }
}

/// An accepted spec constrains something.
pub proof fn law_an_accepted_spec_constrains_something(text: Seq<char>)
    requires
        read_limits(text) is Ok,
    ensures
        (read_limits(text)->Ok_0).constrained().len() > 0,
        read_limits(text)->Ok_0 != IsolationLimits::unlimited(),
{
    crate::limits::law_constraining_nothing_is_being_unlimited(read_limits(text)->Ok_0);
}

/// In an accepted spec, a dimension has the value of the last field that names it.
pub proof fn law_the_last_field_decides(text: Seq<char>, dimension: Dimension, last: int)
    requires
        read_limits(text) is Ok,
        0 <= last < fields(object_body(text)->0).len(),
        names(fields(object_body(text)->0)[last], dimension),
        forall|j: int|
            last < j < fields(object_body(text)->0).len() ==> !names(
                #[trigger] fields(object_body(text)->0)[j],
                dimension,
            ),
    ensures
        (read_limits(text)->Ok_0).at(dimension) == value_set(fields(object_body(text)->0)[last]),
{
    lemma_last_field_decides(
        fields(object_body(text)->0),
        IsolationLimits::unlimited(),
        dimension,
        last,
    );
}

/// In an accepted spec, a dimension that no field names is not limited.
pub proof fn law_an_unnamed_dimension_is_unlimited(text: Seq<char>, dimension: Dimension)
    requires
        read_limits(text) is Ok,
        forall|j: int|
            0 <= j < fields(object_body(text)->0).len() ==> !names(
                #[trigger] fields(object_body(text)->0)[j],
                dimension,
            ),
    ensures
        (read_limits(text)->Ok_0).at(dimension) is None,
{
    lemma_last_field_decides(
        fields(object_body(text)->0),
        IsolationLimits::unlimited(),
        dimension,
        -1,
    );
}

/// White space as JSON has it, and nothing else.
pub open spec fn is_blank(s: Seq<char>) -> bool {
    forall|i: int|
        0 <= i < s.len() ==> {
            let c = #[trigger] s[i];
            c == ' ' || c == '\t' || c == '\n' || c == '\r'
        }
}

/// A text that white space neither starts nor ends.
pub open spec fn is_tight(s: Seq<char>) -> bool {
    s.len() > 0 ==> !is_blank(seq![s.first()]) && !is_blank(seq![s.last()])
}

proof fn lemma_blank(s: Seq<char>)
    ensures
        is_blank(s) <==> crate::text::is_margin(s, Margin::JsonSpace),
        is_tight(s) <==> crate::text::is_core(s, Margin::JsonSpace),
{
    let m = Margin::JsonSpace;
    if is_blank(s) {
        assert forall|i: int| 0 <= i < s.len() implies m.holds(#[trigger] s[i]) by {}
    }
    if crate::text::is_margin(s, m) {
        assert forall|i: int| 0 <= i < s.len() implies ({
            let c = #[trigger] s[i];
            c == ' ' || c == '\t' || c == '\n' || c == '\r'
        }) by {
            assert(m.holds(s[i]));
        }
    }
    if s.len() > 0 {
        let first = seq![s.first()];
        let last = seq![s.last()];
        if m.holds(s.first()) {
            assert(is_blank(first));
        } else {
            assert(first[0] == s.first());
        }
        if m.holds(s.last()) {
            assert(is_blank(last));
        } else {
            assert(last[0] == s.last());
        }
    }
}

/// A key in quotes, a colon and a value, with white space `a`, `b`, `c` and `e` around them.
pub open spec fn field_text(
    a: Seq<char>,
    key: Seq<char>,
    b: Seq<char>,
    c: Seq<char>,
    value: Seq<char>,
    e: Seq<char>,
) -> Seq<char> {
    a + seq!['"'] + key + seq!['"'] + b + seq![':'] + c + value + e
}

/// The parts of a field are what they should be: white space between, no quote and no colon in the
/// key, and no white space at the ends of the value.
pub open spec fn are_parts(
    a: Seq<char>,
    key: Seq<char>,
    b: Seq<char>,
    c: Seq<char>,
    value: Seq<char>,
    e: Seq<char>,
) -> bool {
    &&& is_blank(a) && is_blank(b) && is_blank(c) && is_blank(e)
    &&& forall|i: int| 0 <= i < key.len() ==> #[trigger] key[i] != '"' && key[i] != ':'
    &&& is_tight(value)
}

/// What the parts of a field are read as.
proof fn lemma_field_parts(
    a: Seq<char>,
    key: Seq<char>,
    b: Seq<char>,
    c: Seq<char>,
    value: Seq<char>,
    e: Seq<char>,
)
    requires
        are_parts(a, key, b, c, value, e),
    ensures
        ({
            let trimmed = crate::text::strip(field_text(a, key, b, c, value, e), Margin::JsonSpace);
            let colon = crate::text::index_of(trimmed, ':') as int;
            let name = crate::text::strip(trimmed.take(colon), Margin::JsonSpace);
            &&& colon < trimmed.len()
            &&& is_quoted(name)
            &&& name.subrange(1, name.len() - 1) == key
            &&& crate::text::strip(trimmed.skip(colon + 1), Margin::JsonSpace) == value
        }),
{
    let m = Margin::JsonSpace;
    let none = Seq::<char>::empty();
    let name = seq!['"'] + key + seq!['"'];
    let colon: int = name.len() as int + b.len();
    lemma_blank(a);
    lemma_blank(b);
    lemma_blank(c);
    lemma_blank(e);
    lemma_blank(value);
    let (core, after, inner) = if value.len() > 0 {
        (name + b + seq![':'] + c + value, e, c)
    } else {
        (name + b + seq![':'], c + e, none)
    };
    assert(value.len() == 0 ==> value =~= none);
    assert(field_text(a, key, b, c, value, e) =~= a + core + after);
    assert forall|i: int| 0 <= i < after.len() implies m.holds(#[trigger] after[i]) by {
        if value.len() == 0 {
            if i < c.len() {
                assert(m.holds(c[i]));
            } else {
                assert(m.holds(e[i - c.len()]));
            }
        }
    }
    assert(core.first() == '"');
    assert(value.len() > 0 ==> core.last() == value.last());
    assert(value.len() == 0 ==> core.last() == ':');
    crate::text::law_stripping_leaves_the_core(a, core, after, m);
    assert forall|i: int| 0 <= i < colon implies core[i] != ':' by {
        if 1 <= i < 1 + key.len() {
            assert(core[i] == key[i - 1]);
        } else if i >= name.len() {
            assert(core[i] == b[i - name.len()]);
            assert(m.holds(b[i - name.len()]));
        }
    }
    assert(core[colon] == ':');
    lemma_index_is(core, ':', colon);
    assert(core.take(colon) =~= none + name + b);
    crate::text::law_stripping_leaves_the_core(none, name, b, m);
    assert(core.skip(colon + 1) =~= inner + value + none);
    crate::text::law_stripping_leaves_the_core(inner, value, none, m);
    assert(name.subrange(1, name.len() - 1) =~= key);
    assert forall|i: int| 0 < i < name.len() - 1 implies #[trigger] name[i] != '"' by {
        assert(name[i] == key[i - 1]);
    }
}

/// The text is `null`, or the numeral of a number of 64 bits.
pub open spec fn is_number_or_null(value: Seq<char>) -> bool {
    value == "null"@ || exists|n: u64| value == #[trigger] crate::number::decimal(n as nat)
}

/// A text is a number in JSON exactly when it is a numeral.
proof fn lemma_number_or_null(value: Seq<char>)
    ensures
        is_number_or_null(value) <==> value == "null"@ || crate::number::read_json_u64(value) is Some,
        crate::number::read_json_u64("null"@) is None,
{
    reveal_strlit("null");
    if crate::number::read_json_u64(value) is Some {
        let n = crate::number::read_json_u64(value)->0;
        crate::number::law_a_json_number_is_its_numeral(value, n);
    }
    if exists|n: u64| value == #[trigger] crate::number::decimal(n as nat) {
        let n = choose|n: u64| value == #[trigger] crate::number::decimal(n as nat);
        crate::number::law_a_json_number_is_its_numeral(value, n);
    }
    assert("null"@[0] == 'n');
    if crate::number::is_numeral("null"@) {
        assert(crate::number::is_digit("null"@[0]));
    }
}

/// A field says what stands in it, whatever white space is around: the dimension that its key names
/// gets its number, or no limit from `null`. A value that is neither is a fault, and so is a key that
/// names no dimension.
pub proof fn law_a_field_says_what_stands_in_it(
    a: Seq<char>,
    key: Seq<char>,
    b: Seq<char>,
    c: Seq<char>,
    value: Seq<char>,
    e: Seq<char>,
    n: u64,
)
    requires
        are_parts(a, key, b, c, value, e),
    ensures
        ({
            let read = read_field(field_text(a, key, b, c, value, e));
            let dimension = if key == "memoryBytes"@ {
                Some(Dimension::Memory)
            } else if key == "cpuSeconds"@ {
                Some(Dimension::Cpu)
            } else if key == "openFiles"@ {
                Some(Dimension::OpenFiles)
            } else if key == "processes"@ {
                Some(Dimension::Processes)
            } else if key == "fileSizeBytes"@ {
                Some(Dimension::FileSize)
            } else if key == "coreDumpBytes"@ {
                Some(Dimension::CoreDump)
            } else {
                None
            };
            &&& !is_number_or_null(value) ==> read == Err::<(Dimension, Option<u64>), _>(
                SpecFault::NotANumber { key, value },
            )
            &&& is_number_or_null(value) && dimension is None ==> read == Err::<
                (Dimension, Option<u64>),
                _,
            >(SpecFault::UnknownLimit { key })
            &&& value == crate::number::decimal(n as nat) && dimension is Some ==> read == Ok::<
                _,
                SpecFault,
            >((dimension->0, Some(n)))
            &&& value == "null"@ && dimension is Some ==> read == Ok::<_, SpecFault>(
                (dimension->0, None::<u64>),
            )
        }),
{
    lemma_field_parts(a, key, b, c, value, e);
    lemma_number_or_null(value);
    crate::number::law_a_json_number_is_its_numeral(value, n);
}

/// White space does not change what a field says: a dimension's key, a colon and a written value
/// read as that dimension and that value, with any white space around each of them.
pub proof fn law_white_space_changes_nothing(
    a: Seq<char>,
    b: Seq<char>,
    c: Seq<char>,
    e: Seq<char>,
    dimension: Dimension,
    value: Option<u64>,
)
    requires
        is_blank(a),
        is_blank(b),
        is_blank(c),
        is_blank(e),
    ensures
        read_field(
            a + crate::json::quoted(dimension.key()) + b + seq![':'] + c + crate::json::value_text(
                value,
            ) + e,
        ) == Ok::<_, SpecFault>((dimension, value)),
{
    reveal_strlit("\"");
    let key = dimension.key();
    let written = crate::json::value_text(value);
    lemma_key(dimension);
    lemma_value(value);
    assert forall|i: int| 0 <= i < key.len() implies #[trigger] key[i] != '"' && key[i] != ':' by {}
    lemma_blank(written);
    assert(!crate::text::is_white_space(written[0]));
    assert(!crate::text::is_white_space(written[written.len() - 1]));
    assert(a + crate::json::quoted(key) + b + seq![':'] + c + written + e =~= field_text(
        a,
        key,
        b,
        c,
        written,
        e,
    ));
    let n = match value {
        Some(n) => n,
        None => 0,
    };
    law_a_field_says_what_stands_in_it(a, key, b, c, written, e, n);
    lemma_dimension_of_key(dimension);
}

/// The key of a dimension names it.
proof fn lemma_dimension_of_key(dimension: Dimension)
    ensures
        dimension_named(dimension.key()) == Some(dimension),
{
    lemma_key(dimension);
}

/// What is read as more than a faulty field has the parts of one.
proof fn lemma_parts_of_field(field: Seq<char>) -> (parts: (
    Seq<char>,
    Seq<char>,
    Seq<char>,
    Seq<char>,
    Seq<char>,
    Seq<char>,
))
    requires
        !(read_field(field) matches Err(SpecFault::NotAField { .. })),
    ensures
        are_parts(parts.0, parts.1, parts.2, parts.3, parts.4, parts.5),
        field == field_text(parts.0, parts.1, parts.2, parts.3, parts.4, parts.5),
{
    let m = Margin::JsonSpace;
    let (a, e1) = crate::text::lemma_parts(field, m);
    let trimmed = crate::text::strip(field, m);
    crate::text::lemma_index_of(trimmed, ':');
    let colon = crate::text::index_of(trimmed, ':') as int;
    let head = trimmed.take(colon);
    let (a2, b) = crate::text::lemma_parts(head, m);
    let name = crate::text::strip(head, m);
    let key = name.subrange(1, name.len() - 1);
    let tail = trimmed.skip(colon + 1);
    let (c, e2) = crate::text::lemma_parts(tail, m);
    let value = crate::text::strip(tail, m);
    let e = e2 + e1;
    if a2.len() > 0 {
        assert(head[0] == a2[0]);
        assert(m.holds(a2[0]));
        assert(trimmed.first() == head[0]);
    }
    assert(a2 =~= Seq::<char>::empty());
    assert(name =~= seq!['"'] + key + seq!['"']);
    assert(head =~= name + b);
    assert(trimmed =~= head + seq![':'] + tail);
    assert(field =~= field_text(a, key, b, c, value, e));
    assert forall|i: int| 0 <= i < key.len() implies #[trigger] key[i] != '"' && key[i] != ':' by {
        assert(key[i] == name[i + 1]);
        assert(name[i + 1] == head[i + 1]);
        assert(head[i + 1] == trimmed[i + 1]);
    }
    assert forall|i: int| 0 <= i < e.len() implies m.holds(#[trigger] e[i]) by {
        if i < e2.len() {
            assert(m.holds(e2[i]));
        } else {
            assert(m.holds(e1[i - e2.len()]));
        }
    }
    lemma_blank(a);
    lemma_blank(b);
    lemma_blank(c);
    lemma_blank(e);
    lemma_blank(value);
    (a, key, b, c, value, e)
}

/// Nothing else is a field: what has not the parts of one is refused as none, and the fault holds
/// it without the white space around it.
pub proof fn law_nothing_else_is_a_field(before: Seq<char>, core: Seq<char>, after: Seq<char>)
    requires
        is_blank(before),
        is_tight(core),
        is_blank(after),
    ensures
        (forall|
            a: Seq<char>,
            key: Seq<char>,
            b: Seq<char>,
            c: Seq<char>,
            value: Seq<char>,
            e: Seq<char>,
        |
            #[trigger] are_parts(a, key, b, c, value, e) ==> before + core + after != field_text(
                a,
                key,
                b,
                c,
                value,
                e,
            )) ==> read_field(before + core + after) == Err::<(Dimension, Option<u64>), _>(
            SpecFault::NotAField { field: core },
        ),
{
    let field = before + core + after;
    lemma_blank(before);
    lemma_blank(core);
    lemma_blank(after);
    crate::text::law_stripping_leaves_the_core(before, core, after, Margin::JsonSpace);
    if !(read_field(field) matches Err(SpecFault::NotAField { .. })) {
        let (a, key, b, c, value, e) = lemma_parts_of_field(field);
        assert(are_parts(a, key, b, c, value, e));
    }
}

/// The fields of a body are the pieces between its commas: there is at least one, none holds a
/// comma, and joined by commas they give the body back.
pub proof fn law_fields_are_what_commas_separate(body: Seq<char>)
    ensures
        fields(body).len() > 0,
        forall|i: int, j: int|
            0 <= i < fields(body).len() && 0 <= j < fields(body)[i].len()
                ==> #[trigger] fields(body)[i][j] != ',',
        crate::text::separated(fields(body)) == body,
    decreases body.len(),
{
    crate::text::lemma_index_of(body, ',');
    let comma = crate::text::index_of(body, ',') as int;
    if comma < body.len() {
        let rest = body.skip(comma + 1);
        law_fields_are_what_commas_separate(rest);
        let list = fields(body);
        assert(list.drop_first() =~= fields(rest));
        assert(list[0] == body.take(comma));
        assert(body =~= body.take(comma) + seq![','] + rest);
        assert forall|i: int, j: int| 0 <= i < list.len() && 0 <= j < list[i].len() implies
            #[trigger] list[i][j] != ',' by {
            if i > 0 {
                assert(list[i] == fields(rest)[i - 1]);
                assert(fields(rest)[i - 1][j] != ',');
            }
        }
    }
}

/// Pieces without commas, joined by commas, are the fields of what they make up.
pub proof fn law_joined_pieces_are_the_fields(pieces: Seq<Seq<char>>)
    requires
        pieces.len() > 0,
        forall|i: int, j: int|
            0 <= i < pieces.len() && 0 <= j < pieces[i].len() ==> #[trigger] pieces[i][j] != ',',
    ensures
        fields(crate::text::separated(pieces)) == pieces,
    decreases pieces.len(),
{
    reveal_strlit(",");
    let first = pieces[0];
    assert forall|i: int| 0 <= i < first.len() implies first[i] != ',' by {
        assert(pieces[0][i] != ',');
    }
    if pieces.len() == 1 {
        lemma_fields_single(first);
        assert(seq![first] =~= pieces);
    } else {
        let rest = pieces.drop_first();
        assert forall|i: int, j: int| 0 <= i < rest.len() && 0 <= j < rest[i].len() implies
            #[trigger] rest[i][j] != ',' by {
            assert(pieces[i + 1][j] != ',');
        }
        law_joined_pieces_are_the_fields(rest);
        assert(","@ =~= seq![',']);
        lemma_fields_split(first, crate::text::separated(rest));
        assert(seq![first] + rest =~= pieces);
    }
}

/// A spec is an object exactly when, white space aside, it stands between braces, and the body is
/// what stands between them.
pub proof fn law_an_object_stands_between_braces(
    before: Seq<char>,
    core: Seq<char>,
    after: Seq<char>,
    body: Seq<char>,
)
    requires
        is_blank(before),
        is_tight(core),
        is_blank(after),
    ensures
        object_body(before + core + after) == Some(body) <==> core == seq!['{'] + body + seq!['}'],
{
    lemma_blank(before);
    lemma_blank(core);
    lemma_blank(after);
    crate::text::law_stripping_leaves_the_core(before, core, after, Margin::JsonSpace);
    if core == seq!['{'] + body + seq!['}'] {
        assert(core.subrange(1, core.len() - 1) =~= body);
    }
    if object_body(before + core + after) == Some(body) {
        assert(core =~= seq!['{'] + body + seq!['}']);
    }
}

/// Which fault is reported. What is no object is refused as none; braces with nothing between them
/// name nothing; otherwise the first faulty field decides, wherever it stands; and a spec without
/// faults that leaves every dimension without a number names nothing.
pub proof fn law_the_first_fault_is_reported(text: Seq<char>, i: int)
    ensures
        object_body(text) is None <==> read_limits(text) == Err::<IsolationLimits, _>(
            SpecFault::NotAnObject,
        ),
        object_body(text) is Some && is_blank(object_body(text)->0) ==> read_limits(text) == Err::<
            IsolationLimits,
            _,
        >(SpecFault::NamesNothing),
        ({
            let body = object_body(text)->0;
            object_body(text) is Some && !is_blank(body) && 0 <= i < fields(body).len() && read_field(
                fields(body)[i],
            ) is Err && (forall|j: int|
                0 <= j < i ==> (#[trigger] read_field(fields(body)[j])) is Ok) ==> read_limits(text)
                == Err::<IsolationLimits, _>(read_field(fields(body)[i])->Err_0)
        }),
        ({
            let body = object_body(text)->0;
            object_body(text) is Some && (forall|j: int|
                0 <= j < fields(body).len() ==> (#[trigger] read_field(fields(body)[j])) is Ok)
                && read_limits(text) is Err ==> read_limits(text) == Err::<IsolationLimits, _>(
                SpecFault::NamesNothing,
            )
        }),
{
    if object_body(text) is Some {
        let body = object_body(text)->0;
        let list = fields(body);
        let m = Margin::JsonSpace;
        lemma_blank(body);
        let (before, after) = crate::text::lemma_parts(body, m);
        if is_blank(body) {
            let none = Seq::<char>::empty();
            assert(none + none + body =~= body);
            crate::text::law_stripping_leaves_the_core(none, none, body, m);
        } else if crate::text::strip(body, m).len() == 0 {
            lemma_blank_text(body, m);
        }
        if 0 <= i < list.len() && read_field(list[i]) is Err && (forall|j: int|
            0 <= j < i ==> (#[trigger] read_field(list[j])) is Ok) {
            lemma_first_fault(list, IsolationLimits::unlimited(), i);
        }
        lemma_read_fields_succeeds(list, IsolationLimits::unlimited());
        lemma_no_field_is_no_object(list, IsolationLimits::unlimited());
    }
}

/// Reading fields never finds that there is no object.
proof fn lemma_no_field_is_no_object(list: Seq<Seq<char>>, limits: IsolationLimits)
    ensures
        read_fields(list, limits) matches Err(fault) ==> !(fault is NotAnObject),
    decreases list.len(),
{
    if list.len() > 0 && read_field(list[0]) is Ok {
        let (dimension, value) = read_field(list[0])->Ok_0;
        lemma_no_field_is_no_object(list.drop_first(), limits.with(dimension, value));
    }
}

/// The first faulty field of a list decides.
proof fn lemma_first_fault(list: Seq<Seq<char>>, limits: IsolationLimits, i: int)
    requires
        0 <= i < list.len(),
        read_field(list[i]) is Err,
        forall|j: int| 0 <= j < i ==> (#[trigger] read_field(list[j])) is Ok,
    ensures
        read_fields(list, limits) == Err::<IsolationLimits, _>(read_field(list[i])->Err_0),
    decreases list.len(),
{
    if i > 0 {
        let rest = list.drop_first();
        assert(read_field(list[0]) is Ok);
        let (dimension, value) = read_field(list[0])->Ok_0;
        assert forall|j: int| 0 <= j < i - 1 implies (#[trigger] read_field(rest[j])) is Ok by {
            assert(read_field(list[j + 1]) is Ok);
        }
        lemma_first_fault(rest, limits.with(dimension, value), i - 1);
    }
}

/// The messages, which hold what is at fault word for word.
pub proof fn law_a_message_holds_what_is_at_fault(key: Seq<char>, value: Seq<char>)
    ensures
        SpecFault::NotAnObject.message() == "a limits spec must be a single JSON object"@,
        (SpecFault::NotAField { field: value }).message() == "field `"@ + value
            + "` is not `key: value`"@,
        (SpecFault::NotANumber { key, value }).message() == "field `"@ + key
            + "` must be an unquoted non-negative integer or null, got `"@ + value + "`"@,
        (SpecFault::UnknownLimit { key }).message() == "unknown limit `"@ + key + "`"@,
        SpecFault::NamesNothing.message() == "a limits spec naming no dimension confines nothing"@,
{
}

} // verus!
