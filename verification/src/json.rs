//! The reports, one JSON object per line.
use vstd::prelude::*;

use crate::applied::{AppliedIsolation, IsolationFailure};
use crate::limits::{Dimension, IsolationLimits};
use crate::number::{push_decimal, push_signed};
use crate::support::IsolationSupport;
use crate::text::chars_of;

verus! {

/// The character for a hexadecimal digit.
pub open spec fn hex_char(d: nat) -> char {
    if d < 10 {
        (48 + d) as char
    } else {
        (87 + d) as char
    }
}

/// A character as it stands inside a JSON string.
pub open spec fn escaped_char(c: char) -> Seq<char> {
    if c == '"' {
        seq!['\\', '"']
    } else if c == '\\' {
        seq!['\\', '\\']
    } else if c == '\n' {
        seq!['\\', 'n']
    } else if c == '\r' {
        seq!['\\', 'r']
    } else if c == '\t' {
        seq!['\\', 't']
    } else if (c as nat) < 0x20 {
        seq!['\\', 'u', '0', '0', hex_char(c as nat / 16), hex_char(c as nat % 16)]
    } else {
        seq![c]
    }
}

/// A text as it stands inside a JSON string.
pub open spec fn escaped(s: Seq<char>) -> Seq<char>
    decreases s.len(),
{
    if s.len() == 0 {
        Seq::empty()
    } else {
        escaped(s.drop_last()) + escaped_char(s.last())
    }
}

fn hex_digit(d: u8) -> (c: char)
    requires
        d < 16,
    ensures
        c == hex_char(d as nat),
{
    if d < 10 {
        (48 + d) as char
    } else {
        (87 + d) as char
    }
}

/// Appends a character to `out` as it stands inside a JSON string.
pub fn push_escaped(out: &mut String, c: char)
    ensures
        final(out)@ == old(out)@ + escaped_char(c),
{
    if c == '"' {
        out.push('\\');
        out.push('"');
    } else if c == '\\' {
        out.push('\\');
        out.push('\\');
    } else if c == '\n' {
        out.push('\\');
        out.push('n');
    } else if c == '\r' {
        out.push('\\');
        out.push('r');
    } else if c == '\t' {
        out.push('\\');
        out.push('t');
    } else if (c as u32) < 0x20 {
        let code: u8 = c as u8;
        out.push('\\');
        out.push('u');
        out.push('0');
        out.push('0');
        out.push(hex_digit(code / 16));
        out.push(hex_digit(code % 16));
    } else {
        out.push(c);
    }
    assert(out@ =~= old(out)@ + escaped_char(c));
}

/// Escapes a text for use inside a JSON string.
pub fn escape(value: &str) -> (out: String)
    ensures
        out@ == escaped(value@),
{
    let chars = chars_of(value);
    let mut out = String::new();
    let mut i: usize = 0;
    while i < chars.len()
        invariant
            i <= chars@.len(),
            chars@ == value@,
            out@ == escaped(chars@.take(i as int)),
        decreases chars.len() - i,
    {
        push_escaped(&mut out, chars[i]);
        assert(chars@.take(i + 1).drop_last() =~= chars@.take(i as int));
        i = i + 1;
    }
    assert(chars@.take(i as int) =~= chars@);
    out
}

/// `true` or `false`.
pub open spec fn bool_text(b: bool) -> Seq<char> {
    if b {
        "true"@
    } else {
        "false"@
    }
}

/// A limit's value: a number, or `null` when there is none.
pub open spec fn value_text(value: Option<u64>) -> Seq<char> {
    match value {
        Some(number) => crate::number::decimal(number as nat),
        None => "null"@,
    }
}

/// A limit as a field of an object.
pub open spec fn limit_text(name: Seq<char>, value: Option<u64>) -> Seq<char> {
    "\""@ + name + "\":"@ + value_text(value)
}

/// The limits as an object, with every dimension in order.
pub open spec fn limits_text(limits: IsolationLimits) -> Seq<char> {
    "{"@ + limit_text(Dimension::Memory.key(), limits.memory_bytes) + ","@ + limit_text(
        Dimension::Cpu.key(),
        limits.cpu_seconds,
    ) + ","@ + limit_text(Dimension::OpenFiles.key(), limits.open_files) + ","@ + limit_text(
        Dimension::Processes.key(),
        limits.processes,
    ) + ","@ + limit_text(Dimension::FileSize.key(), limits.file_size_bytes) + ","@ + limit_text(
        Dimension::CoreDump.key(),
        limits.core_dump_bytes,
    ) + "}"@
}

/// The items, separated by commas.
pub open spec fn joined(items: Seq<Seq<char>>) -> Seq<char>
    decreases items.len(),
{
    if items.len() == 0 {
        Seq::empty()
    } else if items.len() == 1 {
        items[0]
    } else {
        joined(items.drop_last()) + ","@ + items.last()
    }
}

/// A name in quotes.
pub open spec fn quoted(name: Seq<char>) -> Seq<char> {
    "\""@ + name + "\""@
}

/// A failure as an object.
pub open spec fn failure_text(failure: (Seq<char>, i32)) -> Seq<char> {
    "{\"mechanism\":\""@ + escaped(failure.0) + "\",\"errno\":"@ + crate::number::signed_decimal(
        failure.1 as int,
    ) + "}"@
}

/// A mechanism of an upper tier, which is listed only where it was applied.
pub open spec fn mechanism_text(applied: bool, field: Seq<char>) -> Seq<char> {
    if applied {
        field
    } else {
        Seq::empty()
    }
}

/// What was applied, as an object.
pub open spec fn applied_text(applied: crate::applied::Applied) -> Seq<char> {
    "{\"rlimitsApplied\":["@ + joined(
        applied.rlimits_applied.map_values(|name: Seq<char>| quoted(name)),
    ) + "],\"noNewPrivs\":"@ + bool_text(applied.no_new_privs) + ",\"seccompFilter\":"@ + bool_text(
        applied.seccomp_filter,
    ) + ",\"blockedSyscalls\":"@ + crate::number::decimal(applied.blocked_syscalls)
        + mechanism_text(applied.landlock, ",\"landlock\":true"@) + mechanism_text(
        applied.cgroup_v2,
        ",\"cgroupV2\":true"@,
    ) + ",\"complete\":"@ + bool_text(applied.is_complete()) + ",\"failures\":["@ + joined(
        applied.failures.map_values(|failure: (Seq<char>, i32)| failure_text(failure)),
    ) + "]}"@
}

/// The answer to a request that is refused.
pub open spec fn refusal_text(message: Seq<char>) -> Seq<char> {
    "{\"sandbox\":\"REFUSED\",\"reason\":\""@ + escaped(message) + "\"}"@
}

/// What was enforced on the process that is about to become the command. The tier is the one that
/// was applied, whatever the host offers.
pub open spec fn applied_report_text(
    limits: IsolationLimits,
    applied: crate::applied::Applied,
) -> Seq<char> {
    "{\"sandbox\":\"APPLIED\",\"tier\":"@ + crate::number::decimal(applied.highest_tier() as nat)
        + ",\"tierName\":\""@ + crate::support::name_of_tier(applied.highest_tier())
        + "\",\"limits\":"@ + limits_text(limits) + ",\"applied\":"@ + applied_text(applied) + "}"@
}

/// What a host offers, and the container's own ceiling.
pub open spec fn detect_report_text(
    support: IsolationSupport,
    ceiling: IsolationLimits,
    denied: nat,
) -> Seq<char> {
    "{\"tier\":"@ + crate::number::decimal(support.highest_tier() as nat) + ",\"tierName\":\""@
        + crate::support::name_of_tier(support.highest_tier()) + "\",\"support\":{\"rlimit\":"@
        + bool_text(support.rlimit) + ",\"noNewPrivs\":"@ + bool_text(support.no_new_privs)
        + ",\"seccompFilter\":"@ + bool_text(support.seccomp_filter) + ",\"landlock\":"@ + bool_text(
        support.landlock,
    ) + ",\"cgroupV2Writable\":"@ + bool_text(support.cgroup_v2_writable)
        + ",\"seccompUnsupportedArch\":"@ + bool_text(support.seccomp_unsupported_arch)
        + "},\"containerCeiling\":"@ + limits_text(ceiling) + ",\"deniedSyscalls\":"@
        + crate::number::decimal(denied) + "}"@
}

fn push_bool(out: &mut String, b: bool)
    ensures
        final(out)@ == old(out)@ + bool_text(b),
{
    if b {
        out.append("true");
    } else {
        out.append("false");
    }
}

fn push_mechanism(out: &mut String, applied: bool, field: &str)
    ensures
        final(out)@ == old(out)@ + mechanism_text(applied, field@),
{
    if applied {
        out.append(field);
    }
    assert(out@ =~= old(out)@ + mechanism_text(applied, field@));
}

/// One limit as a field of an object.
pub fn limit_json(name: &str, value: Option<u64>) -> (out: String)
    ensures
        out@ == limit_text(name@, value),
{
    let mut out = String::new();
    out.append("\"");
    out.append(name);
    out.append("\":");
    match value {
        Some(number) => push_decimal(&mut out, number),
        None => out.append("null"),
    }
    assert(out@ =~= limit_text(name@, value));
    out
}

/// The limits as an object.
pub fn limits_json(limits: &IsolationLimits) -> (out: String)
    ensures
        out@ == limits_text(*limits),
{
    let mut out = String::new();
    out.append("{");
    out.append(limit_json(Dimension::Memory.name(), limits.memory_bytes).as_str());
    out.append(",");
    out.append(limit_json(Dimension::Cpu.name(), limits.cpu_seconds).as_str());
    out.append(",");
    out.append(limit_json(Dimension::OpenFiles.name(), limits.open_files).as_str());
    out.append(",");
    out.append(limit_json(Dimension::Processes.name(), limits.processes).as_str());
    out.append(",");
    out.append(limit_json(Dimension::FileSize.name(), limits.file_size_bytes).as_str());
    out.append(",");
    out.append(limit_json(Dimension::CoreDump.name(), limits.core_dump_bytes).as_str());
    out.append("}");
    assert(Seq::<char>::empty() + "{"@ =~= "{"@);
    out
}

fn failure_json(failure: &IsolationFailure) -> (out: String)
    ensures
        out@ == failure_text(failure@),
{
    let mut out = String::new();
    out.append("{\"mechanism\":\"");
    assert(out@ =~= "{\"mechanism\":\""@);
    out.append(escape(failure.mechanism.as_str()).as_str());
    out.append("\",\"errno\":");
    push_signed(&mut out, failure.errno);
    out.append("}");
    out
}

fn names_json(names: &Vec<&'static str>) -> (out: String)
    ensures
        out@ == joined(names@.map_values(|name: &'static str| quoted(name@))),
{
    let ghost items = names@.map_values(|name: &'static str| quoted(name@));
    let mut out = String::new();
    let mut i: usize = 0;
    assert(out@ =~= joined(items.take(0)));
    while i < names.len()
        invariant
            i <= names@.len(),
            items == names@.map_values(|name: &'static str| quoted(name@)),
            out@ == joined(items.take(i as int)),
        decreases names.len() - i,
    {
        assert(items.take(i + 1).drop_last() =~= items.take(i as int));
        if i > 0 {
            out.append(",");
        }
        out.append("\"");
        out.append(names[i]);
        out.append("\"");
        assert(out@ =~= joined(items.take(i + 1))) by {
            assert(items.take(i + 1).last() == quoted(names@[i as int]@));
        }
        i = i + 1;
    }
    assert(items.take(i as int) =~= items);
    out
}

fn failures_json(failures: &Vec<IsolationFailure>) -> (out: String)
    ensures
        out@ == joined(failures@.map_values(|failure: IsolationFailure| failure_text(failure@))),
{
    let ghost items = failures@.map_values(|failure: IsolationFailure| failure_text(failure@));
    let mut out = String::new();
    let mut i: usize = 0;
    assert(out@ =~= joined(items.take(0)));
    while i < failures.len()
        invariant
            i <= failures@.len(),
            items == failures@.map_values(|failure: IsolationFailure| failure_text(failure@)),
            out@ == joined(items.take(i as int)),
        decreases failures.len() - i,
    {
        assert(items.take(i + 1).drop_last() =~= items.take(i as int));
        if i > 0 {
            out.append(",");
        }
        out.append(failure_json(&failures[i]).as_str());
        assert(out@ =~= joined(items.take(i + 1))) by {
            assert(items.take(i + 1).last() == failure_text(failures@[i as int]@));
        }
        i = i + 1;
    }
    assert(items.take(i as int) =~= items);
    out
}

/// What was applied, as an object.
pub fn applied_json(applied: &AppliedIsolation) -> (out: String)
    ensures
        out@ == applied_text(applied@),
{
    let mut out = String::new();
    out.append("{\"rlimitsApplied\":[");
    assert(out@ =~= "{\"rlimitsApplied\":["@);
    out.append(names_json(&applied.rlimits_applied).as_str());
    assert(applied@.rlimits_applied.map_values(|name: Seq<char>| quoted(name))
        =~= applied.rlimits_applied@.map_values(|name: &'static str| quoted(name@)));
    out.append("],\"noNewPrivs\":");
    push_bool(&mut out, applied.no_new_privs);
    out.append(",\"seccompFilter\":");
    push_bool(&mut out, applied.seccomp_filter);
    out.append(",\"blockedSyscalls\":");
    push_decimal(&mut out, applied.blocked_syscalls as u64);
    push_mechanism(&mut out, applied.landlock, ",\"landlock\":true");
    push_mechanism(&mut out, applied.cgroup_v2, ",\"cgroupV2\":true");
    out.append(",\"complete\":");
    push_bool(&mut out, applied.complete());
    out.append(",\"failures\":[");
    out.append(failures_json(&applied.failures).as_str());
    assert(applied@.failures.map_values(|failure: (Seq<char>, i32)| failure_text(failure))
        =~= applied.failures@.map_values(|failure: IsolationFailure| failure_text(failure@)));
    out.append("]}");
    out
}

/// The answer to a request that is refused.
pub fn refusal_json(message: &str) -> (out: String)
    ensures
        out@ == refusal_text(message@),
{
    let mut out = String::new();
    out.append("{\"sandbox\":\"REFUSED\",\"reason\":\"");
    assert(out@ =~= "{\"sandbox\":\"REFUSED\",\"reason\":\""@);
    out.append(escape(message).as_str());
    out.append("\"}");
    out
}

/// What was enforced, for the parent to record.
pub fn applied_report(limits: &IsolationLimits, applied: &AppliedIsolation) -> (out: String)
    ensures
        out@ == applied_report_text(*limits, applied@),
{
    let mut out = String::new();
    out.append("{\"sandbox\":\"APPLIED\",\"tier\":");
    assert(out@ =~= "{\"sandbox\":\"APPLIED\",\"tier\":"@);
    push_decimal(&mut out, applied.tier() as u64);
    out.append(",\"tierName\":\"");
    out.append(applied.tier_name());
    out.append("\",\"limits\":");
    out.append(limits_json(limits).as_str());
    out.append(",\"applied\":");
    out.append(applied_json(applied).as_str());
    out.append("}");
    out
}

/// What a host offers and the container's own ceiling, so that the isolation level is declared
/// rather than assumed.
pub fn detect_report(support: &IsolationSupport, ceiling: &IsolationLimits, denied: usize) -> (out:
    String)
    ensures
        out@ == detect_report_text(*support, *ceiling, denied as nat),
{
    let mut out = String::new();
    out.append("{\"tier\":");
    assert(out@ =~= "{\"tier\":"@);
    push_decimal(&mut out, support.tier() as u64);
    out.append(",\"tierName\":\"");
    out.append(support.tier_name());
    out.append("\",\"support\":{\"rlimit\":");
    push_bool(&mut out, support.rlimit);
    out.append(",\"noNewPrivs\":");
    push_bool(&mut out, support.no_new_privs);
    out.append(",\"seccompFilter\":");
    push_bool(&mut out, support.seccomp_filter);
    out.append(",\"landlock\":");
    push_bool(&mut out, support.landlock);
    out.append(",\"cgroupV2Writable\":");
    push_bool(&mut out, support.cgroup_v2_writable);
    out.append(",\"seccompUnsupportedArch\":");
    push_bool(&mut out, support.seccomp_unsupported_arch);
    out.append("},\"containerCeiling\":");
    out.append(limits_json(ceiling).as_str());
    out.append(",\"deniedSyscalls\":");
    push_decimal(&mut out, denied as u64);
    out.append("}");
    out
}

/// The value of a hexadecimal digit.
pub open spec fn hex_value(c: char) -> Option<nat> {
    if '0' <= c <= '9' {
        Some((c as int - 48) as nat)
    } else if 'a' <= c <= 'f' {
        Some((c as int - 87) as nat)
    } else {
        None
    }
}

/// The character that an escape sequence stands for, and how long the sequence is. A quote ends a
/// string and a control character may not stand in one, so neither stands for itself.
pub open spec fn unescaped_char(s: Seq<char>) -> Option<(char, int)> {
    if s.len() == 0 || s[0] == '"' || (s[0] as nat) < 0x20 {
        None
    } else if s[0] != '\\' {
        Some((s[0], 1))
    } else if s.len() < 2 {
        None
    } else if s[1] == '"' || s[1] == '\\' {
        Some((s[1], 2))
    } else if s[1] == 'n' {
        Some(('\n', 2))
    } else if s[1] == 'r' {
        Some(('\r', 2))
    } else if s[1] == 't' {
        Some(('\t', 2))
    } else if s[1] == 'u' && s.len() >= 6 && s[2] == '0' && s[3] == '0' && hex_value(s[4]) is Some
        && hex_value(s[5]) is Some {
        Some(((hex_value(s[4])->0 * 16 + hex_value(s[5])->0) as char, 6))
    } else {
        None
    }
}

/// The text that a JSON reader takes from inside a string.
pub open spec fn unescaped(s: Seq<char>) -> Option<Seq<char>>
    decreases s.len(),
{
    if s.len() == 0 {
        Some(Seq::empty())
    } else {
        match unescaped_char(s) {
            None => None,
            Some((c, n)) => match unescaped(s.skip(n)) {
                None => None,
                Some(rest) => Some(seq![c] + rest),
            },
        }
    }
}

/// Escaping goes character by character, from either end.
proof fn lemma_escaped_first(s: Seq<char>)
    requires
        s.len() > 0,
    ensures
        escaped(s) == escaped_char(s.first()) + escaped(s.drop_first()),
    decreases s.len(),
{
    if s.len() == 1 {
        assert(s.drop_last() =~= Seq::<char>::empty());
        assert(s.drop_first() =~= Seq::<char>::empty());
        assert(escaped(s) =~= escaped_char(s.first()) + escaped(s.drop_first()));
    } else {
        lemma_escaped_first(s.drop_last());
        assert(s.drop_last().drop_first() =~= s.drop_first().drop_last());
        assert(escaped(s) =~= escaped_char(s.first()) + escaped(s.drop_first()));
    }
}

/// One escaped character reads back as itself, whatever follows it.
proof fn lemma_unescaped_char(c: char, rest: Seq<char>)
    ensures
        unescaped_char(escaped_char(c) + rest) == Some((c, escaped_char(c).len() as int)),
{
    let s = escaped_char(c) + rest;
    if c != '"' && c != '\\' && c != '\n' && c != '\r' && c != '\t' && (c as nat) < 0x20 {
        let high = c as nat / 16;
        let low = c as nat % 16;
        assert(s[1] == 'u' && s[2] == '0' && s[3] == '0');
        assert(s[4] == hex_char(high) && s[5] == hex_char(low));
        assert(hex_value(hex_char(high)) == Some(high));
        assert(hex_value(hex_char(low)) == Some(low));
        assert(high * 16 + low == c as nat);
    }
}

/// Whatever a message holds, a JSON reader takes the same text from the string it was put in.
pub proof fn law_escaped_text_reads_back(s: Seq<char>)
    ensures
        unescaped(escaped(s)) == Some(s),
    decreases s.len(),
{
    if s.len() == 0 {
        assert(s =~= Seq::<char>::empty());
    } else {
        let rest = escaped(s.drop_first());
        lemma_escaped_first(s);
        lemma_unescaped_char(s.first(), rest);
        law_escaped_text_reads_back(s.drop_first());
        let whole = escaped_char(s.first()) + rest;
        assert(whole.skip(escaped_char(s.first()).len() as int) =~= rest);
        assert(seq![s.first()] + s.drop_first() =~= s);
    }
}

/// An escaped text holds no control character, so a report stays on its line.
pub proof fn law_escaped_text_stays_on_its_line(s: Seq<char>, i: int)
    requires
        0 <= i < escaped(s).len(),
    ensures
        escaped(s)[i] as nat >= 0x20,
    decreases s.len(),
{
    let before = escaped(s.drop_last());
    if i < before.len() {
        law_escaped_text_stays_on_its_line(s.drop_last(), i);
    } else {
        assert(escaped(s)[i] == escaped_char(s.last())[i - before.len()]);
    }
}

/// A refusal is one line, whatever its message holds.
pub proof fn law_a_refusal_is_one_line(message: Seq<char>, i: int)
    requires
        0 <= i < refusal_text(message).len(),
    ensures
        refusal_text(message)[i] as nat >= 0x20,
{
    reveal_strlit("{\"sandbox\":\"REFUSED\",\"reason\":\"");
    reveal_strlit("\"}");
    let head = "{\"sandbox\":\"REFUSED\",\"reason\":\""@;
    let middle = escaped(message);
    if i < head.len() {
        assert(refusal_text(message)[i] == head[i]);
    } else if i < head.len() + middle.len() {
        assert(refusal_text(message)[i] == middle[i - head.len()]);
        law_escaped_text_stays_on_its_line(message, i - head.len());
    } else {
        assert(refusal_text(message)[i] == "\"}"@[i - head.len() - middle.len()]);
    }
}

} // verus!
