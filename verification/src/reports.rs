//! The reports, as a JSON reader sees them.
use vstd::prelude::*;

use crate::limits::IsolationLimits;
use crate::support::IsolationSupport;

verus! {

/// The numbers of a limits object stand under their own keys, in order, and nothing else does.
pub proof fn law_limits_are_written_under_their_keys(limits: IsolationLimits)
    ensures
        crate::json::limits_text(limits) == crate::reader::object_text(
            seq![
                ("memoryBytes"@, crate::reader::optional_text(limits.memory_bytes)),
                ("cpuSeconds"@, crate::reader::optional_text(limits.cpu_seconds)),
                ("openFiles"@, crate::reader::optional_text(limits.open_files)),
                ("processes"@, crate::reader::optional_text(limits.processes)),
                ("fileSizeBytes"@, crate::reader::optional_text(limits.file_size_bytes)),
                ("coreDumpBytes"@, crate::reader::optional_text(limits.core_dump_bytes)),
            ],
        ),
        crate::reader::skips(crate::json::limits_text(limits), 0),
{
    reveal_strlit("{");
    reveal_strlit("}");
    reveal_strlit(",");
    reveal_strlit("\"");
    reveal_strlit("\":");
    let m = crate::reader::optional_text(limits.memory_bytes);
    let c = crate::reader::optional_text(limits.cpu_seconds);
    let o = crate::reader::optional_text(limits.open_files);
    let p = crate::reader::optional_text(limits.processes);
    let f = crate::reader::optional_text(limits.file_size_bytes);
    let d = crate::reader::optional_text(limits.core_dump_bytes);
    let none = Seq::<char>::empty();
    let m1 = seq![("memoryBytes"@, m)];
    let m2 = m1.push(("cpuSeconds"@, c));
    let m3 = m2.push(("openFiles"@, o));
    let m4 = m3.push(("processes"@, p));
    let m5 = m4.push(("fileSizeBytes"@, f));
    let m6 = m5.push(("coreDumpBytes"@, d));
    crate::reader::lemma_first_member("memoryBytes"@, m);
    crate::reader::lemma_next_member(none, m1, "cpuSeconds"@, c);
    crate::reader::lemma_next_member(none, m2, "openFiles"@, o);
    crate::reader::lemma_next_member(none, m3, "processes"@, p);
    crate::reader::lemma_next_member(none, m4, "fileSizeBytes"@, f);
    crate::reader::lemma_next_member(none, m5, "coreDumpBytes"@, d);
    crate::reader::lemma_last_member(m6);
    lemma_limit_text("memoryBytes"@, limits.memory_bytes);
    lemma_limit_text("cpuSeconds"@, limits.cpu_seconds);
    lemma_limit_text("openFiles"@, limits.open_files);
    lemma_limit_text("processes"@, limits.processes);
    lemma_limit_text("fileSizeBytes"@, limits.file_size_bytes);
    lemma_limit_text("coreDumpBytes"@, limits.core_dump_bytes);
    let t1 = "{"@ + crate::json::limit_text("memoryBytes"@, limits.memory_bytes);
    assert(t1 =~= crate::reader::open_object(m1));
    lemma_comma(t1, "cpuSeconds"@, limits.cpu_seconds);
    lemma_comma(crate::reader::open_object(m2), "openFiles"@, limits.open_files);
    lemma_comma(crate::reader::open_object(m3), "processes"@, limits.processes);
    lemma_comma(crate::reader::open_object(m4), "fileSizeBytes"@, limits.file_size_bytes);
    lemma_comma(crate::reader::open_object(m5), "coreDumpBytes"@, limits.core_dump_bytes);
    assert("}"@ =~= seq!['}']);
    assert(m6 =~= seq![
        ("memoryBytes"@, m),
        ("cpuSeconds"@, c),
        ("openFiles"@, o),
        ("processes"@, p),
        ("fileSizeBytes"@, f),
        ("coreDumpBytes"@, d),
    ]);
    lemma_limit_members(limits);
    crate::reader::lemma_skips_object(m6);
}

/// The members of a limits object can be told apart.
proof fn lemma_limit_members(limits: IsolationLimits)
    ensures
        crate::reader::are_members(
            seq![
                ("memoryBytes"@, crate::reader::optional_text(limits.memory_bytes)),
                ("cpuSeconds"@, crate::reader::optional_text(limits.cpu_seconds)),
                ("openFiles"@, crate::reader::optional_text(limits.open_files)),
                ("processes"@, crate::reader::optional_text(limits.processes)),
                ("fileSizeBytes"@, crate::reader::optional_text(limits.file_size_bytes)),
                ("coreDumpBytes"@, crate::reader::optional_text(limits.core_dump_bytes)),
            ],
        ),
{
    reveal_strlit("memoryBytes");
    reveal_strlit("cpuSeconds");
    reveal_strlit("openFiles");
    reveal_strlit("processes");
    reveal_strlit("fileSizeBytes");
    reveal_strlit("coreDumpBytes");
    crate::reader::lemma_skips_word(true, limits.memory_bytes);
    crate::reader::lemma_skips_word(true, limits.cpu_seconds);
    crate::reader::lemma_skips_word(true, limits.open_files);
    crate::reader::lemma_skips_word(true, limits.processes);
    crate::reader::lemma_skips_word(true, limits.file_size_bytes);
    crate::reader::lemma_skips_word(true, limits.core_dump_bytes);
}

/// A written limit is a key and its number, or `null`.
proof fn lemma_limit_text(key: Seq<char>, value: Option<u64>)
    ensures
        crate::json::limit_text(key, value) == seq!['"'] + key + seq!['"', ':']
            + crate::reader::optional_text(value),
{
    reveal_strlit("\"");
    reveal_strlit("\":");
    assert("\""@ =~= seq!['"']);
    assert("\":"@ =~= seq!['"', ':']);
}

/// A written limit behind a comma is a key and its value behind a comma.
proof fn lemma_comma(text: Seq<char>, key: Seq<char>, value: Option<u64>)
    ensures
        text + ","@ + crate::json::limit_text(key, value) == text + crate::reader::next_key(key)
            + crate::reader::optional_text(value),
{
    reveal_strlit(",");
    lemma_limit_text(key, value);
    assert(text + ","@ + crate::json::limit_text(key, value) =~= text + crate::reader::next_key(key)
        + crate::reader::optional_text(value));
}

/// A reader of a limits object finds each number under its own key.
pub proof fn law_a_reader_finds_each_limit(limits: IsolationLimits)
    ensures
        ({
            let text = crate::json::limits_text(limits);
            &&& crate::reader::value_of(text, "memoryBytes"@) == Some(
                crate::reader::optional_text(limits.memory_bytes),
            )
            &&& crate::reader::value_of(text, "cpuSeconds"@) == Some(
                crate::reader::optional_text(limits.cpu_seconds),
            )
            &&& crate::reader::value_of(text, "openFiles"@) == Some(
                crate::reader::optional_text(limits.open_files),
            )
            &&& crate::reader::value_of(text, "processes"@) == Some(
                crate::reader::optional_text(limits.processes),
            )
            &&& crate::reader::value_of(text, "fileSizeBytes"@) == Some(
                crate::reader::optional_text(limits.file_size_bytes),
            )
            &&& crate::reader::value_of(text, "coreDumpBytes"@) == Some(
                crate::reader::optional_text(limits.core_dump_bytes),
            )
        }),
{
    law_limits_are_written_under_their_keys(limits);
    lemma_limit_members(limits);
    let members = seq![
        ("memoryBytes"@, crate::reader::optional_text(limits.memory_bytes)),
        ("cpuSeconds"@, crate::reader::optional_text(limits.cpu_seconds)),
        ("openFiles"@, crate::reader::optional_text(limits.open_files)),
        ("processes"@, crate::reader::optional_text(limits.processes)),
        ("fileSizeBytes"@, crate::reader::optional_text(limits.file_size_bytes)),
        ("coreDumpBytes"@, crate::reader::optional_text(limits.core_dump_bytes)),
    ];
    reveal_strlit("memoryBytes");
    reveal_strlit("cpuSeconds");
    reveal_strlit("openFiles");
    reveal_strlit("processes");
    reveal_strlit("fileSizeBytes");
    reveal_strlit("coreDumpBytes");
    assert("memoryBytes"@.len() == 11);
    assert("cpuSeconds"@.len() == 10);
    assert("openFiles"@.len() == 9 && "openFiles"@[0] == 'o');
    assert("processes"@.len() == 9 && "processes"@[0] == 'p');
    assert("fileSizeBytes"@.len() == 13 && "fileSizeBytes"@[0] == 'f');
    assert("coreDumpBytes"@.len() == 13 && "coreDumpBytes"@[0] == 'c');
    crate::reader::law_a_reader_finds_what_was_written(members, "memoryBytes"@, 0);
    crate::reader::law_a_reader_finds_what_was_written(members, "cpuSeconds"@, 1);
    crate::reader::law_a_reader_finds_what_was_written(members, "openFiles"@, 2);
    crate::reader::law_a_reader_finds_what_was_written(members, "processes"@, 3);
    crate::reader::law_a_reader_finds_what_was_written(members, "fileSizeBytes"@, 4);
    crate::reader::law_a_reader_finds_what_was_written(members, "coreDumpBytes"@, 5);
}

/// A failure is an object with its mechanism and its errno.
pub proof fn law_a_failure_is_written_with_its_errno(failure: (Seq<char>, i32))
    ensures
        crate::json::failure_text(failure) == crate::reader::object_text(
            seq![
                ("mechanism"@, crate::reader::string_text(crate::json::escaped(failure.0))),
                ("errno"@, crate::number::signed_decimal(failure.1 as int)),
            ],
        ),
        crate::reader::skips(crate::json::failure_text(failure), 0),
        crate::reader::value_of(crate::json::failure_text(failure), "mechanism"@) == Some(
            crate::reader::string_text(crate::json::escaped(failure.0)),
        ),
        crate::reader::value_of(crate::json::failure_text(failure), "errno"@) == Some(
            crate::number::signed_decimal(failure.1 as int),
        ),
{
    reveal_strlit("{\"mechanism\":\"");
    reveal_strlit("\",\"errno\":");
    reveal_strlit("}");
    reveal_strlit("mechanism");
    reveal_strlit("errno");
    assert("mechanism"@.len() == 9);
    assert("errno"@.len() == 5);
    let name = crate::json::escaped(failure.0);
    let code = crate::number::signed_decimal(failure.1 as int);
    let m1 = seq![("mechanism"@, crate::reader::string_text(name))];
    let m2 = m1.push(("errno"@, code));
    assert("{\"mechanism\":\""@ =~= crate::reader::first_key("mechanism"@) + seq!['"']);
    assert("\",\"errno\":"@ =~= seq!['"'] + crate::reader::next_key("errno"@));
    assert("}"@ =~= seq!['}']);
    crate::reader::lemma_first_member("mechanism"@, crate::reader::string_text(name));
    crate::reader::lemma_next_member(Seq::empty(), m1, "errno"@, code);
    crate::reader::lemma_last_member(m2);
    assert("{\"mechanism\":\""@ + name + "\",\"errno\":"@ =~= crate::reader::first_key("mechanism"@)
        + crate::reader::string_text(name) + crate::reader::next_key("errno"@));
    assert(m2 =~= seq![("mechanism"@, crate::reader::string_text(name)), ("errno"@, code)]);
    crate::reader::lemma_skips_quoted_escaped(failure.0);
    crate::reader::lemma_skips_string(name);
    crate::reader::lemma_skips_signed(failure.1 as int);
    assert(crate::reader::are_members(m2));
    crate::reader::lemma_skips_object(m2);
    crate::reader::law_a_reader_finds_what_was_written(m2, "mechanism"@, 0);
    crate::reader::law_a_reader_finds_what_was_written(m2, "errno"@, 1);
}

/// A refusal is an object that says so and gives the reason, which reads back as the message.
pub proof fn law_a_refusal_is_written_with_its_reason(message: Seq<char>)
    ensures
        crate::json::refusal_text(message) == crate::reader::object_text(
            seq![
                ("sandbox"@, crate::reader::string_text("REFUSED"@)),
                ("reason"@, crate::reader::string_text(crate::json::escaped(message))),
            ],
        ),
        crate::reader::value_of(crate::json::refusal_text(message), "sandbox"@) == Some(
            crate::reader::string_text("REFUSED"@),
        ),
        crate::reader::value_of(crate::json::refusal_text(message), "reason"@) == Some(
            crate::reader::string_text(crate::json::escaped(message)),
        ),
        crate::json::unescaped(crate::json::escaped(message)) == Some(message),
{
    reveal_strlit("{\"sandbox\":\"REFUSED\",\"reason\":\"");
    reveal_strlit("\"}");
    reveal_strlit("REFUSED");
    reveal_strlit("sandbox");
    reveal_strlit("reason");
    assert("sandbox"@.len() == 7);
    assert("reason"@.len() == 6);
    let reason = crate::reader::string_text(crate::json::escaped(message));
    let m1 = seq![("sandbox"@, crate::reader::string_text("REFUSED"@))];
    let m2 = m1.push(("reason"@, reason));
    let head = "{\"sandbox\":\"REFUSED\",\"reason\":\""@;
    assert(head =~= crate::reader::first_key("sandbox"@) + crate::reader::string_text("REFUSED"@) + crate::reader::next_key("reason"@)
        + seq!['"']);
    assert("\"}"@ =~= seq!['"', '}']);
    crate::reader::lemma_first_member("sandbox"@, crate::reader::string_text("REFUSED"@));
    crate::reader::lemma_next_member(Seq::empty(), m1, "reason"@, reason);
    crate::reader::lemma_last_member(m2);
    assert(crate::json::refusal_text(message) =~= crate::reader::first_key("sandbox"@) + crate::reader::string_text(
        "REFUSED"@,
    ) + crate::reader::next_key("reason"@) + reason + seq!['}']);
    assert(m2 =~= seq![("sandbox"@, crate::reader::string_text("REFUSED"@)), ("reason"@, reason)]);
    crate::reader::lemma_skips_quoted_escaped(message);
    crate::reader::lemma_skips_string(crate::json::escaped(message));
    crate::reader::lemma_skips_quoted_plain("REFUSED"@);
    crate::reader::lemma_skips_string("REFUSED"@);
    assert(crate::reader::are_members(m2));
    crate::reader::law_a_reader_finds_what_was_written(m2, "sandbox"@, 0);
    crate::reader::law_a_reader_finds_what_was_written(m2, "reason"@, 1);
    crate::json::law_escaped_text_reads_back(message);
}

/// The name of a tier is a value.
proof fn lemma_tier_name(tier: u8)
    ensures
        crate::reader::skips(crate::reader::string_text(crate::support::name_of_tier(tier)), 0),
{
    reveal_strlit("POSIX_RLIMIT");
    reveal_strlit("SECCOMP_FILTER");
    reveal_strlit("LANDLOCK");
    reveal_strlit("CGROUP_V2");
    reveal_strlit("NONE");
    crate::reader::lemma_skips_quoted_plain(crate::support::name_of_tier(tier));
    crate::reader::lemma_skips_string(crate::support::name_of_tier(tier));
}

/// The report of what a host offers, without its support object, which is `inner`.
pub open spec fn detect_members(
    support: IsolationSupport,
    inner: Seq<char>,
    ceiling: IsolationLimits,
    denied: nat,
) -> Seq<(Seq<char>, Seq<char>)> {
    seq![
        ("tier"@, crate::number::decimal(support.highest_tier() as nat)),
        ("tierName"@, crate::reader::string_text(crate::support::name_of_tier(support.highest_tier()))),
        ("support"@, inner),
        ("containerCeiling"@, crate::json::limits_text(ceiling)),
        ("deniedSyscalls"@, crate::number::decimal(denied)),
    ]
}

/// Grouping does not matter.
proof fn lemma_assoc(a: Seq<char>, b: Seq<char>, c: Seq<char>)
    ensures
        a + b + c == a + (b + c),
{
    assert(a + b + c =~= a + (b + c));
}

/// A quoted name and what follows it, grouped by what they mean.
proof fn lemma_regroup(
    text: Seq<char>,
    key: Seq<char>,
    quote: Seq<char>,
    name: Seq<char>,
    next: Seq<char>,
    inner: Seq<char>,
)
    ensures
        text + (key + quote) + name + (quote + next + inner) == text + key + (quote + name + quote)
            + next + inner,
        text + (key + quote) + name + (quote + next) == text + key + (quote + name + quote) + next,
{
    assert(text + (key + quote) + name + (quote + next + inner) =~= text + key + (quote + name
        + quote) + next + inner);
    assert(text + (key + quote) + name + (quote + next) =~= text + key + (quote + name + quote)
        + next);
}

/// The end of a nested value and what follows it, grouped by what they mean.
proof fn lemma_close_nested(
    prefix: Seq<char>,
    inner: Seq<char>,
    close: Seq<char>,
    next: Seq<char>,
)
    ensures
        prefix + inner + (close + next) == prefix + (inner + close) + next,
{
    assert(prefix + inner + (close + next) =~= prefix + (inner + close) + next);
}

/// The pieces of text that the report is put together from.
proof fn lemma_detect_literals()
    ensures
        "{\"tier\":"@ == crate::reader::first_key("tier"@),
        ",\"tierName\":\""@ == crate::reader::next_key("tierName"@) + seq!['"'],
        "\",\"support\":{\"rlimit\":"@ == seq!['"'] + crate::reader::next_key("support"@) + crate::reader::first_key(
            "rlimit"@,
        ),
        "},\"containerCeiling\":"@ == seq!['}'] + crate::reader::next_key("containerCeiling"@),
        ",\"deniedSyscalls\":"@ == crate::reader::next_key("deniedSyscalls"@),
        "}"@ == seq!['}'],
        ",\"noNewPrivs\":"@ == crate::reader::next_key("noNewPrivs"@),
        ",\"seccompFilter\":"@ == crate::reader::next_key("seccompFilter"@),
        ",\"landlock\":"@ == crate::reader::next_key("landlock"@),
        ",\"cgroupV2Writable\":"@ == crate::reader::next_key("cgroupV2Writable"@),
        ",\"seccompUnsupportedArch\":"@ == crate::reader::next_key("seccompUnsupportedArch"@),
{
    reveal_strlit("{\"tier\":");
    reveal_strlit(",\"tierName\":\"");
    reveal_strlit("\",\"support\":{\"rlimit\":");
    reveal_strlit("},\"containerCeiling\":");
    reveal_strlit(",\"deniedSyscalls\":");
    reveal_strlit("}");
    reveal_strlit("tier");
    reveal_strlit("tierName");
    reveal_strlit("support");
    reveal_strlit("containerCeiling");
    reveal_strlit("deniedSyscalls");
    reveal_strlit("rlimit");
    reveal_strlit("noNewPrivs");
    reveal_strlit("seccompFilter");
    reveal_strlit("landlock");
    reveal_strlit("cgroupV2Writable");
    reveal_strlit("seccompUnsupportedArch");
    reveal_strlit(",\"noNewPrivs\":");
    assert(",\"noNewPrivs\":"@ =~= crate::reader::next_key("noNewPrivs"@));
    reveal_strlit(",\"seccompFilter\":");
    assert(",\"seccompFilter\":"@ =~= crate::reader::next_key("seccompFilter"@));
    reveal_strlit(",\"landlock\":");
    assert(",\"landlock\":"@ =~= crate::reader::next_key("landlock"@));
    reveal_strlit(",\"cgroupV2Writable\":");
    assert(",\"cgroupV2Writable\":"@ =~= crate::reader::next_key("cgroupV2Writable"@));
    reveal_strlit(",\"seccompUnsupportedArch\":");
    assert(",\"seccompUnsupportedArch\":"@ =~= crate::reader::next_key("seccompUnsupportedArch"@));
    assert("{\"tier\":"@ =~= crate::reader::first_key("tier"@));
    assert(",\"tierName\":\""@ =~= crate::reader::next_key("tierName"@) + seq!['"']);
    assert("\",\"support\":{\"rlimit\":"@ =~= seq!['"'] + crate::reader::next_key("support"@) + crate::reader::first_key(
        "rlimit"@,
    ));
    assert("},\"containerCeiling\":"@ =~= seq!['}'] + crate::reader::next_key("containerCeiling"@));
    assert(",\"deniedSyscalls\":"@ =~= crate::reader::next_key("deniedSyscalls"@));
    assert("}"@ =~= seq!['}']);
}

/// What a host offers is written under its own keys, mechanism by mechanism.
pub proof fn law_detection_is_written_under_its_keys(
    support: IsolationSupport,
    ceiling: IsolationLimits,
    denied: nat,
)
    ensures
        crate::json::detect_report_text(support, ceiling, denied) == crate::reader::object_text(
            detect_members(
                support,
                crate::reader::object_text(
                    seq![
                        ("rlimit"@, crate::reader::truth_text(support.rlimit)),
                        ("noNewPrivs"@, crate::reader::truth_text(support.no_new_privs)),
                        ("seccompFilter"@, crate::reader::truth_text(support.seccomp_filter)),
                        ("landlock"@, crate::reader::truth_text(support.landlock)),
                        ("cgroupV2Writable"@, crate::reader::truth_text(support.cgroup_v2_writable)),
                        ("seccompUnsupportedArch"@, crate::reader::truth_text(support.seccomp_unsupported_arch)),
                    ],
                ),
                ceiling,
                denied,
            ),
        ),
{
    lemma_detect_literals();
    assert(crate::json::bool_text(support.rlimit) == crate::reader::truth_text(support.rlimit));
    assert(crate::json::bool_text(support.no_new_privs) == crate::reader::truth_text(support.no_new_privs));
    assert(crate::json::bool_text(support.seccomp_filter) == crate::reader::truth_text(support.seccomp_filter));
    assert(crate::json::bool_text(support.landlock) == crate::reader::truth_text(support.landlock));
    assert(crate::json::bool_text(support.cgroup_v2_writable) == crate::reader::truth_text(support.cgroup_v2_writable));
    assert(crate::json::bool_text(support.seccomp_unsupported_arch) == crate::reader::truth_text(support.seccomp_unsupported_arch));
    let tier = crate::number::decimal(support.highest_tier() as nat);
    let name = crate::support::name_of_tier(support.highest_tier());
    let limits = crate::json::limits_text(ceiling);
    let count = crate::number::decimal(denied);
    let none = Seq::<char>::empty();
    let m1 = seq![("tier"@, tier)];
    let m2 = m1.push(("tierName"@, crate::reader::string_text(name)));
    crate::reader::lemma_first_member("tier"@, tier);
    crate::reader::lemma_next_member(none, m1, "tierName"@, crate::reader::string_text(name));
    let prefix = crate::reader::open_object(m2) + crate::reader::next_key("support"@);
    let t1 = crate::reader::open_object(m1);
    lemma_regroup(
        t1,
        crate::reader::next_key("tierName"@),
        seq!['"'],
        name,
        crate::reader::next_key("support"@),
        crate::reader::first_key("rlimit"@),
    );
    let head = t1 + ",\"tierName\":\""@ + name + "\",\"support\":{\"rlimit\":"@;
    assert(head == prefix + crate::reader::first_key("rlimit"@));
    let s1 = seq![("rlimit"@, crate::reader::truth_text(support.rlimit))];
    let s2 = s1.push(("noNewPrivs"@, crate::reader::truth_text(support.no_new_privs)));
    let s3 = s2.push(("seccompFilter"@, crate::reader::truth_text(support.seccomp_filter)));
    let s4 = s3.push(("landlock"@, crate::reader::truth_text(support.landlock)));
    let s5 = s4.push(("cgroupV2Writable"@, crate::reader::truth_text(support.cgroup_v2_writable)));
    let s6 = s5.push(("seccompUnsupportedArch"@, crate::reader::truth_text(support.seccomp_unsupported_arch)));
    crate::reader::lemma_first_member("rlimit"@, crate::reader::truth_text(support.rlimit));
    lemma_assoc(prefix, crate::reader::first_key("rlimit"@), crate::reader::truth_text(support.rlimit));
    assert(head + crate::reader::truth_text(support.rlimit) == prefix + crate::reader::open_object(s1));
    crate::reader::lemma_next_member(prefix, s1, "noNewPrivs"@, crate::reader::truth_text(support.no_new_privs));
    crate::reader::lemma_next_member(prefix, s2, "seccompFilter"@, crate::reader::truth_text(support.seccomp_filter));
    crate::reader::lemma_next_member(prefix, s3, "landlock"@, crate::reader::truth_text(support.landlock));
    crate::reader::lemma_next_member(prefix, s4, "cgroupV2Writable"@, crate::reader::truth_text(support.cgroup_v2_writable));
    crate::reader::lemma_next_member(prefix, s5, "seccompUnsupportedArch"@, crate::reader::truth_text(support.seccomp_unsupported_arch));
    let inner = crate::reader::object_text(s6);
    crate::reader::lemma_last_member(s6);
    assert(s6 =~= seq![
        ("rlimit"@, crate::reader::truth_text(support.rlimit)),
        ("noNewPrivs"@, crate::reader::truth_text(support.no_new_privs)),
        ("seccompFilter"@, crate::reader::truth_text(support.seccomp_filter)),
        ("landlock"@, crate::reader::truth_text(support.landlock)),
        ("cgroupV2Writable"@, crate::reader::truth_text(support.cgroup_v2_writable)),
        ("seccompUnsupportedArch"@, crate::reader::truth_text(support.seccomp_unsupported_arch)),
    ]);
    let m3 = m2.push(("support"@, inner));
    let m4 = m3.push(("containerCeiling"@, limits));
    let m5 = m4.push(("deniedSyscalls"@, count));
    crate::reader::lemma_next_member(none, m2, "support"@, inner);
    crate::reader::lemma_next_member(none, m3, "containerCeiling"@, limits);
    crate::reader::lemma_next_member(none, m4, "deniedSyscalls"@, count);
    crate::reader::lemma_last_member(m5);
    lemma_close_nested(
        prefix,
        crate::reader::open_object(s6),
        seq!['}'],
        crate::reader::next_key("containerCeiling"@),
    );
    assert(m5 =~= detect_members(support, inner, ceiling, denied));
}

/// A reader of the report finds under each mechanism's own key whether the host offers it, and under
/// the other keys the tier, its name, the container's ceiling and the number of denied calls.
pub proof fn law_a_reader_finds_each_mechanism(
    support: IsolationSupport,
    ceiling: IsolationLimits,
    denied: nat,
)
    ensures
        ({
            let report = crate::json::detect_report_text(support, ceiling, denied);
            let inner = crate::reader::value_of(report, "support"@)->0;
            &&& crate::reader::value_of(report, "support"@) is Some
            &&& crate::reader::value_of(inner, "rlimit"@) == Some(crate::reader::truth_text(support.rlimit))
            &&& crate::reader::value_of(inner, "noNewPrivs"@) == Some(crate::reader::truth_text(support.no_new_privs))
            &&& crate::reader::value_of(inner, "seccompFilter"@) == Some(crate::reader::truth_text(support.seccomp_filter))
            &&& crate::reader::value_of(inner, "landlock"@) == Some(crate::reader::truth_text(support.landlock))
            &&& crate::reader::value_of(inner, "cgroupV2Writable"@) == Some(crate::reader::truth_text(support.cgroup_v2_writable))
            &&& crate::reader::value_of(inner, "seccompUnsupportedArch"@) == Some(crate::reader::truth_text(support.seccomp_unsupported_arch))
            &&& crate::reader::value_of(report, "tier"@) == Some(
                crate::number::decimal(support.highest_tier() as nat),
            )
            &&& crate::reader::value_of(report, "tierName"@) == Some(
                crate::reader::string_text(crate::support::name_of_tier(support.highest_tier())),
            )
            &&& crate::reader::value_of(report, "containerCeiling"@) == Some(crate::json::limits_text(ceiling))
            &&& crate::reader::value_of(report, "deniedSyscalls"@) == Some(crate::number::decimal(denied))
        }),
{
    let s6 = seq![
        ("rlimit"@, crate::reader::truth_text(support.rlimit)),
        ("noNewPrivs"@, crate::reader::truth_text(support.no_new_privs)),
        ("seccompFilter"@, crate::reader::truth_text(support.seccomp_filter)),
        ("landlock"@, crate::reader::truth_text(support.landlock)),
        ("cgroupV2Writable"@, crate::reader::truth_text(support.cgroup_v2_writable)),
        ("seccompUnsupportedArch"@, crate::reader::truth_text(support.seccomp_unsupported_arch)),
    ];
    let inner = crate::reader::object_text(s6);
    let members = detect_members(support, inner, ceiling, denied);
    law_detection_is_written_under_its_keys(support, ceiling, denied);
    reveal_strlit("rlimit");
    reveal_strlit("noNewPrivs");
    reveal_strlit("seccompFilter");
    reveal_strlit("landlock");
    reveal_strlit("cgroupV2Writable");
    reveal_strlit("seccompUnsupportedArch");
    assert("rlimit"@.len() == 6);
    assert("noNewPrivs"@.len() == 10);
    assert("seccompFilter"@.len() == 13);
    assert("landlock"@.len() == 8);
    assert("cgroupV2Writable"@.len() == 16);
    assert("seccompUnsupportedArch"@.len() == 22);
    crate::reader::lemma_skips_word(support.rlimit, None);
    crate::reader::lemma_skips_word(support.no_new_privs, None);
    crate::reader::lemma_skips_word(support.seccomp_filter, None);
    crate::reader::lemma_skips_word(support.landlock, None);
    crate::reader::lemma_skips_word(support.cgroup_v2_writable, None);
    crate::reader::lemma_skips_word(support.seccomp_unsupported_arch, None);
    assert(crate::reader::are_members(s6));
    crate::reader::law_a_reader_finds_what_was_written(s6, "rlimit"@, 0);
    crate::reader::law_a_reader_finds_what_was_written(s6, "noNewPrivs"@, 1);
    crate::reader::law_a_reader_finds_what_was_written(s6, "seccompFilter"@, 2);
    crate::reader::law_a_reader_finds_what_was_written(s6, "landlock"@, 3);
    crate::reader::law_a_reader_finds_what_was_written(s6, "cgroupV2Writable"@, 4);
    crate::reader::law_a_reader_finds_what_was_written(s6, "seccompUnsupportedArch"@, 5);
    crate::reader::lemma_skips_object(s6);
    lemma_detect_members(support, inner, ceiling, denied);
}

/// A reader finds the members of the report.
proof fn lemma_detect_members(
    support: IsolationSupport,
    inner: Seq<char>,
    ceiling: IsolationLimits,
    denied: nat,
)
    requires
        crate::reader::skips(inner, 0),
    ensures
        ({
            let report = crate::reader::object_text(detect_members(support, inner, ceiling, denied));
            &&& crate::reader::value_of(report, "support"@) == Some(inner)
            &&& crate::reader::value_of(report, "tier"@) == Some(
                crate::number::decimal(support.highest_tier() as nat),
            )
            &&& crate::reader::value_of(report, "tierName"@) == Some(
                crate::reader::string_text(crate::support::name_of_tier(support.highest_tier())),
            )
            &&& crate::reader::value_of(report, "containerCeiling"@) == Some(crate::json::limits_text(ceiling))
            &&& crate::reader::value_of(report, "deniedSyscalls"@) == Some(crate::number::decimal(denied))
        }),
{
    let members = detect_members(support, inner, ceiling, denied);
    reveal_strlit("tier");
    reveal_strlit("tierName");
    reveal_strlit("support");
    reveal_strlit("containerCeiling");
    reveal_strlit("deniedSyscalls");
    assert("tier"@.len() == 4);
    assert("tierName"@.len() == 8);
    assert("support"@.len() == 7);
    assert("containerCeiling"@.len() == 16);
    assert("deniedSyscalls"@.len() == 14);
    crate::reader::lemma_skips_decimal(support.highest_tier() as nat);
    crate::reader::lemma_skips_decimal(denied);
    lemma_tier_name(support.highest_tier());
    law_limits_are_written_under_their_keys(ceiling);
    assert(crate::reader::are_members(members));
    crate::reader::law_a_reader_finds_what_was_written(members, "tier"@, 0);
    crate::reader::law_a_reader_finds_what_was_written(members, "tierName"@, 1);
    crate::reader::law_a_reader_finds_what_was_written(members, "support"@, 2);
    crate::reader::law_a_reader_finds_what_was_written(members, "containerCeiling"@, 3);
    crate::reader::law_a_reader_finds_what_was_written(members, "deniedSyscalls"@, 4);
}

/// Joining from the back is joining from the front.
proof fn lemma_joined(items: Seq<Seq<char>>)
    ensures
        crate::json::joined(items) == crate::text::separated(items),
    decreases items.len(),
{
    reveal_strlit(",");
    if items.len() > 1 {
        lemma_joined(items.drop_last());
        crate::text::lemma_separated_push(items.drop_last(), items.last());
        assert(items.drop_last().push(items.last()) =~= items);
        assert(","@ =~= seq![',']);
    }
}

/// The names of an array of strings.
pub open spec fn string_texts(names: Seq<Seq<char>>) -> Seq<Seq<char>> {
    names.map_values(|name: Seq<char>| crate::reader::string_text(name))
}

/// The failures as they are written.
pub open spec fn failure_texts(failures: Seq<(Seq<char>, i32)>) -> Seq<Seq<char>> {
    failures.map_values(|failure: (Seq<char>, i32)| crate::json::failure_text(failure))
}

/// What is written of a record before the mechanisms of the upper tiers.
pub open spec fn floor_members(applied: crate::applied::Applied) -> Seq<(Seq<char>, Seq<char>)> {
    seq![
        ("rlimitsApplied"@, crate::reader::array_text(string_texts(applied.rlimits_applied))),
        ("noNewPrivs"@, crate::reader::truth_text(applied.no_new_privs)),
        ("seccompFilter"@, crate::reader::truth_text(applied.seccomp_filter)),
        ("blockedSyscalls"@, crate::number::decimal(applied.blocked_syscalls)),
    ]
}

/// A member that is written only where the mechanism was applied.
pub open spec fn with_mechanism(
    members: Seq<(Seq<char>, Seq<char>)>,
    applied: bool,
    key: Seq<char>,
) -> Seq<(Seq<char>, Seq<char>)> {
    if applied {
        members.push((key, "true"@))
    } else {
        members
    }
}

/// What is written of a record.
pub open spec fn applied_members(applied: crate::applied::Applied) -> Seq<
    (Seq<char>, Seq<char>),
> {
    with_mechanism(
        with_mechanism(floor_members(applied), applied.landlock, "landlock"@),
        applied.cgroup_v2,
        "cgroupV2"@,
    ).push(("complete"@, crate::reader::truth_text(applied.failures.len() == 0))).push(
        ("failures"@, crate::reader::array_text(failure_texts(applied.failures))),
    )
}

/// The pieces of text that a record is put together from.
proof fn lemma_applied_literals()
    ensures
        "{\"rlimitsApplied\":["@ == crate::reader::first_key("rlimitsApplied"@) + seq!['['],
        "],\"noNewPrivs\":"@ == seq![']'] + crate::reader::next_key("noNewPrivs"@),
        ",\"seccompFilter\":"@ == crate::reader::next_key("seccompFilter"@),
        ",\"blockedSyscalls\":"@ == crate::reader::next_key("blockedSyscalls"@),
        ",\"landlock\":true"@ == crate::reader::next_key("landlock"@) + "true"@,
        ",\"cgroupV2\":true"@ == crate::reader::next_key("cgroupV2"@) + "true"@,
        ",\"complete\":"@ == crate::reader::next_key("complete"@),
        ",\"failures\":["@ == crate::reader::next_key("failures"@) + seq!['['],
        "]}"@ == seq![']'] + seq!['}'],
{
    reveal_strlit("{\"rlimitsApplied\":[");
    reveal_strlit("],\"noNewPrivs\":");
    reveal_strlit(",\"seccompFilter\":");
    reveal_strlit(",\"blockedSyscalls\":");
    reveal_strlit(",\"landlock\":true");
    reveal_strlit(",\"cgroupV2\":true");
    reveal_strlit(",\"complete\":");
    reveal_strlit(",\"failures\":[");
    reveal_strlit("]}");
    reveal_strlit("true");
    reveal_strlit("rlimitsApplied");
    reveal_strlit("noNewPrivs");
    reveal_strlit("seccompFilter");
    reveal_strlit("blockedSyscalls");
    reveal_strlit("landlock");
    reveal_strlit("cgroupV2");
    reveal_strlit("complete");
    reveal_strlit("failures");
    assert("{\"rlimitsApplied\":["@ =~= crate::reader::first_key("rlimitsApplied"@) + seq!['[']);
    assert("],\"noNewPrivs\":"@ =~= seq![']'] + crate::reader::next_key("noNewPrivs"@));
    assert(",\"seccompFilter\":"@ =~= crate::reader::next_key("seccompFilter"@));
    assert(",\"blockedSyscalls\":"@ =~= crate::reader::next_key("blockedSyscalls"@));
    assert(",\"landlock\":true"@ =~= crate::reader::next_key("landlock"@) + "true"@);
    assert(",\"cgroupV2\":true"@ =~= crate::reader::next_key("cgroupV2"@) + "true"@);
    assert(",\"complete\":"@ =~= crate::reader::next_key("complete"@));
    assert(",\"failures\":["@ =~= crate::reader::next_key("failures"@) + seq!['[']);
    assert("]}"@ =~= seq![']'] + seq!['}']);
}

/// A bracketed list and what follows it, grouped by what they mean.
proof fn lemma_bracketed(
    key: Seq<char>,
    open: Seq<char>,
    inner: Seq<char>,
    close: Seq<char>,
    next: Seq<char>,
)
    ensures
        key + open + inner + (close + next) == key + (open + inner + close) + next,
{
    assert(key + open + inner + (close + next) =~= key + (open + inner + close) + next);
}

/// A mechanism of an upper tier behind the members before it.
proof fn lemma_mechanism(
    members: Seq<(Seq<char>, Seq<char>)>,
    applied: bool,
    field: Seq<char>,
    key: Seq<char>,
)
    requires
        members.len() > 0,
        field == crate::reader::next_key(key) + "true"@,
    ensures
        crate::reader::open_object(members) + crate::json::mechanism_text(applied, field) == crate::reader::open_object(
            with_mechanism(members, applied, key),
        ),
        with_mechanism(members, applied, key).len() > 0,
{
    let text = crate::reader::open_object(members);
    if applied {
        crate::reader::lemma_next_member(Seq::empty(), members, key, "true"@);
        lemma_assoc(text, crate::reader::next_key(key), "true"@);
    } else {
        assert(text + Seq::<char>::empty() =~= text);
    }
}

/// A record is written under its own keys: the limits that were accepted, each claim, and every
/// failure, in order. A mechanism of an upper tier is listed exactly where it was applied.
pub proof fn law_a_record_is_written_under_its_keys(applied: crate::applied::Applied)
    ensures
        crate::json::applied_text(applied) == crate::reader::object_text(applied_members(applied)),
{
    let names = string_texts(applied.rlimits_applied);
    let failures = failure_texts(applied.failures);
    let none = Seq::<char>::empty();
    lemma_applied_literals();
    reveal_strlit("\"");
    assert("\""@ =~= seq!['"']);
    assert(applied.rlimits_applied.map_values(|name: Seq<char>| crate::json::quoted(name))
        =~= names);
    assert(applied.failures.map_values(
        |failure: (Seq<char>, i32)| crate::json::failure_text(failure),
    ) =~= failures);
    lemma_joined(names);
    lemma_joined(failures);
    let list = crate::text::separated(names);
    let named = crate::text::separated(failures);
    let privs = crate::reader::truth_text(applied.no_new_privs);
    let filter = crate::reader::truth_text(applied.seccomp_filter);
    let count = crate::number::decimal(applied.blocked_syscalls);
    let complete = crate::reader::truth_text(applied.failures.len() == 0);
    assert(crate::json::bool_text(applied.no_new_privs) == privs);
    assert(crate::json::bool_text(applied.seccomp_filter) == filter);
    assert(crate::json::bool_text(applied.is_complete()) == complete);
    let m1 = seq![("rlimitsApplied"@, crate::reader::array_text(names))];
    let m2 = m1.push(("noNewPrivs"@, privs));
    let m3 = m2.push(("seccompFilter"@, filter));
    let m4 = m3.push(("blockedSyscalls"@, count));
    lemma_bracketed(
        crate::reader::first_key("rlimitsApplied"@),
        seq!['['],
        list,
        seq![']'],
        crate::reader::next_key("noNewPrivs"@),
    );
    crate::reader::lemma_first_member("rlimitsApplied"@, crate::reader::array_text(names));
    crate::reader::lemma_next_member(none, m1, "noNewPrivs"@, privs);
    crate::reader::lemma_next_member(none, m2, "seccompFilter"@, filter);
    crate::reader::lemma_next_member(none, m3, "blockedSyscalls"@, count);
    assert(m4 =~= floor_members(applied));
    lemma_mechanism(m4, applied.landlock, ",\"landlock\":true"@, "landlock"@);
    let m5 = with_mechanism(m4, applied.landlock, "landlock"@);
    lemma_mechanism(m5, applied.cgroup_v2, ",\"cgroupV2\":true"@, "cgroupV2"@);
    let m6 = with_mechanism(m5, applied.cgroup_v2, "cgroupV2"@);
    let m7 = m6.push(("complete"@, complete));
    let m8 = m7.push(("failures"@, crate::reader::array_text(failures)));
    crate::reader::lemma_next_member(none, m6, "complete"@, complete);
    crate::reader::lemma_next_member(none, m7, "failures"@, crate::reader::array_text(failures));
    crate::reader::lemma_last_member(m8);
    let text = crate::reader::open_object(m7);
    lemma_assoc(text, crate::reader::next_key("failures"@), seq!['[']);
    lemma_bracketed(
        text + crate::reader::next_key("failures"@),
        seq!['['],
        named,
        seq![']'],
        seq!['}'],
    );
}

/// The members of a record can be told apart.
proof fn lemma_applied_members(applied: crate::applied::Applied)
    requires
        forall|i: int|
            0 <= i < applied.rlimits_applied.len() ==> crate::reader::is_plain_key(
                #[trigger] applied.rlimits_applied[i],
            ),
    ensures
        crate::reader::are_members(applied_members(applied)),
{
    let names = string_texts(applied.rlimits_applied);
    let failures = failure_texts(applied.failures);
    assert forall|i: int| 0 <= i < names.len() implies crate::reader::skips(#[trigger] names[i], 0) by {
        assert(crate::reader::is_plain_key(applied.rlimits_applied[i]));
        crate::reader::lemma_skips_quoted_plain(applied.rlimits_applied[i]);
        crate::reader::lemma_skips_string(applied.rlimits_applied[i]);
    }
    assert forall|i: int| 0 <= i < failures.len() implies crate::reader::skips(#[trigger] failures[i], 0) by {
        law_a_failure_is_written_with_its_errno(applied.failures[i]);
    }
    crate::reader::lemma_skips_array(names);
    crate::reader::lemma_skips_array(failures);
    crate::reader::lemma_skips_word(applied.no_new_privs, None);
    crate::reader::lemma_skips_word(applied.seccomp_filter, None);
    crate::reader::lemma_skips_word(applied.failures.len() == 0, None);
    crate::reader::lemma_skips_word(true, None);
    crate::reader::lemma_skips_decimal(applied.blocked_syscalls);
    reveal_strlit("rlimitsApplied");
    reveal_strlit("noNewPrivs");
    reveal_strlit("seccompFilter");
    reveal_strlit("blockedSyscalls");
    reveal_strlit("landlock");
    reveal_strlit("cgroupV2");
    reveal_strlit("complete");
    reveal_strlit("failures");
    let members = applied_members(applied);
    assert(crate::reader::truth_text(true) == "true"@);
    assert forall|j: int| 0 <= j < members.len() implies crate::reader::is_plain_key((#[trigger] members[j]).0)
        && crate::reader::skips(members[j].1, 0) by {}
}

/// A reader of a record finds each claim under its own key, the mechanisms of the upper tiers only
/// where they were applied, and the lists of what was accepted and of what was refused.
pub proof fn law_a_reader_finds_each_claim(applied: crate::applied::Applied)
    requires
        forall|i: int|
            0 <= i < applied.rlimits_applied.len() ==> crate::reader::is_plain_key(
                #[trigger] applied.rlimits_applied[i],
            ),
    ensures
        ({
            let text = crate::json::applied_text(applied);
            &&& crate::reader::skips(text, 0)
            &&& crate::reader::value_of(text, "rlimitsApplied"@) == Some(
                crate::reader::array_text(string_texts(applied.rlimits_applied)),
            )
            &&& crate::reader::value_of(text, "noNewPrivs"@) == Some(crate::reader::truth_text(applied.no_new_privs))
            &&& crate::reader::value_of(text, "seccompFilter"@) == Some(crate::reader::truth_text(applied.seccomp_filter))
            &&& crate::reader::value_of(text, "blockedSyscalls"@) == Some(
                crate::number::decimal(applied.blocked_syscalls),
            )
            &&& crate::reader::value_of(text, "landlock"@) == (if applied.landlock {
                Some("true"@)
            } else {
                None
            })
            &&& crate::reader::value_of(text, "cgroupV2"@) == (if applied.cgroup_v2 {
                Some("true"@)
            } else {
                None
            })
            &&& crate::reader::value_of(text, "complete"@) == Some(
                crate::reader::truth_text(applied.failures.len() == 0),
            )
            &&& crate::reader::value_of(text, "failures"@) == Some(
                crate::reader::array_text(failure_texts(applied.failures)),
            )
        }),
{
    let members = applied_members(applied);
    law_a_record_is_written_under_its_keys(applied);
    lemma_applied_members(applied);
    crate::reader::lemma_skips_object(members);
    reveal_strlit("rlimitsApplied");
    reveal_strlit("noNewPrivs");
    reveal_strlit("seccompFilter");
    reveal_strlit("blockedSyscalls");
    reveal_strlit("landlock");
    reveal_strlit("cgroupV2");
    reveal_strlit("complete");
    reveal_strlit("failures");
    assert("rlimitsApplied"@.len() == 14);
    assert("noNewPrivs"@.len() == 10);
    assert("seccompFilter"@.len() == 13);
    assert("blockedSyscalls"@.len() == 15);
    assert("landlock"@.len() == 8 && "landlock"@[0] == 'l');
    assert("cgroupV2"@.len() == 8 && "cgroupV2"@[0] == 'c' && "cgroupV2"@[1] == 'g');
    assert("complete"@.len() == 8 && "complete"@[0] == 'c' && "complete"@[1] == 'o');
    assert("failures"@.len() == 8 && "failures"@[0] == 'f');
    let landlock: int = if applied.landlock {
        4
    } else {
        -1
    };
    let group: int = if !applied.cgroup_v2 {
        -1
    } else if applied.landlock {
        5
    } else {
        4
    };
    crate::reader::law_a_reader_finds_what_was_written(members, "rlimitsApplied"@, 0);
    crate::reader::law_a_reader_finds_what_was_written(members, "noNewPrivs"@, 1);
    crate::reader::law_a_reader_finds_what_was_written(members, "seccompFilter"@, 2);
    crate::reader::law_a_reader_finds_what_was_written(members, "blockedSyscalls"@, 3);
    crate::reader::law_a_reader_finds_what_was_written(members, "landlock"@, landlock);
    crate::reader::law_a_reader_finds_what_was_written(members, "cgroupV2"@, group);
    crate::reader::law_a_reader_finds_what_was_written(members, "complete"@, members.len() - 2);
    crate::reader::law_a_reader_finds_what_was_written(members, "failures"@, members.len() - 1);
}

/// What is written of what was enforced.
pub open spec fn enforced_members(
    limits: IsolationLimits,
    applied: crate::applied::Applied,
) -> Seq<(Seq<char>, Seq<char>)> {
    seq![
        ("sandbox"@, crate::reader::string_text("APPLIED"@)),
        ("tier"@, crate::number::decimal(applied.highest_tier() as nat)),
        ("tierName"@, crate::reader::string_text(crate::support::name_of_tier(applied.highest_tier()))),
        ("limits"@, crate::json::limits_text(limits)),
        ("applied"@, crate::json::applied_text(applied)),
    ]
}

/// What was enforced is written under its own keys: the tier that was applied, the limits, and the
/// record.
pub proof fn law_what_was_enforced_is_written_under_its_keys(
    limits: IsolationLimits,
    applied: crate::applied::Applied,
)
    ensures
        crate::json::applied_report_text(limits, applied) == crate::reader::object_text(
            enforced_members(limits, applied),
        ),
{
    reveal_strlit("{\"sandbox\":\"APPLIED\",\"tier\":");
    reveal_strlit(",\"tierName\":\"");
    reveal_strlit("\",\"limits\":");
    reveal_strlit(",\"applied\":");
    reveal_strlit("}");
    reveal_strlit("APPLIED");
    reveal_strlit("sandbox");
    reveal_strlit("tier");
    reveal_strlit("tierName");
    reveal_strlit("limits");
    reveal_strlit("applied");
    let state = crate::reader::string_text("APPLIED"@);
    let tier = crate::number::decimal(applied.highest_tier() as nat);
    let name = crate::support::name_of_tier(applied.highest_tier());
    let numbers = crate::json::limits_text(limits);
    let record = crate::json::applied_text(applied);
    let none = Seq::<char>::empty();
    assert("{\"sandbox\":\"APPLIED\",\"tier\":"@ =~= crate::reader::first_key("sandbox"@) + state
        + crate::reader::next_key("tier"@));
    assert(",\"tierName\":\""@ =~= crate::reader::next_key("tierName"@) + seq!['"']);
    assert("\",\"limits\":"@ =~= seq!['"'] + crate::reader::next_key("limits"@));
    assert(",\"applied\":"@ =~= crate::reader::next_key("applied"@));
    assert("}"@ =~= seq!['}']);
    let m1 = seq![("sandbox"@, state)];
    let m2 = m1.push(("tier"@, tier));
    let m3 = m2.push(("tierName"@, crate::reader::string_text(name)));
    let m4 = m3.push(("limits"@, numbers));
    let m5 = m4.push(("applied"@, record));
    crate::reader::lemma_first_member("sandbox"@, state);
    crate::reader::lemma_next_member(none, m1, "tier"@, tier);
    crate::reader::lemma_next_member(none, m2, "tierName"@, crate::reader::string_text(name));
    crate::reader::lemma_next_member(none, m3, "limits"@, numbers);
    crate::reader::lemma_next_member(none, m4, "applied"@, record);
    crate::reader::lemma_last_member(m5);
    lemma_regroup(
        crate::reader::open_object(m2),
        crate::reader::next_key("tierName"@),
        seq!['"'],
        name,
        crate::reader::next_key("limits"@),
        none,
    );
    assert(m5 =~= enforced_members(limits, applied));
}

/// A reader of what was enforced finds the tier that was applied with its name, the limits and the
/// record.
pub proof fn law_a_reader_finds_what_was_enforced(
    limits: IsolationLimits,
    applied: crate::applied::Applied,
)
    requires
        forall|i: int|
            0 <= i < applied.rlimits_applied.len() ==> crate::reader::is_plain_key(
                #[trigger] applied.rlimits_applied[i],
            ),
    ensures
        ({
            let report = crate::json::applied_report_text(limits, applied);
            &&& crate::reader::value_of(report, "sandbox"@) == Some(crate::reader::string_text("APPLIED"@))
            &&& crate::reader::value_of(report, "tier"@) == Some(
                crate::number::decimal(applied.highest_tier() as nat),
            )
            &&& crate::reader::value_of(report, "tierName"@) == Some(
                crate::reader::string_text(crate::support::name_of_tier(applied.highest_tier())),
            )
            &&& crate::reader::value_of(report, "limits"@) == Some(crate::json::limits_text(limits))
            &&& crate::reader::value_of(report, "applied"@) == Some(crate::json::applied_text(applied))
        }),
{
    let members = enforced_members(limits, applied);
    law_what_was_enforced_is_written_under_its_keys(limits, applied);
    law_limits_are_written_under_their_keys(limits);
    law_a_reader_finds_each_claim(applied);
    lemma_tier_name(applied.highest_tier());
    crate::reader::lemma_skips_decimal(applied.highest_tier() as nat);
    reveal_strlit("APPLIED");
    crate::reader::lemma_skips_quoted_plain("APPLIED"@);
    crate::reader::lemma_skips_string("APPLIED"@);
    reveal_strlit("sandbox");
    reveal_strlit("tier");
    reveal_strlit("tierName");
    reveal_strlit("limits");
    reveal_strlit("applied");
    assert("sandbox"@.len() == 7 && "sandbox"@[0] == 's');
    assert("tier"@.len() == 4);
    assert("tierName"@.len() == 8);
    assert("limits"@.len() == 6);
    assert("applied"@.len() == 7 && "applied"@[0] == 'a');
    assert(crate::reader::are_members(members));
    crate::reader::law_a_reader_finds_what_was_written(members, "sandbox"@, 0);
    crate::reader::law_a_reader_finds_what_was_written(members, "tier"@, 1);
    crate::reader::law_a_reader_finds_what_was_written(members, "tierName"@, 2);
    crate::reader::law_a_reader_finds_what_was_written(members, "limits"@, 3);
    crate::reader::law_a_reader_finds_what_was_written(members, "applied"@, 4);
}

/// A character that JSON does not demand to be escaped stands for itself; the others are written as
/// JSON has them; and a text is written character by character.
pub proof fn law_only_what_json_demands_is_escaped(s: Seq<char>, c: char)
    ensures
        crate::json::escaped(Seq::empty()) == Seq::<char>::empty(),
        crate::json::escaped(s.push(c)) == crate::json::escaped(s) + (if c == '"' {
            seq!['\\', '"']
        } else if c == '\\' {
            seq!['\\', '\\']
        } else if c == '\n' {
            seq!['\\', 'n']
        } else if c == '\r' {
            seq!['\\', 'r']
        } else if c == '\t' {
            seq!['\\', 't']
        } else if (c as nat) < 0x10 {
            seq!['\\', 'u', '0', '0', '0', crate::json::hex_char(c as nat)]
        } else if (c as nat) < 0x20 {
            seq!['\\', 'u', '0', '0', '1', crate::json::hex_char((c as nat - 16) as nat)]
        } else {
            seq![c]
        }),
        forall|d: nat|
            d < 16 ==> crate::json::hex_value(#[trigger] crate::json::hex_char(d)) == Some(d),
{
    let longer = s.push(c);
    assert(longer.drop_last() =~= s);
    if (c as nat) < 0x20 {
        assert(crate::json::hex_char(0) == '0');
        assert(crate::json::hex_char(1) == '1');
        if (c as nat) < 0x10 {
            assert(c as nat / 16 == 0 && c as nat % 16 == c as nat);
        } else {
            assert(c as nat / 16 == 1 && c as nat % 16 == c as nat - 16);
        }
    }
}

/// Hexadecimal digits are `0` to `9` and `a` to `f`.
pub proof fn law_there_are_sixteen_hexadecimal_digits(c: char, d: nat)
    ensures
        crate::json::hex_value(c) == Some(d) <==> ('0' <= c <= '9' && d == c as int - 48) || ('a'
            <= c <= 'f' && d == c as int - 87),
{
}

/// The small parts: a truth is `true` or `false`, a limit is a key in quotes with its number or
/// `null`, and items are joined by commas.
pub proof fn law_the_small_parts_are_json(
    b: bool,
    key: Seq<char>,
    value: Option<u64>,
    items: Seq<Seq<char>>,
)
    ensures
        crate::json::bool_text(b) == crate::reader::truth_text(b),
        crate::json::value_text(value) == crate::reader::optional_text(value),
        crate::json::limit_text(key, value) == seq!['"'] + key + seq!['"', ':']
            + crate::reader::optional_text(value),
        crate::json::quoted(key) == crate::reader::string_text(key),
        crate::json::joined(items) == crate::text::separated(items),
{
    reveal_strlit("\"");
    assert("\""@ =~= seq!['"']);
    lemma_limit_text(key, value);
    lemma_joined(items);
}

} // verus!
