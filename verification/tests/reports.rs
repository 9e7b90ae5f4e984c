use noesar_sandbox::json::{
    applied_json, applied_report, detect_report, escape, limit_json, limits_json, refusal_json,
};
use noesar_sandbox::{AppliedIsolation, IsolationFailure, IsolationLimits, IsolationSupport};

#[test]
fn escaping_follows_json() {
    assert_eq!(escape("plain \u{e9}"), "plain \u{e9}");
    assert_eq!(escape("a\"b\\c\nd\re\tf"), "a\\\"b\\\\c\\nd\\re\\tf");
    for code in 0..0x20u8 {
        let c = code as char;
        if c != '\n' && c != '\r' && c != '\t' {
            assert_eq!(escape(&c.to_string()), format!("\\u{:04x}", code));
        }
    }
    assert_eq!(escape("\u{7f} "), "\u{7f} ");
    assert_eq!(escape(""), "");
}

#[test]
fn escaped_text_stays_on_one_line() {
    let all: String = (0..0x80u8).map(|b| b as char).collect();
    assert!(escape(&all).chars().all(|c| c >= ' '));
}

#[test]
fn a_limit_is_a_number_or_null() {
    assert_eq!(limit_json("cpuSeconds", Some(5)), "\"cpuSeconds\":5");
    assert_eq!(limit_json("cpuSeconds", None), "\"cpuSeconds\":null");
}

#[test]
fn limits_are_written_in_order() {
    let limits = IsolationLimits { memory_bytes: Some(64), core_dump_bytes: Some(0), ..Default::default() };
    assert_eq!(
        limits_json(&limits),
        "{\"memoryBytes\":64,\"cpuSeconds\":null,\"openFiles\":null,\"processes\":null,\"fileSizeBytes\":null,\"coreDumpBytes\":0}"
    );
}

#[test]
fn what_was_applied_is_written_with_its_failures() {
    let applied = AppliedIsolation {
        rlimits_applied: vec!["RLIMIT_AS", "RLIMIT_CORE"],
        no_new_privs: true,
        seccomp_filter: false,
        blocked_syscalls: 0,
        landlock: false,
        cgroup_v2: false,
        failures: vec![
            IsolationFailure { mechanism: "SECCOMP_FILTER".to_string(), errno: 38 },
            IsolationFailure { mechanism: "a\"b".to_string(), errno: -1 },
        ],
    };
    assert_eq!(
        applied_json(&applied),
        "{\"rlimitsApplied\":[\"RLIMIT_AS\",\"RLIMIT_CORE\"],\"noNewPrivs\":true,\"seccompFilter\":false,\"blockedSyscalls\":0,\"complete\":false,\"failures\":[{\"mechanism\":\"SECCOMP_FILTER\",\"errno\":38},{\"mechanism\":\"a\\\"b\",\"errno\":-1}]}"
    );
    assert_eq!(
        applied_json(&AppliedIsolation::default()),
        "{\"rlimitsApplied\":[],\"noNewPrivs\":false,\"seccompFilter\":false,\"blockedSyscalls\":0,\"complete\":true,\"failures\":[]}"
    );
}

#[test]
fn upper_tiers_are_written_where_they_were_applied() {
    let applied = AppliedIsolation { landlock: true, cgroup_v2: true, ..Default::default() };
    assert_eq!(
        applied_json(&applied),
        "{\"rlimitsApplied\":[],\"noNewPrivs\":false,\"seccompFilter\":false,\"blockedSyscalls\":0,\"landlock\":true,\"cgroupV2\":true,\"complete\":true,\"failures\":[]}"
    );
}

#[test]
fn a_refusal_is_one_json_line() {
    assert_eq!(
        refusal_json("no `x`:\n\"y\""),
        "{\"sandbox\":\"REFUSED\",\"reason\":\"no `x`:\\n\\\"y\\\"\"}"
    );
}

#[test]
fn reports_name_the_tier() {
    let limits = IsolationLimits::default();
    let filtered = AppliedIsolation {
        rlimits_applied: vec!["RLIMIT_CORE"],
        no_new_privs: true,
        seccomp_filter: true,
        blocked_syscalls: 18,
        ..Default::default()
    };
    let floor = AppliedIsolation { seccomp_filter: false, blocked_syscalls: 0, ..filtered.clone() };
    let cases = [
        (AppliedIsolation::default(), "255", "NONE"),
        (floor, "0", "POSIX_RLIMIT"),
        (filtered.clone(), "1", "SECCOMP_FILTER"),
        (AppliedIsolation { landlock: true, ..filtered.clone() }, "2", "LANDLOCK"),
        (AppliedIsolation { cgroup_v2: true, ..filtered }, "3", "CGROUP_V2"),
    ];
    for (applied, tier, name) in cases {
        assert_eq!(
            applied_report(&limits, &applied),
            format!(
                "{{\"sandbox\":\"APPLIED\",\"tier\":{tier},\"tierName\":\"{name}\",\"limits\":{},\"applied\":{}}}",
                limits_json(&limits),
                applied_json(&applied)
            )
        );
    }
    assert_eq!(
        detect_report(&IsolationSupport::default(), &limits, 18),
        format!(
            "{{\"tier\":255,\"tierName\":\"NONE\",\"support\":{{\"rlimit\":false,\"noNewPrivs\":false,\"seccompFilter\":false,\"landlock\":false,\"cgroupV2Writable\":false,\"seccompUnsupportedArch\":false}},\"containerCeiling\":{},\"deniedSyscalls\":18}}",
            limits_json(&limits)
        )
    );
}
