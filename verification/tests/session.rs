use noesar_sandbox::limits::Dimension;
use noesar_sandbox::platform::{Architecture, Platform, System};
use noesar_sandbox::seccomp::seccomp_filter;
use noesar_sandbox::session::{KernelCall, Plan, Progress, Session, DENIED_ACCESSES};
use noesar_sandbox::support::Reply;
use noesar_sandbox::{apply, AppliedIsolation, IsolationFailure, IsolationLimits, IsolationSupport};

fn linux() -> Platform {
    Platform { system: System::Linux, architecture: Architecture::X86_64 }
}

fn full_support() -> IsolationSupport {
    IsolationSupport {
        rlimit: true,
        no_new_privs: true,
        seccomp_filter: true,
        landlock: false,
        cgroup_v2_writable: false,
        seccomp_unsupported_arch: false,
    }
}

fn every_tier() -> IsolationSupport {
    IsolationSupport { landlock: true, cgroup_v2_writable: true, ..full_support() }
}

fn all_limits() -> IsolationLimits {
    IsolationLimits {
        memory_bytes: Some(1),
        cpu_seconds: Some(2),
        open_files: Some(3),
        processes: Some(4),
        file_size_bytes: Some(5),
        core_dump_bytes: Some(6),
    }
}

/// Carries an application to its end, answering each call with `kernel`.
fn run(mut progress: Progress, kernel: impl Fn(&KernelCall) -> Reply) -> (Vec<KernelCall>, AppliedIsolation) {
    let mut calls = vec![];
    loop {
        match progress {
            Progress::Finished(applied) => return (calls, applied),
            Progress::Pending(session) => {
                let call = session.call();
                let reply = kernel(&call);
                calls.push(call);
                progress = session.record(reply);
            }
        }
    }
}

fn accept(_: &KernelCall) -> Reply {
    Reply { status: 0, errno: 0 }
}

fn refuse_filter(call: &KernelCall) -> Reply {
    match call {
        KernelCall::InstallFilter { .. } => Reply { status: -1, errno: 13 },
        _ => Reply { status: 0, errno: 0 },
    }
}

fn failure(mechanism: &str, errno: i32) -> IsolationFailure {
    IsolationFailure { mechanism: mechanism.to_string(), errno }
}

#[test]
fn everything_accepted_is_everything_claimed() {
    let (calls, applied) = run(apply(&all_limits(), &full_support(), linux()), accept);
    assert_eq!(calls.len(), 8);
    assert_eq!(
        applied.rlimits_applied,
        vec!["RLIMIT_AS", "RLIMIT_CPU", "RLIMIT_NOFILE", "RLIMIT_NPROC", "RLIMIT_FSIZE", "RLIMIT_CORE"]
    );
    assert!(applied.no_new_privs && applied.seccomp_filter && applied.complete());
    assert_eq!(applied.blocked_syscalls, 18);
    assert_eq!(applied.failures, vec![]);
}

#[test]
fn calls_come_in_order_with_equal_soft_and_hard_limits() {
    let (calls, _) = run(apply(&all_limits(), &full_support(), linux()), accept);
    let expected = [
        (Dimension::Memory, 1),
        (Dimension::Cpu, 2),
        (Dimension::OpenFiles, 3),
        (Dimension::Processes, 4),
        (Dimension::FileSize, 5),
        (Dimension::CoreDump, 6),
    ];
    for (i, (dimension, value)) in expected.into_iter().enumerate() {
        assert_eq!(calls[i], KernelCall::SetRlimit { dimension, soft: value, hard: value });
    }
    assert_eq!(calls[6], KernelCall::SetNoNewPrivs);
    assert!(matches!(&calls[7], KernelCall::InstallFilter { program } if program.len() == 23));
}

#[test]
fn core_dumps_are_refused_unless_the_token_allows_them() {
    let none = IsolationLimits::default();
    let (calls, applied) = run(apply(&none, &full_support(), linux()), accept);
    assert_eq!(calls[0], KernelCall::SetRlimit { dimension: Dimension::CoreDump, soft: 0, hard: 0 });
    assert_eq!(calls.len(), 3);
    assert_eq!(applied.rlimits_applied, vec!["RLIMIT_CORE"]);
}

#[test]
fn a_refused_limit_is_named_with_its_errno() {
    let kernel = |call: &KernelCall| match call {
        KernelCall::SetRlimit { dimension: Dimension::Cpu, .. } => Reply { status: -1, errno: 1 },
        _ => Reply { status: 0, errno: 0 },
    };
    let (calls, applied) = run(apply(&all_limits(), &full_support(), linux()), kernel);
    // The rest is still applied, and nothing refused is claimed.
    assert_eq!(calls.len(), 8);
    assert_eq!(applied.failures, vec![failure("RLIMIT_CPU", 1)]);
    assert!(!applied.rlimits_applied.contains(&"RLIMIT_CPU"));
    assert_eq!(applied.rlimits_applied.len(), 5);
    assert!(!applied.complete());
}

#[test]
fn no_filter_without_no_new_privs() {
    let kernel = |call: &KernelCall| match call {
        KernelCall::SetNoNewPrivs => Reply { status: -1, errno: 22 },
        _ => Reply { status: 0, errno: 0 },
    };
    let (calls, applied) = run(apply(&all_limits(), &full_support(), linux()), kernel);
    assert_eq!(calls.last(), Some(&KernelCall::SetNoNewPrivs));
    assert!(!applied.no_new_privs && !applied.seccomp_filter);
    assert_eq!(applied.blocked_syscalls, 0);
    assert_eq!(applied.failures, vec![failure("NO_NEW_PRIVS", 22), failure("SECCOMP_FILTER", 22)]);
}

#[test]
fn without_no_new_privs_what_depends_on_it_is_named() {
    let kernel = |call: &KernelCall| match call {
        KernelCall::SetNoNewPrivs => Reply { status: -1, errno: 22 },
        _ => Reply { status: 0, errno: 0 },
    };
    let (calls, applied) = run(apply(&all_limits(), &every_tier(), linux()), kernel);
    // The control group needs no privileges to be given up, and is joined all the same.
    assert_eq!(calls.len(), 9);
    assert_eq!(calls[8], KernelCall::SetNoNewPrivs);
    assert!(applied.cgroup_v2 && !applied.landlock && !applied.seccomp_filter);
    assert_eq!(
        applied.failures,
        vec![failure("NO_NEW_PRIVS", 22), failure("LANDLOCK", 22), failure("SECCOMP_FILTER", 22)]
    );
    // A host that offers neither has nothing more to name.
    let floor = IsolationSupport { seccomp_filter: false, ..full_support() };
    let (_, applied) = run(apply(&all_limits(), &floor, linux()), kernel);
    assert_eq!(applied.failures, vec![failure("NO_NEW_PRIVS", 22)]);
}

#[test]
fn every_tier_that_is_offered_is_applied() {
    let (calls, applied) = run(apply(&all_limits(), &every_tier(), linux()), accept);
    assert_eq!(calls.len(), 11);
    assert_eq!(calls[0], KernelCall::JoinControlGroup);
    assert_eq!(calls[1], KernelCall::OpenRuleset { denied: DENIED_ACCESSES });
    assert_eq!(calls[8], KernelCall::SetNoNewPrivs);
    assert_eq!(calls[9], KernelCall::ConfineFilesystem);
    assert!(matches!(calls[10], KernelCall::InstallFilter { .. }));
    assert!(applied.cgroup_v2 && applied.landlock && applied.seccomp_filter && applied.complete());
    // Making a character device and making a block device.
    assert_eq!(DENIED_ACCESSES, (1 << 6) | (1 << 11));
}

#[test]
fn a_low_limit_on_open_files_does_not_stand_in_the_way() {
    // A kernel that has no descriptor to give once the limit is set.
    let limited = std::cell::Cell::new(false);
    let kernel = |call: &KernelCall| match call {
        KernelCall::SetRlimit { dimension: Dimension::OpenFiles, .. } => {
            limited.set(true);
            Reply { status: 0, errno: 0 }
        }
        KernelCall::OpenRuleset { .. } | KernelCall::JoinControlGroup if limited.get() => {
            Reply { status: -1, errno: 24 }
        }
        _ => Reply { status: 0, errno: 0 },
    };
    let limits = IsolationLimits { open_files: Some(3), ..Default::default() };
    let (calls, applied) = run(apply(&limits, &every_tier(), linux()), kernel);
    assert_eq!(calls.len(), 7);
    assert!(limited.get() && applied.complete());
}

#[test]
fn landlock_alone_is_applied() {
    let support = IsolationSupport { landlock: true, seccomp_filter: false, ..full_support() };
    let (calls, applied) = run(apply(&all_limits(), &support, linux()), accept);
    assert_eq!(calls.len(), 9);
    assert_eq!(calls[0], KernelCall::OpenRuleset { denied: DENIED_ACCESSES });
    assert_eq!(calls[8], KernelCall::ConfineFilesystem);
    assert!(applied.landlock && !applied.seccomp_filter && applied.complete());
}

#[test]
fn a_refused_upper_tier_is_named_and_not_claimed() {
    let confine = |call: &KernelCall| match call {
        KernelCall::ConfineFilesystem => Reply { status: -1, errno: 95 },
        _ => Reply { status: 0, errno: 0 },
    };
    let (calls, applied) = run(apply(&all_limits(), &every_tier(), linux()), confine);
    assert_eq!(calls.len(), 11);
    assert!(!applied.landlock && applied.cgroup_v2 && applied.seccomp_filter);
    assert_eq!(applied.failures, vec![failure("LANDLOCK", 95)]);
    // Without a ruleset there is nothing to put in force.
    let ruleset = |call: &KernelCall| match call {
        KernelCall::OpenRuleset { .. } => Reply { status: -1, errno: 22 },
        _ => Reply { status: 0, errno: 0 },
    };
    let (calls, applied) = run(apply(&all_limits(), &every_tier(), linux()), ruleset);
    assert_eq!(calls.len(), 10);
    assert!(!calls.contains(&KernelCall::ConfineFilesystem));
    assert!(!applied.landlock && applied.seccomp_filter);
    assert_eq!(applied.failures, vec![failure("LANDLOCK", 22)]);
    let group = |call: &KernelCall| match call {
        KernelCall::JoinControlGroup => Reply { status: -1, errno: 30 },
        _ => Reply { status: 0, errno: 0 },
    };
    let (_, applied) = run(apply(&all_limits(), &every_tier(), linux()), group);
    assert!(!applied.cgroup_v2 && applied.landlock && applied.seccomp_filter);
    assert_eq!(applied.failures, vec![failure("CGROUP_V2", 30)]);
}

#[test]
fn a_missing_filter_is_named_last() {
    let platform = Platform { system: System::Linux, architecture: Architecture::Other };
    let refuse = |call: &KernelCall| match call {
        KernelCall::SetNoNewPrivs | KernelCall::OpenRuleset { .. } => Reply { status: 0, errno: 0 },
        _ => Reply { status: -1, errno: 1 },
    };
    let none = IsolationLimits::default();
    let (_, applied) = run(apply(&none, &every_tier(), platform), refuse);
    assert_eq!(
        applied.failures,
        vec![
            failure("CGROUP_V2", 1),
            failure("RLIMIT_CORE", 1),
            failure("LANDLOCK", 1),
            failure("SECCOMP_FILTER", libc::ENOSYS),
        ]
    );
    let all_refused = |_: &KernelCall| Reply { status: -1, errno: 1 };
    for support in [full_support(), every_tier()] {
        for platform in [linux(), platform] {
            for kernel in [accept, refuse_filter, all_refused] {
                let (_, applied) = run(apply(&all_limits(), &support, platform), kernel);
                if !applied.seccomp_filter {
                    assert_eq!(applied.failures.last().unwrap().mechanism, "SECCOMP_FILTER");
                }
            }
        }
    }
}

#[test]
fn another_table_than_the_declared_one_gives_no_filter() {
    // One of the two is not what the library was built for.
    let mut without = 0;
    for architecture in [Architecture::X86_64, Architecture::Aarch64] {
        let platform = Platform { system: System::Linux, architecture };
        let (_, applied) = run(apply(&all_limits(), &full_support(), platform), accept);
        if !applied.seccomp_filter {
            without += 1;
            assert_eq!(applied.failures, vec![failure("SECCOMP_FILTER", libc::ENOSYS)]);
        }
    }
    assert!(without >= 1);
}

#[test]
fn the_tier_is_the_highest_that_was_applied() {
    let mut applied = AppliedIsolation::default();
    assert_eq!((applied.tier(), applied.tier_name()), (255, "NONE"));
    applied.no_new_privs = true;
    assert_eq!((applied.tier(), applied.tier_name()), (255, "NONE"));
    applied.rlimits_applied.push("RLIMIT_CORE");
    assert_eq!((applied.tier(), applied.tier_name()), (0, "POSIX_RLIMIT"));
    applied.seccomp_filter = true;
    assert_eq!((applied.tier(), applied.tier_name()), (1, "SECCOMP_FILTER"));
    applied.landlock = true;
    assert_eq!((applied.tier(), applied.tier_name()), (2, "LANDLOCK"));
    applied.cgroup_v2 = true;
    assert_eq!((applied.tier(), applied.tier_name()), (3, "CGROUP_V2"));
}

#[test]
fn a_tier_that_is_offered_and_refused_is_not_reported() {
    let refuse = |_: &KernelCall| Reply { status: -1, errno: 1 };
    let (_, applied) = run(apply(&all_limits(), &every_tier(), linux()), refuse);
    assert_eq!(applied.tier(), 255);
    let (_, applied) = run(apply(&all_limits(), &full_support(), linux()), refuse_filter);
    assert_eq!(applied.tier(), 0);
}

#[test]
fn a_refused_filter_is_not_claimed() {
    let (_, applied) = run(apply(&all_limits(), &full_support(), linux()), refuse_filter);
    assert!(applied.no_new_privs && !applied.seccomp_filter);
    assert_eq!(applied.blocked_syscalls, 0);
    assert_eq!(applied.failures, vec![failure("SECCOMP_FILTER", 13)]);
}

#[test]
fn a_host_without_filters_is_complete_without_one() {
    let support = IsolationSupport { seccomp_filter: false, ..full_support() };
    let (calls, applied) = run(apply(&all_limits(), &support, linux()), accept);
    assert_eq!(calls.len(), 7);
    assert!(applied.complete() && !applied.seccomp_filter);
}

#[test]
fn a_host_without_rlimits_is_never_complete() {
    let support = IsolationSupport { rlimit: false, ..full_support() };
    let (calls, applied) = run(apply(&all_limits(), &support, linux()), accept);
    assert_eq!(calls.len(), 2);
    assert_eq!(applied.rlimits_applied, Vec::<&str>::new());
    assert_eq!(applied.failures, vec![failure("RLIMIT", libc::ENOSYS)]);
    assert!(applied.no_new_privs && applied.seccomp_filter && !applied.complete());
}

#[test]
fn an_unknown_architecture_reports_the_missing_filter() {
    let platform = Platform { system: System::Linux, architecture: Architecture::Other };
    let (calls, applied) = run(apply(&all_limits(), &full_support(), platform), accept);
    assert_eq!(calls.len(), 7);
    assert_eq!(applied.failures, vec![failure("SECCOMP_FILTER", libc::ENOSYS)]);
}

#[test]
fn another_system_applies_nothing() {
    for system in [System::OtherUnix, System::Other] {
        let platform = Platform { system, architecture: Architecture::X86_64 };
        let (calls, applied) = run(apply(&all_limits(), &full_support(), platform), accept);
        assert_eq!(calls.len(), 0);
        let expected = AppliedIsolation { failures: vec![failure("PLATFORM", 0)], ..Default::default() };
        assert_eq!(applied, expected);
    }
}

#[test]
fn every_combination_claims_exactly_what_was_accepted() {
    // Each of the eleven calls accepted or refused: the group, the ruleset, six limits, the
    // privileges, and then what of the restriction and the filter is asked for.
    for mask in 0..2048u32 {
        let plan = Plan {
            limits: all_limits(),
            support: every_tier(),
            filter: seccomp_filter(1, &vec![("a", 1), ("b", 2)]),
            enosys: 38,
        };
        let mut progress = Progress::Pending(Session::begin(plan));
        let mut n = 0;
        let applied = loop {
            match progress {
                Progress::Finished(applied) => break applied,
                Progress::Pending(session) => {
                    let status = if mask & (1 << n) == 0 { 0 } else { -1 };
                    progress = session.record(Reply { status, errno: 100 + n });
                    n += 1;
                }
            }
        };
        let accepted = |i: i32| mask & (1 << i) == 0;
        let opened = accepted(1);
        let privs = accepted(8);
        let filter_call = if opened { 10 } else { 9 };
        assert_eq!(n, if privs { filter_call + 1 } else { 9 });
        let mut refused: Vec<i32> = vec![];
        for i in 0..n {
            if !accepted(i) {
                // Refused privileges also stand for an opened ruleset and for the filter.
                for _ in 0..(if i == 8 { 2 + opened as i32 } else { 1 }) {
                    refused.push(100 + i);
                }
            }
        }
        let named: Vec<i32> = applied.failures.iter().map(|f| f.errno).collect();
        assert_eq!(named, refused);
        assert_eq!(applied.complete(), refused.is_empty());
        assert_eq!(applied.rlimits_applied.len(), 6 - (mask & 0xfc).count_ones() as usize);
        assert_eq!(applied.no_new_privs, privs);
        assert_eq!(applied.cgroup_v2, accepted(0));
        assert_eq!(applied.landlock, opened && privs && accepted(9));
        assert_eq!(applied.seccomp_filter, privs && accepted(filter_call));
        assert_eq!(applied.blocked_syscalls, if applied.seccomp_filter { 2 } else { 0 });
        let names: Vec<&str> = applied.failures.iter().map(|f| f.mechanism.as_str()).collect();
        assert_eq!(names.contains(&"CGROUP_V2"), !applied.cgroup_v2);
        assert_eq!(names.contains(&"LANDLOCK"), !applied.landlock);
        assert_eq!(names.contains(&"SECCOMP_FILTER"), !applied.seccomp_filter);
    }
}

#[test]
fn a_failure_is_described_with_its_errno() {
    assert_eq!(failure("RLIMIT_AS", 1).describe(), "RLIMIT_AS=errno:1");
    assert_eq!(failure("X", -2147483648).describe(), "X=errno:-2147483648");
    assert_eq!(IsolationFailure::new("Y", 0).describe(), "Y=errno:0");
}
