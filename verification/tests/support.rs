use noesar_sandbox::ceiling::{
    cgroup_memory_candidates, cgroup_memory_max, current_limit, read_memory_limit,
    CeilingReadings, RlimitReading,
};
use noesar_sandbox::platform::{name_syscalls, Architecture, Platform, System};
use noesar_sandbox::support::{
    cgroup_v2_candidates, cgroup_v2_writable, is_open, HostProbes, Reply,
};
use noesar_sandbox::{
    container_ceiling, denied_syscalls, detect, IsolationLimits, IsolationSupport,
};

fn linux(architecture: Architecture) -> Platform {
    Platform { system: System::Linux, architecture }
}

fn architectures() -> Vec<Architecture> {
    vec![Architecture::X86_64, Architecture::Aarch64, Architecture::Other]
}

/// A host on which only the floor exists.
fn bare_probes() -> HostProbes {
    HostProbes {
        getrlimit: 0,
        no_new_privs: -1,
        seccomp: Some(Reply { status: -1, errno: 22 }),
        landlock: -1,
        cgroup: vec![-1, -1],
    }
}

fn unlimited() -> RlimitReading {
    RlimitReading { status: 0, hard: u64::MAX }
}

fn readings(memory: RlimitReading, cgroup_memory: Vec<Option<String>>) -> CeilingReadings {
    CeilingReadings {
        memory,
        cpu: unlimited(),
        open_files: unlimited(),
        processes: unlimited(),
        file_size: unlimited(),
        core_dump: unlimited(),
        cgroup_memory,
    }
}

#[test]
fn tier_reports_the_highest_usable_mechanism() {
    let mut support = IsolationSupport::default();
    assert_eq!(support.tier_name(), "NONE");
    support.rlimit = true;
    assert_eq!(support.tier_name(), "POSIX_RLIMIT");
    support.seccomp_filter = true;
    assert_eq!(support.tier_name(), "SECCOMP_FILTER");
    support.landlock = true;
    assert_eq!(support.tier_name(), "LANDLOCK");
    support.cgroup_v2_writable = true;
    assert_eq!(support.tier_name(), "CGROUP_V2");
}

#[test]
fn tier_numbers_follow_the_ladder() {
    let mut support = IsolationSupport::default();
    assert_eq!(support.tier(), 255);
    support.rlimit = true;
    assert_eq!(support.tier(), 0);
    support.seccomp_filter = true;
    assert_eq!(support.tier(), 1);
    support.landlock = true;
    assert_eq!(support.tier(), 2);
    support.cgroup_v2_writable = true;
    assert_eq!(support.tier(), 3);
    // A higher mechanism counts even where a lower one is missing.
    support.rlimit = false;
    assert_eq!(support.tier(), 3);
}

#[test]
fn detection_finds_the_posix_floor_on_any_supported_host() {
    // The point of the ladder: whatever else is missing, tier 0 is there.
    for architecture in architectures() {
        let support = detect(linux(architecture), &bare_probes());
        assert!(support.rlimit, "setrlimit must exist for the baseline tier to hold");
        assert_eq!(support.tier(), 0);
        let unix = Platform { system: System::OtherUnix, architecture };
        assert!(detect(unix, &bare_probes()).rlimit, "setrlimit must exist for the baseline tier to hold");
    }
}

#[test]
fn detection_reads_every_probe() {
    let full = HostProbes {
        getrlimit: 0,
        no_new_privs: 0,
        seccomp: Some(Reply { status: -1, errno: 14 }),
        landlock: 3,
        cgroup: vec![-1, 7],
    };
    assert_eq!(
        detect(linux(Architecture::X86_64), &full),
        IsolationSupport {
            rlimit: true,
            no_new_privs: true,
            seccomp_filter: true,
            landlock: true,
            cgroup_v2_writable: true,
            seccomp_unsupported_arch: false,
        }
    );
    let failing = HostProbes { getrlimit: -1, ..bare_probes() };
    assert_eq!(detect(linux(Architecture::Aarch64), &failing), IsolationSupport::default());
}

#[test]
fn only_efault_shows_filter_mode() {
    for (status, errno, expected) in [(-1, 14, true), (-1, 22, false), (-1, 38, false), (0, 14, false)] {
        let probes = HostProbes { seccomp: Some(Reply { status, errno }), ..bare_probes() };
        assert_eq!(detect(linux(Architecture::X86_64), &probes).seccomp_filter, expected);
    }
    let unprobed = HostProbes { seccomp: None, ..bare_probes() };
    assert!(!detect(linux(Architecture::X86_64), &unprobed).seccomp_filter);
}

#[test]
fn an_unknown_architecture_has_no_filter_and_says_so() {
    let probes = HostProbes { seccomp: Some(Reply { status: -1, errno: 14 }), ..bare_probes() };
    let support = detect(linux(Architecture::Other), &probes);
    assert!(!support.seccomp_filter);
    assert!(support.seccomp_unsupported_arch);
}

#[test]
fn landlock_needs_a_positive_version() {
    for (landlock, expected) in [(-1, false), (0, false), (1, true)] {
        let probes = HostProbes { landlock, ..bare_probes() };
        assert_eq!(detect(linux(Architecture::X86_64), &probes).landlock, expected);
    }
}

#[test]
fn another_system_has_the_floor_at_most() {
    let probes = HostProbes { landlock: 5, no_new_privs: 0, cgroup: vec![3], ..bare_probes() };
    let unix = detect(Platform { system: System::OtherUnix, architecture: Architecture::X86_64 }, &probes);
    let other = detect(Platform { system: System::Other, architecture: Architecture::X86_64 }, &probes);
    let nothing = IsolationSupport { seccomp_unsupported_arch: true, ..Default::default() };
    assert_eq!(unix, IsolationSupport { rlimit: true, ..nothing });
    assert_eq!(other, nothing);
}

#[test]
fn any_open_control_file_is_a_writable_subtree() {
    assert_eq!(cgroup_v2_candidates(), vec!["/sys/fs/cgroup/cgroup.subtree_control", "/sys/fs/cgroup/cgroup.procs"]);
    assert!(is_open(0) && is_open(3) && !is_open(-1));
    assert!(!cgroup_v2_writable(&vec![]));
    assert!(!cgroup_v2_writable(&vec![-1, -1]));
    assert!(cgroup_v2_writable(&vec![-1, 4]));
    assert!(cgroup_v2_writable(&vec![0]));
}

#[test]
fn the_container_ceiling_is_readable() {
    let texts = vec![
        vec![],
        vec![None, None],
        vec![Some("max\n".to_string()), None],
        vec![Some("8589934592\n".to_string())],
        vec![Some("1024".to_string())],
    ];
    for text in texts {
        let ceiling = container_ceiling(linux(Architecture::X86_64), &readings(unlimited(), text));
        let tiny = IsolationLimits { memory_bytes: Some(1024), ..Default::default() };
        if ceiling.memory_bytes.is_some() {
            assert!(tiny.within(&ceiling), "1 KiB must be within any real container ceiling");
        }
    }
}

#[test]
fn the_rlimit_comes_before_the_control_group() {
    let limited = RlimitReading { status: 0, hard: 4096 };
    let text = vec![Some("8192".to_string())];
    let platform = linux(Architecture::X86_64);
    assert_eq!(container_ceiling(platform, &readings(limited, text.clone())).memory_bytes, Some(4096));
    assert_eq!(container_ceiling(platform, &readings(unlimited(), text)).memory_bytes, Some(8192));
}

#[test]
fn every_resource_reaches_its_own_dimension() {
    let at = |hard| RlimitReading { status: 0, hard };
    let all = CeilingReadings {
        memory: at(1),
        cpu: at(2),
        open_files: at(3),
        processes: at(4),
        file_size: at(5),
        core_dump: at(6),
        cgroup_memory: vec![],
    };
    assert_eq!(
        container_ceiling(linux(Architecture::Other), &all),
        IsolationLimits {
            memory_bytes: Some(1),
            cpu_seconds: Some(2),
            open_files: Some(3),
            processes: Some(4),
            file_size_bytes: Some(5),
            core_dump_bytes: Some(6),
        }
    );
    let elsewhere = Platform { system: System::OtherUnix, architecture: Architecture::X86_64 };
    assert_eq!(container_ceiling(elsewhere, &all), IsolationLimits::default());
}

#[test]
fn an_infinite_or_unreadable_limit_is_none() {
    assert_eq!(current_limit(RlimitReading { status: 0, hard: libc::RLIM_INFINITY }), None);
    assert_eq!(current_limit(RlimitReading { status: -1, hard: 5 }), None);
    assert_eq!(current_limit(RlimitReading { status: 0, hard: 0 }), Some(0));
    assert_eq!(current_limit(RlimitReading { status: 0, hard: u64::MAX - 1 }), Some(u64::MAX - 1));
}

#[test]
fn a_memory_file_is_trimmed_and_its_sentinels_are_none() {
    assert_eq!(read_memory_limit("  2048\n"), Some(2048));
    assert_eq!(read_memory_limit("max\n"), None);
    assert_eq!(read_memory_limit("9223372036854775807"), None);
    assert_eq!(read_memory_limit("9223372036854775806"), Some(9223372036854775806));
    assert_eq!(read_memory_limit("18446744073709551615"), None);
    assert_eq!(read_memory_limit("nonsense"), None);
    assert_eq!(read_memory_limit(""), None);
}

#[test]
fn the_first_file_with_a_limit_decides() {
    assert_eq!(cgroup_memory_candidates(), vec!["/sys/fs/cgroup/memory.max", "/sys/fs/cgroup/memory/memory.limit_in_bytes"]);
    let text = |s: &str| Some(s.to_string());
    assert_eq!(cgroup_memory_max(&vec![text("1"), text("2")]), Some(1));
    assert_eq!(cgroup_memory_max(&vec![text("max"), text("2")]), Some(2));
    assert_eq!(cgroup_memory_max(&vec![None, text("2")]), Some(2));
    assert_eq!(cgroup_memory_max(&vec![text("x"), text("9223372036854775807")]), None);
}

#[test]
fn the_denylist_has_no_duplicates_and_names_every_entry() {
    for architecture in architectures() {
        let denied = denied_syscalls(linux(architecture));
        if denied.is_empty() {
            // Unsupported architecture, declared elsewhere.
            assert_eq!(architecture, Architecture::Other);
            continue;
        }
        let mut numbers: Vec<i64> = denied.iter().map(|(_, number)| *number).collect();
        numbers.sort_unstable();
        let before = numbers.len();
        numbers.dedup();
        assert_eq!(before, numbers.len(), "a duplicated syscall means a miscounted jump offset");
        for (name, _) in &denied {
            assert!(!name.is_empty(), "an unnamed blocked syscall cannot be reported");
        }
    }
}

#[test]
fn the_denylist_pairs_each_name_with_its_own_number() {
    let expected: Vec<(&'static str, i64)> = vec![
        ("ptrace", libc::SYS_ptrace as i64),
        ("mount", libc::SYS_mount as i64),
        ("umount2", libc::SYS_umount2 as i64),
        ("pivot_root", libc::SYS_pivot_root as i64),
        ("setns", libc::SYS_setns as i64),
        ("unshare", libc::SYS_unshare as i64),
        ("bpf", libc::SYS_bpf as i64),
        ("perf_event_open", libc::SYS_perf_event_open as i64),
        ("kexec_load", libc::SYS_kexec_load as i64),
        ("init_module", libc::SYS_init_module as i64),
        ("finit_module", libc::SYS_finit_module as i64),
        ("delete_module", libc::SYS_delete_module as i64),
        ("add_key", libc::SYS_add_key as i64),
        ("request_key", libc::SYS_request_key as i64),
        ("keyctl", libc::SYS_keyctl as i64),
        ("userfaultfd", libc::SYS_userfaultfd as i64),
        ("process_vm_readv", libc::SYS_process_vm_readv as i64),
        ("process_vm_writev", libc::SYS_process_vm_writev as i64),
    ];
    assert_eq!(denied_syscalls(linux(Architecture::X86_64)), expected);
    let x86_64 = [101, 165, 166, 155, 308, 272, 321, 298, 246, 175, 313, 176, 248, 249, 250, 323, 310, 311];
    let generic = [117, 40, 39, 41, 268, 97, 280, 241, 104, 105, 273, 106, 217, 218, 219, 282, 270, 271];
    let numbers: Vec<i64> = expected.iter().map(|(_, number)| *number).collect();
    if numbers[0] == 101 {
        assert_eq!(numbers, x86_64);
    }
    if numbers[0] == 117 {
        assert_eq!(numbers, generic);
    }
}

#[test]
fn naming_numbers_keeps_their_order() {
    let mut numbers = [0i64; 18];
    for i in 0..18 {
        numbers[i] = 1000 + i as i64;
    }
    let named = name_syscalls(&numbers);
    assert_eq!(named.len(), 18);
    assert_eq!(named[0], ("ptrace", 1000));
    assert_eq!(named[9], ("init_module", 1009));
    assert_eq!(named[17], ("process_vm_writev", 1017));
}

#[test]
fn only_known_platforms_have_an_audit_identifier() {
    assert_eq!(linux(Architecture::X86_64).audit_arch(), Some(0xC000_003E));
    assert_eq!(linux(Architecture::Aarch64).audit_arch(), Some(0xC000_00B7));
    assert!(!linux(Architecture::Other).arch_known());
    for system in [System::OtherUnix, System::Other] {
        let platform = Platform { system, architecture: Architecture::X86_64 };
        assert!(!platform.arch_known());
        assert!(denied_syscalls(platform).is_empty());
    }
}
