use noesar_sandbox::platform::{denied_syscalls, Architecture, Platform, System};
use noesar_sandbox::seccomp::{platform_filter, seccomp_filter, table_filter, SockFilter};

const AUDIT: u32 = 0xC000_003E;
const ALLOW: u32 = 0x7fff_0000;
const REFUSE: u32 = 0x0005_0001;

/// Runs a filter program the way the kernel does.
fn interpret(program: &[SockFilter], arch: u32, nr: u32) -> u32 {
    let mut pc = 0;
    let mut acc = 0;
    loop {
        let instruction = program[pc];
        match instruction.code {
            0x20 => {
                acc = match instruction.k {
                    0 => nr,
                    4 => arch,
                    other => panic!("offset {other}"),
                };
                pc += 1;
            }
            0x15 => {
                let skip = if acc == instruction.k { instruction.jt } else { instruction.jf };
                pc += 1 + skip as usize;
            }
            0x06 => return instruction.k,
            other => panic!("opcode {other}"),
        }
    }
}

fn list(length: usize) -> Vec<(&'static str, i64)> {
    (0..length).map(|i| ("call", 3 * i as i64)).collect()
}

#[test]
fn a_filter_has_the_documented_layout() {
    let filter = seccomp_filter(AUDIT, &vec![("a", 7), ("b", 9)]).unwrap();
    let at = |code, jt, jf, k| SockFilter { code, jt, jf, k };
    assert_eq!(
        filter.program,
        vec![
            at(0x20, 0, 0, 4),
            at(0x15, 0, 4, AUDIT),
            at(0x20, 0, 0, 0),
            at(0x15, 2, 0, 7),
            at(0x15, 1, 0, 9),
            at(0x06, 0, 0, ALLOW),
            at(0x06, 0, 0, REFUSE),
        ]
    );
    assert_eq!(filter.blocked, 2);
}

#[test]
fn the_refusal_is_the_permission_error() {
    assert_eq!(REFUSE, 0x0005_0000 | libc::EPERM as u32);
}

#[test]
fn a_filter_refuses_exactly_its_list() {
    for length in [1, 2, 18, 249, 250] {
        let denied = list(length);
        let filter = seccomp_filter(AUDIT, &denied).unwrap();
        assert_eq!(filter.program.len(), length + 5);
        for nr in 0..800u32 {
            let expected = if denied.iter().any(|(_, n)| *n == nr as i64) { REFUSE } else { ALLOW };
            assert_eq!(interpret(&filter.program, AUDIT, nr), expected);
            assert_eq!(interpret(&filter.program, AUDIT + 1, nr), REFUSE);
        }
    }
}

#[test]
fn an_empty_or_overlong_list_is_invalid() {
    assert_eq!(seccomp_filter(AUDIT, &vec![]), Err(libc::EINVAL));
    assert_eq!(seccomp_filter(AUDIT, &list(251)), Err(libc::EINVAL));
}

#[test]
fn a_platform_gets_the_filter_for_its_denylist() {
    let platform = Platform { system: System::Linux, architecture: Architecture::X86_64 };
    let denied = denied_syscalls(platform);
    let filter = platform_filter(platform).unwrap();
    assert_eq!(filter.blocked, 18);
    for nr in 0..600u32 {
        let expected = if denied.iter().any(|(_, n)| *n == nr as i64) { REFUSE } else { ALLOW };
        assert_eq!(interpret(&filter.program, AUDIT, nr), expected);
    }
}

#[test]
fn an_unknown_platform_gets_no_filter() {
    let platform = Platform { system: System::Linux, architecture: Architecture::Other };
    assert_eq!(platform_filter(platform), Err(libc::ENOSYS));
}

#[test]
fn a_filter_is_built_only_from_the_platforms_own_table() {
    let mut x86_64 = [101, 165, 166, 155, 308, 272, 321, 298, 246, 175, 313, 176, 248, 249, 250, 323, 310, 311];
    let generic = [117, 40, 39, 41, 268, 97, 280, 241, 104, 105, 273, 106, 217, 218, 219, 282, 270, 271];
    let linux = |architecture| Platform { system: System::Linux, architecture };
    let filter = table_filter(linux(Architecture::X86_64), &x86_64, 38).unwrap();
    assert_eq!(filter.blocked, 18);
    assert_eq!(filter.program[1].k, 0xC000_003E);
    assert_eq!(filter.program[3].k, 101);
    let filter = table_filter(linux(Architecture::Aarch64), &generic, 38).unwrap();
    assert_eq!(filter.program[1].k, 0xC000_00B7);
    assert_eq!(filter.program[20].k, 271);
    assert_eq!(table_filter(linux(Architecture::X86_64), &generic, 38), Err(38));
    assert_eq!(table_filter(linux(Architecture::Aarch64), &x86_64, 89), Err(89));
    assert_eq!(table_filter(linux(Architecture::Other), &generic, 38), Err(38));
    let other = Platform { system: System::OtherUnix, architecture: Architecture::X86_64 };
    assert_eq!(table_filter(other, &x86_64, 38), Err(38));
    // The table of x86-64 with 32-bit pointers is told by its own number.
    x86_64[0] = 0x4000_0209;
    assert!(table_filter(linux(Architecture::X86_64), &x86_64, 38).is_ok());
}
