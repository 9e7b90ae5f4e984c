//! The platform the program was built for, and the system calls a sandbox denies on it.
use vstd::prelude::*;

use crate::kernel::libc_syscall_numbers;

verus! {

/// The operating system, as far as it decides which mechanisms can exist.
#[derive(Debug, Clone, Copy, PartialEq, Eq)]
pub enum System {
    Linux,
    OtherUnix,
    Other,
}

/// The architecture, as far as its system call table is known.
#[derive(Debug, Clone, Copy, PartialEq, Eq)]
pub enum Architecture {
    X86_64,
    Aarch64,
    Other,
}

/// The target a program was built for.
#[derive(Debug, Clone, Copy, PartialEq, Eq)]
pub struct Platform {
    pub system: System,
    pub architecture: Architecture,
}

/// `AUDIT_ARCH_X86_64`.
pub const AUDIT_ARCH_X86_64: u32 = 0xC000_003E;

/// `AUDIT_ARCH_AARCH64`.
pub const AUDIT_ARCH_AARCH64: u32 = 0xC000_00B7;

impl Platform {
    /// The identifier under which the kernel reports the architecture to a filter, on the
    /// platforms whose system call table is known. On any other, a filter would have to guess
    /// system call numbers, and guessing there means blocking the wrong call.
    pub open spec fn audit(self) -> Option<u32> {
        match (self.system, self.architecture) {
            (System::Linux, Architecture::X86_64) => Some(AUDIT_ARCH_X86_64),
            (System::Linux, Architecture::Aarch64) => Some(AUDIT_ARCH_AARCH64),
            _ => None,
        }
    }

    pub fn audit_arch(self) -> (id: Option<u32>)
        ensures
            id == self.audit(),
    {
        match (self.system, self.architecture) {
            (System::Linux, Architecture::X86_64) => Some(AUDIT_ARCH_X86_64),
            (System::Linux, Architecture::Aarch64) => Some(AUDIT_ARCH_AARCH64),
            _ => None,
        }
    }

    /// The numbers of the denied calls are those of the platform's own system call table. Programs
    /// for x86-64 have one of two tables, by the width of their pointers.
    pub open spec fn table_fits(self, numbers: Seq<i64>) -> bool {
        match (self.system, self.architecture) {
            (System::Linux, Architecture::X86_64) => {
                ||| numbers == crate::kernel::x86_64_numbers()
                ||| numbers == crate::kernel::x32_numbers()
            },
            (System::Linux, Architecture::Aarch64) => numbers == crate::kernel::generic_numbers(),
            _ => false,
        }
    }

    /// The number of `ptrace`, the first of the denied calls, is the one it has on the platform.
    pub open spec fn knows_ptrace(self, number: i64) -> bool {
        match (self.system, self.architecture) {
            (System::Linux, Architecture::X86_64) => number == 101 || number == 0x4000_0209,
            (System::Linux, Architecture::Aarch64) => number == 117,
            _ => false,
        }
    }

    /// Whether the number of `ptrace` is the one it has on the platform.
    pub fn recognises(self, number: i64) -> (b: bool)
        ensures
            b == self.knows_ptrace(number),
    {
        match (self.system, self.architecture) {
            (System::Linux, Architecture::X86_64) => number == 101 || number == 0x4000_0209,
            (System::Linux, Architecture::Aarch64) => number == 117,
            _ => false,
        }
    }

    /// Whether the system call table is known.
    pub fn arch_known(self) -> (known: bool)
        ensures
            known == (self.audit() is Some),
    {
        self.audit_arch().is_some()
    }
}

/// The system calls a sandboxed capability has no business making.
///
/// Deliberately a denylist of unambiguously privileged operations, not an allowlist: an allowlist
/// for arbitrary code cannot be written without knowing what the code is, and one that is wrong
/// kills correct programs.
pub open spec fn denied_names() -> Seq<Seq<char>> {
    seq![
        "ptrace"@,
        "mount"@,
        "umount2"@,
        "pivot_root"@,
        "setns"@,
        "unshare"@,
        "bpf"@,
        "perf_event_open"@,
        "kexec_load"@,
        "init_module"@,
        "finit_module"@,
        "delete_module"@,
        "add_key"@,
        "request_key"@,
        "keyctl"@,
        "userfaultfd"@,
        "process_vm_readv"@,
        "process_vm_writev"@,
    ]
}

/// The numbers in a denylist.
pub open spec fn numbers_of(denied: Seq<(&'static str, i64)>) -> Seq<i64> {
    denied.map_values(|entry: (&'static str, i64)| entry.1)
}

/// The names in a denylist.
pub open spec fn names_of(denied: Seq<(&'static str, i64)>) -> Seq<Seq<char>> {
    denied.map_values(|entry: (&'static str, i64)| entry.0@)
}

/// Pairs the denied calls with their numbers.
pub fn name_syscalls(numbers: &[i64; 18]) -> (denied: Vec<(&'static str, i64)>)
    ensures
        names_of(denied@) == denied_names(),
        numbers_of(denied@) == numbers@,
{
    let denied: Vec<(&'static str, i64)> = vec![
        ("ptrace", numbers[0]),
        ("mount", numbers[1]),
        ("umount2", numbers[2]),
        ("pivot_root", numbers[3]),
        ("setns", numbers[4]),
        ("unshare", numbers[5]),
        ("bpf", numbers[6]),
        ("perf_event_open", numbers[7]),
        ("kexec_load", numbers[8]),
        ("init_module", numbers[9]),
        ("finit_module", numbers[10]),
        ("delete_module", numbers[11]),
        ("add_key", numbers[12]),
        ("request_key", numbers[13]),
        ("keyctl", numbers[14]),
        ("userfaultfd", numbers[15]),
        ("process_vm_readv", numbers[16]),
        ("process_vm_writev", numbers[17]),
    ];
    assert(names_of(denied@) =~= denied_names());
    assert(numbers_of(denied@) =~= numbers@);
    denied
}

/// The denylist for a platform: each denied call with its number, which is taken from `libc` and
/// never written down here, or nothing where the system call table is not known.
///
/// The numbers are those of the target the library is built for; the platform must name it.
pub fn denied_syscalls(platform: Platform) -> (denied: Vec<(&'static str, i64)>)
    ensures
        platform.audit() is None ==> denied@.len() == 0,
        platform.audit() is Some ==> names_of(denied@) == denied_names()
            && crate::kernel::is_numbering(numbers_of(denied@)),
{
    if platform.arch_known() {
        name_syscalls(&libc_syscall_numbers())
    } else {
        Vec::new()
    }
}

/// Among Linux's tables, the number of `ptrace` tells those of a platform from all others.
pub proof fn law_ptrace_tells_the_table(platform: Platform, numbers: Seq<i64>)
    requires
        crate::kernel::is_numbering(numbers),
    ensures
        platform.knows_ptrace(numbers[0]) <==> platform.table_fits(numbers),
        platform.table_fits(numbers) ==> platform.audit() is Some,
{
}

/// No call is listed twice, every call has a name, and every number is one a filter can compare.
pub proof fn law_denylist_has_no_duplicates_and_names_every_entry(
    denied: Seq<(&'static str, i64)>,
    i: int,
    j: int,
)
    requires
        names_of(denied) == denied_names(),
        crate::kernel::is_numbering(numbers_of(denied)),
        0 <= i < denied.len(),
        0 <= j < denied.len(),
    ensures
        denied.len() == crate::kernel::DENIED_COUNT,
        i != j ==> denied[i].1 != denied[j].1,
        denied[i].0@.len() > 0,
        0 <= denied[i].1 <= u32::MAX,
{
    reveal_strlit("ptrace");
    reveal_strlit("mount");
    reveal_strlit("umount2");
    reveal_strlit("pivot_root");
    reveal_strlit("setns");
    reveal_strlit("unshare");
    reveal_strlit("bpf");
    reveal_strlit("perf_event_open");
    reveal_strlit("kexec_load");
    reveal_strlit("init_module");
    reveal_strlit("finit_module");
    reveal_strlit("delete_module");
    reveal_strlit("add_key");
    reveal_strlit("request_key");
    reveal_strlit("keyctl");
    reveal_strlit("userfaultfd");
    reveal_strlit("process_vm_readv");
    reveal_strlit("process_vm_writev");
    crate::kernel::lemma_numbering(numbers_of(denied));
    assert(names_of(denied)[i] == denied[i].0@);
    assert(denied_names()[i].len() > 0);
    assert(numbers_of(denied)[i] == denied[i].1);
    assert(numbers_of(denied)[j] == denied[j].1);
}

/// A filter can be built on two platforms, and each has its own identifier.
pub proof fn law_two_platforms_are_known(platform: Platform)
    ensures
        platform.audit() == Some(0xC000_003Eu32) <==> platform.system is Linux
            && platform.architecture is X86_64,
        platform.audit() == Some(0xC000_00B7u32) <==> platform.system is Linux
            && platform.architecture is Aarch64,
        platform.audit() is Some <==> platform.system is Linux && !(platform.architecture is Other),
{
}

/// The numbers and the names of a denylist are those of its entries, in order.
pub proof fn law_entries_keep_their_order(denied: Seq<(&'static str, i64)>, i: int)
    ensures
        numbers_of(denied).len() == denied.len(),
        names_of(denied).len() == denied.len(),
        0 <= i < denied.len() ==> numbers_of(denied)[i] == denied[i].1 && names_of(denied)[i]
            == denied[i].0@,
{
}

/// `ptrace` has the number 101 on x86-64, with bit 30 and another number below it where pointers have
/// 32 bits, and the number 117 on AArch64. On no other platform is a number known.
pub proof fn law_ptrace_has_its_number(platform: Platform, number: i64)
    ensures
        platform.knows_ptrace(number) <==> platform.system is Linux && ((
        platform.architecture is X86_64 && (number == 101 || number == 0x4000_0209)) || (
        platform.architecture is Aarch64 && number == 117)),
{
}

} // verus!
