//! Constants of the kernel's interface, as the `libc` crate gives them for the target the library
//! is built for. Verus takes the contracts below on trust.
use vstd::prelude::*;

verus! {

/// How many system calls the denylist names.
pub const DENIED_COUNT: usize = 18;

/// The numbers of the denied calls on x86-64.
pub open spec fn x86_64_numbers() -> Seq<i64> {
    seq![
        101, 165, 166, 155, 308, 272, 321, 298, 246,
        175, 313, 176, 248, 249, 250, 323, 310, 311,
    ]
}

/// The numbers of the denied calls in the kernel's generic table, which AArch64 uses.
pub open spec fn generic_numbers() -> Seq<i64> {
    seq![
        117, 40, 39, 41, 268, 97, 280, 241, 104,
        105, 273, 106, 217, 218, 219, 282, 270, 271,
    ]
}

/// The numbers of the denied calls on x86-64 with 32-bit pointers, where bit 30 of every number is set.
pub open spec fn x32_numbers() -> Seq<i64> {
    seq![
        0x40000209, 0x400000a5, 0x400000a6, 0x4000009b, 0x40000134, 0x40000110, 0x40000141, 0x4000012a, 0x40000210,
        0x400000af, 0x40000139, 0x400000b0, 0x400000f8, 0x400000f9, 0x400000fa, 0x40000143, 0x4000021b, 0x4000021c,
    ]
}

/// The numbers of the denied calls on 32-bit x86.
pub open spec fn i386_numbers() -> Seq<i64> {
    seq![
        26, 21, 52, 217, 346, 310, 357, 336, 283,
        128, 350, 129, 286, 287, 288, 374, 347, 348,
    ]
}

/// The numbers of the denied calls on 32-bit Arm.
pub open spec fn arm_numbers() -> Seq<i64> {
    seq![
        26, 21, 52, 218, 375, 337, 386, 364, 347,
        128, 379, 129, 309, 310, 311, 388, 376, 377,
    ]
}

/// The numbers of the denied calls on PowerPC.
pub open spec fn powerpc_numbers() -> Seq<i64> {
    seq![
        26, 21, 52, 203, 350, 282, 361, 319, 268,
        128, 353, 129, 269, 270, 271, 364, 351, 352,
    ]
}

/// The numbers of the denied calls on s390x.
pub open spec fn s390x_numbers() -> Seq<i64> {
    seq![
        26, 21, 52, 217, 339, 303, 351, 331, 277,
        128, 344, 129, 278, 279, 280, 355, 340, 341,
    ]
}

/// The numbers of the denied calls on SPARC.
pub open spec fn sparc_numbers() -> Seq<i64> {
    seq![
        26, 167, 45, 146, 337, 299, 349, 327, 306,
        190, 342, 222, 281, 282, 283, 352, 338, 339,
    ]
}

/// The numbers of the denied calls on 32-bit MIPS.
pub open spec fn mips_o32_numbers() -> Seq<i64> {
    seq![
        4026, 4021, 4052, 4216, 4344, 4303, 4355, 4333, 4311,
        4128, 4348, 4129, 4280, 4281, 4282, 4357, 4345, 4346,
    ]
}

/// The numbers of the denied calls on 64-bit MIPS.
pub open spec fn mips_n64_numbers() -> Seq<i64> {
    seq![
        5099, 5160, 5161, 5151, 5303, 5262, 5315, 5292, 5270,
        5168, 5307, 5169, 5239, 5240, 5241, 5317, 5304, 5305,
    ]
}

/// The numbers of the denied calls are those of one of Linux's system call tables.
pub open spec fn is_numbering(numbers: Seq<i64>) -> bool {
    ||| numbers == x86_64_numbers()
    ||| numbers == generic_numbers()
    ||| numbers == x32_numbers()
    ||| numbers == i386_numbers()
    ||| numbers == arm_numbers()
    ||| numbers == powerpc_numbers()
    ||| numbers == s390x_numbers()
    ||| numbers == sparc_numbers()
    ||| numbers == mips_o32_numbers()
    ||| numbers == mips_n64_numbers()
}

/// In every table the calls have different numbers, each of which fits in the 32 bits that a filter
/// compares.
pub proof fn lemma_numbering(numbers: Seq<i64>)
    requires
        is_numbering(numbers),
    ensures
        numbers.len() == DENIED_COUNT,
        numbers.no_duplicates(),
        forall|i: int| 0 <= i < numbers.len() ==> 0 <= #[trigger] numbers[i] <= u32::MAX,
{
}

/// The `libc::SYS_*` constants of the denied calls, in the order of the denylist. They are those of
/// the target, which has one of the tables above.
#[verifier::external_body]
pub(crate) fn libc_syscall_numbers() -> (numbers: [i64; 18])
    ensures
        is_numbering(numbers@),
{
    [
        libc::SYS_ptrace as i64, libc::SYS_mount as i64, libc::SYS_umount2 as i64,
        libc::SYS_pivot_root as i64, libc::SYS_setns as i64, libc::SYS_unshare as i64,
        libc::SYS_bpf as i64, libc::SYS_perf_event_open as i64, libc::SYS_kexec_load as i64,
        libc::SYS_init_module as i64, libc::SYS_finit_module as i64,
        libc::SYS_delete_module as i64, libc::SYS_add_key as i64, libc::SYS_request_key as i64,
        libc::SYS_keyctl as i64, libc::SYS_userfaultfd as i64,
        libc::SYS_process_vm_readv as i64, libc::SYS_process_vm_writev as i64,
    ]
}

/// `libc::EPERM`, which is 1 on every Linux target.
#[verifier::external_body]
pub(crate) fn libc_eperm() -> (code: i32)
    ensures
        code == 1,
{
    libc::EPERM
}

/// `libc::EFAULT`, which is 14 on every Linux target.
#[verifier::external_body]
pub(crate) fn libc_efault() -> (code: i32)
    ensures
        code == 14,
{
    libc::EFAULT
}

/// `libc::EINVAL`, which is 22 on every Linux target.
#[verifier::external_body]
pub(crate) fn libc_einval() -> (code: i32)
    ensures
        code == 22,
{
    libc::EINVAL
}

/// The values `ENOSYS` has on Linux: 89 on MIPS, 90 on SPARC, and 38 elsewhere.
pub open spec fn is_enosys(code: i32) -> bool {
    code == 38 || code == 89 || code == 90
}

/// `libc::ENOSYS`. Its value is that of the target, one of the three that Linux has.
#[verifier::external_body]
pub(crate) fn libc_enosys() -> (code: i32)
    ensures
        is_enosys(code),
{
    libc::ENOSYS
}

/// `libc::RLIM_INFINITY`: every bit is set, on the Linux targets whose `rlim_t` has 64 bits. (32-bit
/// SPARC under `libc`'s unstable option for 64-bit time is not among the targets of this library.)
#[verifier::external_body]
pub(crate) fn libc_rlim_infinity() -> (value: u64)
    ensures
        value == u64::MAX,
{
    libc::RLIM_INFINITY
}

} // verus!
