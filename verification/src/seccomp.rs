//! The system call filter: a classic-BPF program that refuses a fixed set of calls, and what the
//! kernel's interpreter makes of it.
use vstd::prelude::*;

use crate::kernel::{libc_einval, libc_enosys, libc_eperm, libc_syscall_numbers};
use crate::platform::{name_syscalls, Platform};

verus! {

pub const BPF_LD: u16 = 0x00;

pub const BPF_W: u16 = 0x00;

pub const BPF_ABS: u16 = 0x20;

pub const BPF_JMP: u16 = 0x05;

pub const BPF_JEQ: u16 = 0x10;

pub const BPF_K: u16 = 0x00;

pub const BPF_RET: u16 = 0x06;

pub const SECCOMP_RET_ALLOW: u32 = 0x7fff_0000;

pub const SECCOMP_RET_ERRNO: u32 = 0x0005_0000;

/// Offset of the system call number in the data a filter reads.
pub const OFFSET_NR: u32 = 0;

/// Offset of the architecture in the data a filter reads.
pub const OFFSET_ARCH: u32 = 4;

/// The longest denylist whose jumps fit in a byte.
pub const MAX_DENIED: usize = 250;

/// One instruction of a filter program.
#[derive(Debug, Clone, Copy, PartialEq, Eq)]
pub struct SockFilter {
    pub code: u16,
    pub jt: u8,
    pub jf: u8,
    pub k: u32,
}

/// A filter program, and how many system calls it refuses.
#[derive(Debug, Clone, PartialEq, Eq)]
pub struct SeccompFilter {
    pub program: Vec<SockFilter>,
    pub blocked: usize,
}

/// Loads a word of the data: `BPF_LD | BPF_W | BPF_ABS`.
pub open spec fn load(offset: u32) -> SockFilter {
    SockFilter { code: 0x20, jt: 0, jf: 0, k: offset }
}

/// Compares the loaded word with a constant: `BPF_JMP | BPF_JEQ | BPF_K`.
pub open spec fn jump_if_equal(k: u32, jt: int, jf: int) -> SockFilter {
    SockFilter { code: 0x15, jt: jt as u8, jf: jf as u8, k }
}

/// Ends the program with an answer: `BPF_RET | BPF_K`.
pub open spec fn answer(k: u32) -> SockFilter {
    SockFilter { code: 0x06, jt: 0, jf: 0, k }
}

/// The answer to a denied call: it fails with `EPERM`.
///
/// `EPERM` rather than killing the process on purpose. A killed process gives an operator a signal
/// and no reason; `EPERM` surfaces as an ordinary permission error the program can report.
pub open spec fn refuse() -> u32 {
    0x0005_0001
}

/// The program that refuses the numbered calls, and every call made for another architecture.
///
/// ```text
/// [0]            LD   arch
/// [1]            JEQ  audit        jt=0 (fall through)   jf=-> refuse
/// [2]            LD   nr
/// [3 .. 3+N-1]   JEQ  numbers[i]   jt=-> refuse          jf=0 (next test)
/// [3+N]          RET  allow
/// [3+N+1]        RET  refuse
/// ```
pub open spec fn filter_program(audit: u32, numbers: Seq<i64>) -> Seq<SockFilter> {
    let n = numbers.len() as int;
    Seq::new(
        (n + 5) as nat,
        |i: int|
            if i == 0 {
                load(OFFSET_ARCH)
            } else if i == 1 {
                jump_if_equal(audit, 0, n + 2)
            } else if i == 2 {
                load(OFFSET_NR)
            } else if i < 3 + n {
                jump_if_equal(numbers[i - 3] as u32, n - (i - 3), 0)
            } else if i == 3 + n {
                answer(SECCOMP_RET_ALLOW)
            } else {
                answer(refuse())
            },
    )
}

impl SeccompFilter {
    /// The filter refuses exactly the numbered calls.
    pub open spec fn refuses(self, audit: u32, numbers: Seq<i64>) -> bool {
        &&& self.program@ == filter_program(audit, numbers)
        &&& self.blocked == numbers.len()
    }
}

/// Builds the filter for a denylist. A list that is empty, or too long for its jumps to fit in a
/// byte, is refused with `EINVAL`.
pub fn seccomp_filter(audit: u32, denied: &Vec<(&'static str, i64)>) -> (r: Result<
    SeccompFilter,
    i32,
>)
    ensures
        r is Ok <==> 0 < denied@.len() <= MAX_DENIED,
        r is Ok ==> (r->Ok_0).refuses(audit, crate::platform::numbers_of(denied@)),
        r is Err ==> r->Err_0 == 22,
{
    let ghost numbers = crate::platform::numbers_of(denied@);
    let ghost expected = filter_program(audit, numbers);
    let count: usize = denied.len();
    if count == 0 || count > MAX_DENIED {
        return Err(libc_einval());
    }
    let n: u8 = count as u8;
    let load_word: u16 = BPF_LD | BPF_W | BPF_ABS;
    let jump: u16 = BPF_JMP | BPF_JEQ | BPF_K;
    let ret: u16 = BPF_RET | BPF_K;
    assert(0x00u16 | 0x00u16 | 0x20u16 == 0x20u16) by (bit_vector);
    assert(0x05u16 | 0x10u16 | 0x00u16 == 0x15u16) by (bit_vector);
    assert(0x06u16 | 0x00u16 == 0x06u16) by (bit_vector);
    let mut program: Vec<SockFilter> = Vec::with_capacity(count + 5);
    program.push(SockFilter { code: load_word, jt: 0, jf: 0, k: OFFSET_ARCH });
    program.push(SockFilter { code: jump, jt: 0, jf: n + 2, k: audit });
    program.push(SockFilter { code: load_word, jt: 0, jf: 0, k: OFFSET_NR });
    let mut i: usize = 0;
    while i < count
        invariant
            i <= count <= MAX_DENIED,
            count == denied@.len(),
            n == count,
            jump == 0x15,
            numbers == crate::platform::numbers_of(denied@),
            expected == filter_program(audit, numbers),
            program@ =~= expected.take(3 + i),
        decreases count - i,
    {
        program.push(SockFilter { code: jump, jt: n - i as u8, jf: 0, k: denied[i].1 as u32 });
        assert(expected[3 + i] == program@.last());
        i = i + 1;
    }
    program.push(SockFilter { code: ret, jt: 0, jf: 0, k: SECCOMP_RET_ALLOW });
    let errno: u32 = libc_eperm() as u32 & 0x0000_ffff;
    assert(1u32 & 0x0000_ffff == 1) by (bit_vector);
    assert(0x0005_0000u32 | 1u32 == 0x0005_0001u32) by (bit_vector);
    program.push(SockFilter { code: ret, jt: 0, jf: 0, k: SECCOMP_RET_ERRNO | errno });
    assert(program@ =~= expected);
    Ok(SeccompFilter { program, blocked: count })
}

/// The filter for a platform from the numbers of the denied calls. Where they are not the platform's
/// own, a filter would block other calls than those it names, and there is none: the errno `enosys`
/// stands in its place.
pub fn table_filter(platform: Platform, numbers: &[i64; 18], enosys: i32) -> (r: Result<
    SeccompFilter,
    i32,
>)
    ensures
        r is Ok <==> platform.knows_ptrace(numbers@[0]),
        r is Ok ==> platform.audit() is Some && (r->Ok_0).refuses(
            platform.audit()->0,
            numbers@,
        ),
        r is Err ==> r->Err_0 == enosys,
{
    match platform.audit_arch() {
        Some(audit) if platform.recognises(numbers[0]) => {
            let denied = name_syscalls(numbers);
            assert(crate::platform::numbers_of(denied@).len() == denied@.len());
            seccomp_filter(audit, &denied)
        },
        _ => Err(enosys),
    }
}

/// What [`platform_filter`] gives, when `libc` numbers the denied calls by `numbers`.
pub open spec fn is_filter_for(
    r: Result<SeccompFilter, i32>,
    platform: Platform,
    numbers: Seq<i64>,
) -> bool {
    &&& r is Ok <==> platform.table_fits(numbers)
    &&& r is Ok ==> (r->Ok_0).refuses(platform.audit()->0, numbers)
    &&& r is Err ==> crate::kernel::is_enosys(r->Err_0)
}

/// The filter for a platform, or `ENOSYS` where its system call table is not known or is not the one
/// the library was built with.
pub fn platform_filter(platform: Platform) -> (r: Result<SeccompFilter, i32>)
    ensures
        exists|numbers: Seq<i64>|
            crate::kernel::is_numbering(numbers) && #[trigger] is_filter_for(r, platform, numbers),
        r is Ok ==> exists|numbers: Seq<i64>|
            platform.table_fits(numbers) && #[trigger] (r->Ok_0).refuses(
                platform.audit()->0,
                numbers,
            ),
        platform.audit() is None ==> r is Err,
        r is Err ==> crate::kernel::is_enosys(r->Err_0),
{
    let numbers = libc_syscall_numbers();
    let r = table_filter(platform, &numbers, libc_enosys());
    proof {
        crate::platform::law_ptrace_tells_the_table(platform, numbers@);
        assert(is_filter_for(r, platform, numbers@));
    }
    r
}

/// What the kernel's classic-BPF interpreter returns for a call with number `nr` made for
/// architecture `arch`, from instruction `pc` on, with `acc` in the accumulator. Only the
/// instructions a filter here uses have a meaning; `None` stands for a program that falls off its
/// end or uses another one.
pub open spec fn run(program: Seq<SockFilter>, arch: u32, nr: u32, pc: int, acc: u32) -> Option<u32>
    decreases
            if pc < program.len() {
                program.len() - pc
            } else {
                0
            },
{
    if pc < 0 || pc >= program.len() {
        None
    } else {
        let instruction = program[pc];
        if instruction.code == 0x20 && instruction.k == OFFSET_NR {
            run(program, arch, nr, pc + 1, nr)
        } else if instruction.code == 0x20 && instruction.k == OFFSET_ARCH {
            run(program, arch, nr, pc + 1, arch)
        } else if instruction.code == 0x15 {
            let skip = if acc == instruction.k {
                instruction.jt
            } else {
                instruction.jf
            };
            run(program, arch, nr, pc + 1 + skip, acc)
        } else if instruction.code == 0x06 {
            Some(instruction.k)
        } else {
            None
        }
    }
}

/// What the kernel decides about a call under a filter.
pub open spec fn decision(program: Seq<SockFilter>, arch: u32, nr: u32) -> Option<u32> {
    run(program, arch, nr, 0, 0)
}

/// A call number is on the list, as far as a filter can tell: it compares 32 bits.
pub open spec fn is_denied(numbers: Seq<i64>, nr: u32) -> bool {
    exists|i: int| 0 <= i < numbers.len() && #[trigger] numbers[i] as u32 == nr
}

/// From the `i`-th test on, the program refuses what the rest of the list holds.
proof fn lemma_tests_decide(audit: u32, numbers: Seq<i64>, arch: u32, nr: u32, i: int)
    requires
        0 <= i <= numbers.len() <= MAX_DENIED,
    ensures
        run(filter_program(audit, numbers), arch, nr, 3 + i, nr) == Some(
            if exists|j: int| i <= j < numbers.len() && #[trigger] numbers[j] as u32 == nr {
                refuse()
            } else {
                SECCOMP_RET_ALLOW
            },
        ),
    decreases numbers.len() - i,
{
    let program = filter_program(audit, numbers);
    let n = numbers.len() as int;
    if i < n {
        lemma_tests_decide(audit, numbers, arch, nr, i + 1);
        if numbers[i] as u32 == nr {
            assert(program[4 + n] == answer(refuse()));
            assert(program[3 + i].jt == n - i);
            assert(run(program, arch, nr, 4 + n, nr) == Some(refuse()));
        } else {
            assert(program[3 + i].jf == 0);
            assert(run(program, arch, nr, 3 + i, nr) == run(program, arch, nr, 3 + i + 1, nr));
        }
    } else {
        assert(program[3 + n] == answer(SECCOMP_RET_ALLOW));
    }
}

/// The filter refuses, with `EPERM`, every denied call and every call made for another
/// architecture, and allows every other call.
pub proof fn law_filter_refuses_exactly_the_denylist(
    audit: u32,
    numbers: Seq<i64>,
    arch: u32,
    nr: u32,
)
    requires
        0 < numbers.len() <= MAX_DENIED,
    ensures
        decision(filter_program(audit, numbers), arch, nr) == Some(
            if arch != audit || is_denied(numbers, nr) {
                refuse()
            } else {
                SECCOMP_RET_ALLOW
            },
        ),
{
    let program = filter_program(audit, numbers);
    let n = numbers.len() as int;
    lemma_tests_decide(audit, numbers, arch, nr, 0);
    assert(program[0] == load(OFFSET_ARCH));
    assert(run(program, arch, nr, 0, 0) == run(program, arch, nr, 1, arch));
    if arch == audit {
        assert(program[1].jt == 0);
        assert(run(program, arch, nr, 1, arch) == run(program, arch, nr, 2, arch));
        assert(run(program, arch, nr, 2, arch) == run(program, arch, nr, 3, nr));
    } else {
        assert(program[1].jf == n + 2);
        assert(run(program, arch, nr, 1, arch) == run(program, arch, nr, 4 + n, arch));
        assert(program[4 + n] == answer(refuse()));
    }
}

/// The filter is one the kernel accepts: its length fits in 16 bits, every jump lands inside it,
/// and it ends with an answer.
pub proof fn law_filter_is_well_formed(audit: u32, numbers: Seq<i64>, pc: int)
    requires
        0 < numbers.len() <= MAX_DENIED,
        0 <= pc < filter_program(audit, numbers).len(),
    ensures
        filter_program(audit, numbers).len() == numbers.len() + 5 <= u16::MAX,
        filter_program(audit, numbers)[pc].code == 0x15 ==> pc + 1 + filter_program(
            audit,
            numbers,
        )[pc].jt < filter_program(audit, numbers).len() && pc + 1 + filter_program(
            audit,
            numbers,
        )[pc].jf < filter_program(audit, numbers).len(),
        filter_program(audit, numbers).last().code == 0x06,
{
}

/// Under the filter of a platform, a call is allowed exactly when it is made for that platform's
/// architecture and is none of the denied calls as its own table numbers them.
pub proof fn law_platform_filter_blocks_its_own_calls(
    r: Result<SeccompFilter, i32>,
    platform: Platform,
    numbers: Seq<i64>,
    arch: u32,
    nr: u32,
)
    requires
        crate::kernel::is_numbering(numbers),
        is_filter_for(r, platform, numbers),
        r is Ok,
    ensures
        platform.table_fits(numbers),
        decision((r->Ok_0).program@, arch, nr) == Some(
            if Some(arch) == platform.audit() && !numbers.contains(nr as i64) {
                SECCOMP_RET_ALLOW
            } else {
                refuse()
            },
        ),
{
    crate::platform::law_ptrace_tells_the_table(platform, numbers);
    law_built_filter_blocks_the_denied_calls(r->Ok_0, platform.audit()->0, numbers, arch, nr);
}

/// Under a filter built for a real table, a call is allowed exactly when it is made for the
/// filter's own architecture and its number is none of the denied ones.
pub proof fn law_built_filter_blocks_the_denied_calls(
    filter: SeccompFilter,
    audit: u32,
    numbers: Seq<i64>,
    arch: u32,
    nr: u32,
)
    requires
        crate::kernel::is_numbering(numbers),
        filter.refuses(audit, numbers),
    ensures
        decision(filter.program@, arch, nr) == Some(
            if arch == audit && !numbers.contains(nr as i64) {
                SECCOMP_RET_ALLOW
            } else {
                refuse()
            },
        ),
        filter.blocked == crate::kernel::DENIED_COUNT,
{
    crate::kernel::lemma_numbering(numbers);
    law_filter_refuses_exactly_the_denylist(audit, numbers, arch, nr);
    if is_denied(numbers, nr) {
        let i = choose|i: int| 0 <= i < numbers.len() && #[trigger] numbers[i] as u32 == nr;
        assert(numbers[i] == nr as i64);
    }
    if numbers.contains(nr as i64) {
        let i = choose|i: int| 0 <= i < numbers.len() && numbers[i] == nr as i64;
        assert(numbers[i] as u32 == nr);
    }
}

/// A filter that refuses a list is one under which the kernel answers a call with `EPERM` when it is
/// made for another architecture or its number is on the list, and lets every other call through;
/// and it is counted as refusing the whole list.
pub proof fn law_a_filter_means_its_list(
    filter: SeccompFilter,
    audit: u32,
    numbers: Seq<i64>,
    arch: u32,
    nr: u32,
)
    requires
        filter.refuses(audit, numbers),
        0 < numbers.len() <= 250,
    ensures
        decision(filter.program@, arch, nr) == Some(
            if arch != audit || exists|i: int|
                0 <= i < numbers.len() && #[trigger] numbers[i] as u32 == nr {
                0x0005_0001u32
            } else {
                0x7fff_0000u32
            },
        ),
        filter.blocked == numbers.len(),
        filter.program@.len() == numbers.len() + 5,
{
    law_filter_refuses_exactly_the_denylist(audit, numbers, arch, nr);
}

/// How the kernel reads a program: a load puts the number (offset 0) or the architecture (offset 4)
/// in the accumulator, a comparison skips as many instructions as it says for the outcome, and an
/// answer ends the program.
pub proof fn law_the_interpreter_follows_the_kernel(
    program: Seq<SockFilter>,
    arch: u32,
    nr: u32,
    pc: int,
    acc: u32,
)
    requires
        0 <= pc < program.len(),
    ensures
        program[pc].code == 0x20 && program[pc].k == 0 ==> run(program, arch, nr, pc, acc) == run(
            program,
            arch,
            nr,
            pc + 1,
            nr,
        ),
        program[pc].code == 0x20 && program[pc].k == 4 ==> run(program, arch, nr, pc, acc) == run(
            program,
            arch,
            nr,
            pc + 1,
            arch,
        ),
        program[pc].code == 0x15 && acc == program[pc].k ==> run(program, arch, nr, pc, acc) == run(
            program,
            arch,
            nr,
            pc + 1 + program[pc].jt,
            acc,
        ),
        program[pc].code == 0x15 && acc != program[pc].k ==> run(program, arch, nr, pc, acc) == run(
            program,
            arch,
            nr,
            pc + 1 + program[pc].jf,
            acc,
        ),
        program[pc].code == 0x06 ==> run(program, arch, nr, pc, acc) == Some(program[pc].k),
        decision(program, arch, nr) == run(program, arch, nr, 0, 0),
{
    reveal_with_fuel(run, 2);
}

} // verus!
