//! The container's own limits, which are the ceiling a token may not exceed.
use vstd::prelude::*;

use crate::kernel::libc_rlim_infinity;
use crate::limits::IsolationLimits;
use crate::number::parse_u64;
use crate::platform::{Platform, System};
use crate::text::{chars_are, chars_of, strip_margin, Margin};

verus! {

/// What `getrlimit` came back with for one resource: its return value, and the hard limit.
#[derive(Debug, Clone, Copy, PartialEq, Eq)]
pub struct RlimitReading {
    pub status: i32,
    pub hard: u64,
}

/// Everything that is read to find the ceiling.
#[derive(Debug, Clone, PartialEq, Eq)]
pub struct CeilingReadings {
    /// `RLIMIT_AS`.
    pub memory: RlimitReading,
    /// `RLIMIT_CPU`.
    pub cpu: RlimitReading,
    /// `RLIMIT_NOFILE`.
    pub open_files: RlimitReading,
    /// `RLIMIT_NPROC`.
    pub processes: RlimitReading,
    /// `RLIMIT_FSIZE`.
    pub file_size: RlimitReading,
    /// `RLIMIT_CORE`.
    pub core_dump: RlimitReading,
    /// The text of each memory file of the control group, in order; `None` for one that cannot be
    /// read.
    pub cgroup_memory: Vec<Option<String>>,
}

/// The limit that a reading shows, if there is one.
pub open spec fn limit_read(reading: RlimitReading) -> Option<u64> {
    if reading.status != 0 || reading.hard == u64::MAX {
        None
    } else {
        Some(reading.hard)
    }
}

/// The limit that a reading shows, if there is one.
pub fn current_limit(reading: RlimitReading) -> (limit: Option<u64>)
    ensures
        limit == limit_read(reading),
{
    if reading.status != 0 {
        return None;
    }
    if reading.hard == libc_rlim_infinity() {
        None
    } else {
        Some(reading.hard)
    }
}

/// The files that may hold the control group's memory limit.
///
/// A container usually caps memory through its control group and not through `RLIMIT_AS`, so the
/// rlimit reads unlimited while the real ceiling is elsewhere.
pub fn cgroup_memory_candidates() -> (paths: Vec<&'static str>)
    ensures
        paths@.len() == 2,
        paths@[0]@ == "/sys/fs/cgroup/memory.max"@,
        paths@[1]@ == "/sys/fs/cgroup/memory/memory.limit_in_bytes"@,
{
    vec!["/sys/fs/cgroup/memory.max", "/sys/fs/cgroup/memory/memory.limit_in_bytes"]
}

/// The limit that the text of a memory file shows, if there is one. `max` means none, and a control
/// group without a limit may report a sentinel near the largest number instead.
pub open spec fn memory_limit_read(text: Seq<char>) -> Option<u64> {
    let trimmed = crate::text::strip(text, Margin::WhiteSpace);
    let value = crate::number::read_u64(trimmed);
    if trimmed != "max"@ && value is Some && value->0 < u64::MAX / 2 {
        value
    } else {
        None
    }
}

/// The limit of the first file, from index `from` on, that shows one.
pub open spec fn first_memory_limit(texts: Seq<Option<String>>, from: int) -> Option<u64>
    decreases texts.len() - from,
{
    if from < 0 || from >= texts.len() {
        None
    } else if texts[from] is Some && memory_limit_read(texts[from]->0@) is Some {
        memory_limit_read(texts[from]->0@)
    } else {
        first_memory_limit(texts, from + 1)
    }
}

/// Reads the text of one memory file.
pub fn read_memory_limit(text: &str) -> (limit: Option<u64>)
    ensures
        limit == memory_limit_read(text@),
{
    let chars = chars_of(text);
    let trimmed = strip_margin(chars.as_slice(), Margin::WhiteSpace);
    if chars_are(trimmed, "max") {
        return None;
    }
    match parse_u64(trimmed) {
        Some(value) => if value < u64::MAX / 2 {
            Some(value)
        } else {
            None
        },
        None => None,
    }
}

/// The control group's memory limit, from the texts of its memory files.
pub fn cgroup_memory_max(texts: &Vec<Option<String>>) -> (limit: Option<u64>)
    ensures
        limit == first_memory_limit(texts@, 0),
{
    let mut i: usize = 0;
    while i < texts.len()
        invariant
            i <= texts@.len(),
            first_memory_limit(texts@, 0) == first_memory_limit(texts@, i as int),
        decreases texts.len() - i,
    {
        if let Some(text) = &texts[i] {
            let limit = read_memory_limit(text.as_str());
            if limit.is_some() {
                return limit;
            }
        }
        i = i + 1;
    }
    None
}

/// The ceiling that the readings show.
pub open spec fn ceiling_from(platform: Platform, readings: CeilingReadings) -> IsolationLimits {
    if platform.system is Linux {
        IsolationLimits {
            memory_bytes: if limit_read(readings.memory) is Some {
                limit_read(readings.memory)
            } else {
                first_memory_limit(readings.cgroup_memory@, 0)
            },
            cpu_seconds: limit_read(readings.cpu),
            open_files: limit_read(readings.open_files),
            processes: limit_read(readings.processes),
            file_size_bytes: limit_read(readings.file_size),
            core_dump_bytes: limit_read(readings.core_dump),
        }
    } else {
        IsolationLimits::unlimited()
    }
}

/// The container's own limits. On a system other than Linux none is known.
pub fn container_ceiling(platform: Platform, readings: &CeilingReadings) -> (ceiling:
    IsolationLimits)
    ensures
        ceiling == ceiling_from(platform, *readings),
{
    match platform.system {
        System::Linux => {
            let address_space = current_limit(readings.memory);
            IsolationLimits {
                memory_bytes: if address_space.is_some() {
                    address_space
                } else {
                    cgroup_memory_max(&readings.cgroup_memory)
                },
                cpu_seconds: current_limit(readings.cpu),
                open_files: current_limit(readings.open_files),
                processes: current_limit(readings.processes),
                file_size_bytes: current_limit(readings.file_size),
                core_dump_bytes: current_limit(readings.core_dump),
            }
        },
        _ => IsolationLimits::default(),
    }
}

/// A reading shows a limit exactly when it succeeded and the hard limit is a finite number, and then
/// it shows that number.
pub proof fn law_a_reading_shows_its_hard_limit(reading: RlimitReading, value: u64)
    ensures
        limit_read(reading) == Some(value) <==> reading.status == 0 && reading.hard == value && value
            != 0xffff_ffff_ffff_ffff,
{
}

/// A memory file shows a number exactly when it holds that number, white space aside, and the number
/// is below the sentinels.
pub proof fn law_a_memory_file_shows_its_number(
    before: Seq<char>,
    core: Seq<char>,
    after: Seq<char>,
    value: u64,
)
    requires
        crate::text::is_margin(before, Margin::WhiteSpace),
        crate::text::is_core(core, Margin::WhiteSpace),
        crate::text::is_margin(after, Margin::WhiteSpace),
    ensures
        memory_limit_read(before + core + after) == Some(value) <==> crate::number::read_u64(core)
            == Some(value) && value < 0x7fff_ffff_ffff_ffff,
        core == crate::number::decimal(value as nat) && value < 0x7fff_ffff_ffff_ffff
            ==> memory_limit_read(before + core + after) == Some(value),
        core == "max"@ ==> memory_limit_read(before + core + after) is None,
{
    reveal_strlit("max");
    crate::text::law_stripping_leaves_the_core(before, core, after, Margin::WhiteSpace);
    if crate::number::read_u64(core) is Some {
        assert("max"@[0] == 'm' && "max"@[1] == 'a');
        if core == "max"@ {
            assert(crate::number::without_plus(core) == core);
            assert(!crate::number::is_digit(core[0]));
        }
    }
    if core == crate::number::decimal(value as nat) {
        crate::number::lemma_decimal_is_numeral(value as nat);
        assert(crate::number::is_digit(core[0]));
        assert(crate::number::without_plus(core) == core);
    }
}

/// The first file that shows a limit decides, and where none does there is no limit.
pub proof fn law_the_first_memory_file_decides(texts: Seq<Option<String>>, i: int, value: u64)
    ensures
        0 <= i < texts.len() && texts[i] is Some && memory_limit_read(texts[i]->0@) == Some(value)
            && (forall|j: int|
            0 <= j < i ==> ((#[trigger] texts[j]) matches Some(text) ==> memory_limit_read(
                text@,
            ) is None)) ==> first_memory_limit(texts, 0) == Some(value),
        (forall|j: int|
            0 <= j < texts.len() ==> ((#[trigger] texts[j]) matches Some(text)
                ==> memory_limit_read(text@) is None)) ==> first_memory_limit(texts, 0) is None,
{
    if 0 <= i < texts.len() && texts[i] is Some && memory_limit_read(texts[i]->0@) == Some(value) && (
    forall|j: int|
        0 <= j < i ==> ((#[trigger] texts[j]) matches Some(text) ==> memory_limit_read(
            text@,
        ) is None)) {
        lemma_first_memory_limit(texts, 0, i);
    }
    if forall|j: int|
        0 <= j < texts.len() ==> ((#[trigger] texts[j]) matches Some(text) ==> memory_limit_read(
            text@,
        ) is None) {
        lemma_first_memory_limit(texts, 0, texts.len() as int);
    }
}

/// Files that show no limit are passed over.
proof fn lemma_first_memory_limit(texts: Seq<Option<String>>, from: int, to: int)
    requires
        0 <= from <= to <= texts.len(),
        forall|j: int|
            from <= j < to ==> ((#[trigger] texts[j]) matches Some(text) ==> memory_limit_read(
                text@,
            ) is None),
    ensures
        first_memory_limit(texts, from) == first_memory_limit(texts, to),
    decreases to - from,
{
    if from < to {
        assert(texts[from] matches Some(text) ==> memory_limit_read(text@) is None);
        lemma_first_memory_limit(texts, from + 1, to);
    }
}

/// Each dimension of the ceiling comes from its own reading. Memory falls back on the control group
/// where its reading shows no limit, and off Linux there is no ceiling.
pub proof fn law_each_dimension_has_its_own_reading(platform: Platform, readings: CeilingReadings)
    ensures
        ({
            let ceiling = ceiling_from(platform, readings);
            &&& platform.system is Linux ==> {
                &&& ceiling.cpu_seconds == limit_read(readings.cpu)
                &&& ceiling.open_files == limit_read(readings.open_files)
                &&& ceiling.processes == limit_read(readings.processes)
                &&& ceiling.file_size_bytes == limit_read(readings.file_size)
                &&& ceiling.core_dump_bytes == limit_read(readings.core_dump)
                &&& limit_read(readings.memory) is Some ==> ceiling.memory_bytes == limit_read(
                    readings.memory,
                )
                &&& limit_read(readings.memory) is None ==> ceiling.memory_bytes
                    == first_memory_limit(readings.cgroup_memory@, 0)
            }
            &&& platform.system !is Linux ==> {
                &&& ceiling.memory_bytes is None && ceiling.cpu_seconds is None
                &&& ceiling.open_files is None && ceiling.processes is None
                &&& ceiling.file_size_bytes is None && ceiling.core_dump_bytes is None
            }
        }),
{
}

} // verus!
