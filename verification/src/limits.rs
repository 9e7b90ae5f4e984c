//! The limits a capability token may carry, and the two ways of comparing them.
use vstd::prelude::*;

verus! {

/// One dimension along which a process can be limited.
#[derive(Debug, Clone, Copy, PartialEq, Eq)]
pub enum Dimension {
    Memory,
    Cpu,
    OpenFiles,
    Processes,
    FileSize,
    CoreDump,
}

impl Dimension {
    /// The name an operator reads and a spec file uses.
    pub open spec fn key(self) -> Seq<char> {
        match self {
            Dimension::Memory => "memoryBytes"@,
            Dimension::Cpu => "cpuSeconds"@,
            Dimension::OpenFiles => "openFiles"@,
            Dimension::Processes => "processes"@,
            Dimension::FileSize => "fileSizeBytes"@,
            Dimension::CoreDump => "coreDumpBytes"@,
        }
    }

    /// Every dimension, in the order in which they are checked and reported.
    pub open spec fn all() -> Seq<Dimension> {
        seq![
            Dimension::Memory,
            Dimension::Cpu,
            Dimension::OpenFiles,
            Dimension::Processes,
            Dimension::FileSize,
            Dimension::CoreDump,
        ]
    }

    pub fn name(self) -> (name: &'static str)
        ensures
            name@ == self.key(),
    {
        match self {
            Dimension::Memory => "memoryBytes",
            Dimension::Cpu => "cpuSeconds",
            Dimension::OpenFiles => "openFiles",
            Dimension::Processes => "processes",
            Dimension::FileSize => "fileSizeBytes",
            Dimension::CoreDump => "coreDumpBytes",
        }
    }

    pub fn list() -> (list: Vec<Dimension>)
        ensures
            list@ == Dimension::all(),
    {
        let list = vec![
            Dimension::Memory,
            Dimension::Cpu,
            Dimension::OpenFiles,
            Dimension::Processes,
            Dimension::FileSize,
            Dimension::CoreDump,
        ];
        assert(list@ =~= Dimension::all());
        list
    }
}

/// The limits a capability token may carry. Every field is optional: a token that names no limit
/// is not silently given a generous one, it is simply not granted that dimension, and the caller
/// decides whether that is acceptable.
///
/// Bytes and seconds rather than "small/medium/large": a limit that cannot be compared against the
/// container's own limit cannot be shown to be tighter than it.
#[derive(Debug, Clone, Copy, PartialEq, Eq)]
pub struct IsolationLimits {
    /// Address space, bytes: `RLIMIT_AS`.
    pub memory_bytes: Option<u64>,
    /// CPU time, seconds: `RLIMIT_CPU`. Wall clock is the parent's job, not an rlimit.
    pub cpu_seconds: Option<u64>,
    /// Open file descriptors: `RLIMIT_NOFILE`.
    pub open_files: Option<u64>,
    /// Processes and threads: `RLIMIT_NPROC`.
    pub processes: Option<u64>,
    /// Largest file the capability may create, bytes: `RLIMIT_FSIZE`.
    pub file_size_bytes: Option<u64>,
    /// Core dumps, bytes: `RLIMIT_CORE`. Unset refuses them when the limits are applied: a core
    /// dump of a sandboxed process is a copy of its memory written outside the sandbox.
    pub core_dump_bytes: Option<u64>,
}

impl Default for IsolationLimits {
    /// No dimension is limited.
    fn default() -> (limits: Self)
        ensures
            limits == IsolationLimits::unlimited(),
    {
        IsolationLimits {
            memory_bytes: None,
            cpu_seconds: None,
            open_files: None,
            processes: None,
            file_size_bytes: None,
            core_dump_bytes: None,
        }
    }
}

/// Whether one dimension stays inside a grant. No ceiling admits everything; under a ceiling, an
/// unset value means unlimited and is outside it.
pub open spec fn slot_within(mine: Option<u64>, ceiling: Option<u64>) -> bool {
    match ceiling {
        None => true,
        Some(c) => match mine {
            Some(m) => m <= c,
            None => false,
        },
    }
}

/// Whether one dimension is set above a ceiling. An unset value is inherited, so it never is.
pub open spec fn slot_exceeds(mine: Option<u64>, ceiling: Option<u64>) -> bool {
    mine is Some && ceiling is Some && mine->0 > ceiling->0
}

/// The limit in force when a token leaves a dimension to the container.
pub open spec fn slot_inherited(mine: Option<u64>, ceiling: Option<u64>) -> Option<u64> {
    if mine is Some {
        mine
    } else {
        ceiling
    }
}

fn within_slot(mine: Option<u64>, ceiling: Option<u64>) -> (b: bool)
    ensures
        b == slot_within(mine, ceiling),
{
    match (mine, ceiling) {
        (_, None) => true,  // no ceiling on this dimension
        (Some(m), Some(c)) => m <= c,
        (None, Some(_)) => false,  // unlimited is never within a limit
    }
}

impl IsolationLimits {
    /// No dimension is limited.
    pub open spec fn unlimited() -> IsolationLimits {
        IsolationLimits {
            memory_bytes: None,
            cpu_seconds: None,
            open_files: None,
            processes: None,
            file_size_bytes: None,
            core_dump_bytes: None,
        }
    }

    /// The limit on one dimension.
    pub open spec fn at(self, dimension: Dimension) -> Option<u64> {
        match dimension {
            Dimension::Memory => self.memory_bytes,
            Dimension::Cpu => self.cpu_seconds,
            Dimension::OpenFiles => self.open_files,
            Dimension::Processes => self.processes,
            Dimension::FileSize => self.file_size_bytes,
            Dimension::CoreDump => self.core_dump_bytes,
        }
    }

    /// These limits with one dimension replaced.
    pub open spec fn with(self, dimension: Dimension, value: Option<u64>) -> IsolationLimits {
        match dimension {
            Dimension::Memory => IsolationLimits { memory_bytes: value, ..self },
            Dimension::Cpu => IsolationLimits { cpu_seconds: value, ..self },
            Dimension::OpenFiles => IsolationLimits { open_files: value, ..self },
            Dimension::Processes => IsolationLimits { processes: value, ..self },
            Dimension::FileSize => IsolationLimits { file_size_bytes: value, ..self },
            Dimension::CoreDump => IsolationLimits { core_dump_bytes: value, ..self },
        }
    }

    /// Every dimension stays inside the grant.
    pub open spec fn is_within(self, other: IsolationLimits) -> bool {
        forall|d: Dimension| slot_within(#[trigger] self.at(d), other.at(d))
    }

    /// The dimension is set above the ceiling.
    pub open spec fn is_over(self, ceiling: IsolationLimits, dimension: Dimension) -> bool {
        slot_exceeds(self.at(dimension), ceiling.at(dimension))
    }

    /// The first dimension, counting from index `from`, that is set above the ceiling.
    pub open spec fn excess_from(self, ceiling: IsolationLimits, from: int) -> Option<Dimension>
        decreases Dimension::all().len() - from,
    {
        if from < 0 || from >= Dimension::all().len() {
            None
        } else if self.is_over(ceiling, Dimension::all()[from]) {
            Some(Dimension::all()[from])
        } else {
            self.excess_from(ceiling, from + 1)
        }
    }

    /// The first dimension that is set above the ceiling.
    pub open spec fn excess(self, ceiling: IsolationLimits) -> Option<Dimension> {
        self.excess_from(ceiling, 0)
    }

    /// The limits a child ends up with inside a container that enforces `ceiling`.
    pub open spec fn inherited(self, ceiling: IsolationLimits) -> IsolationLimits {
        IsolationLimits {
            memory_bytes: slot_inherited(self.memory_bytes, ceiling.memory_bytes),
            cpu_seconds: slot_inherited(self.cpu_seconds, ceiling.cpu_seconds),
            open_files: slot_inherited(self.open_files, ceiling.open_files),
            processes: slot_inherited(self.processes, ceiling.processes),
            file_size_bytes: slot_inherited(self.file_size_bytes, ceiling.file_size_bytes),
            core_dump_bytes: slot_inherited(self.core_dump_bytes, ceiling.core_dump_bytes),
        }
    }

    /// The dimensions that are limited, in order.
    pub open spec fn constrained(self) -> Seq<Dimension> {
        Dimension::all().filter(|d: Dimension| self.at(d) is Some)
    }

    pub fn get(&self, dimension: Dimension) -> (value: Option<u64>)
        ensures
            value == self.at(dimension),
    {
        match dimension {
            Dimension::Memory => self.memory_bytes,
            Dimension::Cpu => self.cpu_seconds,
            Dimension::OpenFiles => self.open_files,
            Dimension::Processes => self.processes,
            Dimension::FileSize => self.file_size_bytes,
            Dimension::CoreDump => self.core_dump_bytes,
        }
    }

    pub fn set(&mut self, dimension: Dimension, value: Option<u64>)
        ensures
            *final(self) == old(self).with(dimension, value),
    {
        match dimension {
            Dimension::Memory => self.memory_bytes = value,
            Dimension::Cpu => self.cpu_seconds = value,
            Dimension::OpenFiles => self.open_files = value,
            Dimension::Processes => self.processes = value,
            Dimension::FileSize => self.file_size_bytes = value,
            Dimension::CoreDump => self.core_dump_bytes = value,
        }
    }

    /// The granted-scope check: does this token stay inside the limits an approval granted it?
    ///
    /// Here an unset field means *unlimited*, so it never satisfies a set ceiling: asking for "no
    /// limit on open files" when the grant caps them is widening. [`IsolationLimits::exceeds`]
    /// answers a different question, and the two must not be confused.
    pub fn within(&self, other: &IsolationLimits) -> (b: bool)
        ensures
            b == self.is_within(*other),
    {
        let b = within_slot(self.memory_bytes, other.memory_bytes) && within_slot(
            self.cpu_seconds,
            other.cpu_seconds,
        ) && within_slot(self.open_files, other.open_files) && within_slot(
            self.processes,
            other.processes,
        ) && within_slot(self.file_size_bytes, other.file_size_bytes) && within_slot(
            self.core_dump_bytes,
            other.core_dump_bytes,
        );
        proof {
            if self.is_within(*other) {
                assert(slot_within(self.at(Dimension::Memory), other.at(Dimension::Memory)));
                assert(slot_within(self.at(Dimension::Cpu), other.at(Dimension::Cpu)));
                assert(slot_within(self.at(Dimension::OpenFiles), other.at(Dimension::OpenFiles)));
                assert(slot_within(self.at(Dimension::Processes), other.at(Dimension::Processes)));
                assert(slot_within(self.at(Dimension::FileSize), other.at(Dimension::FileSize)));
                assert(slot_within(self.at(Dimension::CoreDump), other.at(Dimension::CoreDump)));
            }
        }
        b
    }

    /// The container-ceiling check: names the first dimension this token sets *above* what the
    /// container itself allows, or `None` when every dimension it sets is at or below it.
    ///
    /// A dimension left unset is inherited from the container, not granted without limit, so it is
    /// not a violation. The dimension's name is returned rather than a bare bool because a refusal
    /// an operator cannot locate is a refusal they will work around.
    pub fn exceeds(&self, ceiling: &IsolationLimits) -> (dimension: Option<&'static str>)
        ensures
            dimension is Some <==> self.excess(*ceiling) is Some,
            dimension is Some ==> dimension->0@ == (self.excess(*ceiling)->0).key(),
    {
        let dimensions = Dimension::list();
        let mut i: usize = 0;
        while i < dimensions.len()
            invariant
                i <= dimensions@.len(),
                dimensions@ == Dimension::all(),
                self.excess(*ceiling) == self.excess_from(*ceiling, i as int),
            decreases dimensions.len() - i,
        {
            let d = dimensions[i];
            if let (Some(mine), Some(limit)) = (self.get(d), ceiling.get(d)) {
                if mine > limit {
                    return Some(d.name());
                }
            }
            i = i + 1;
        }
        None
    }

    /// How many dimensions are actually constrained. Used to refuse a "limits" object that
    /// constrains nothing while looking like it does.
    pub fn constrained_dimensions(&self) -> (count: usize)
        ensures
            count == self.constrained().len(),
    {
        let dimensions = Dimension::list();
        let ghost set = |d: Dimension| self.at(d) is Some;
        let mut count: usize = 0;
        let mut i: usize = 0;
        assert(Dimension::all().take(0) =~= Seq::<Dimension>::empty());
        assert(Dimension::all().take(0).filter(set).len() == 0) by {
            reveal(Seq::filter);
        }
        while i < dimensions.len()
            invariant
                i <= dimensions@.len(),
                count <= i,
                dimensions@ == Dimension::all(),
                set == (|d: Dimension| self.at(d) is Some),
                count == Dimension::all().take(i as int).filter(set).len(),
            decreases dimensions.len() - i,
        {
            assert(Dimension::all().take(i + 1).drop_last() =~= Dimension::all().take(i as int));
            assert(Dimension::all().take(i + 1).last() == dimensions@[i as int]);
            proof {
                reveal(Seq::filter);
            }
            if self.get(dimensions[i]).is_some() {
                count = count + 1;
            }
            i = i + 1;
        }
        assert(Dimension::all().take(i as int) =~= Dimension::all());
        count
    }
}

/// `at` and `with` agree: a dimension reads back as it was set, and no other dimension changes.
pub proof fn law_set_changes_one_dimension(
    limits: IsolationLimits,
    dimension: Dimension,
    value: Option<u64>,
    other: Dimension,
)
    ensures
        limits.with(dimension, value).at(dimension) == value,
        other != dimension ==> limits.with(dimension, value).at(other) == limits.at(other),
{
}

/// Two tokens with the same limit on every dimension are the same token.
pub proof fn lemma_limits_are_their_dimensions(a: IsolationLimits, b: IsolationLimits)
    requires
        forall|d: Dimension| #[trigger] a.at(d) == b.at(d),
    ensures
        a == b,
{
    assert(a.at(Dimension::Memory) == b.at(Dimension::Memory));
    assert(a.at(Dimension::Cpu) == b.at(Dimension::Cpu));
    assert(a.at(Dimension::OpenFiles) == b.at(Dimension::OpenFiles));
    assert(a.at(Dimension::Processes) == b.at(Dimension::Processes));
    assert(a.at(Dimension::FileSize) == b.at(Dimension::FileSize));
    assert(a.at(Dimension::CoreDump) == b.at(Dimension::CoreDump));
}

/// Every token is within itself.
pub proof fn law_within_is_reflexive(limits: IsolationLimits)
    ensures
        limits.is_within(limits),
{
}

/// A token within a grant is within everything that grant is within.
pub proof fn law_within_is_transitive(a: IsolationLimits, b: IsolationLimits, c: IsolationLimits)
    requires
        a.is_within(b),
        b.is_within(c),
    ensures
        a.is_within(c),
{
    assert forall|d: Dimension| slot_within(#[trigger] a.at(d), c.at(d)) by {
        assert(slot_within(a.at(d), b.at(d)));
        assert(slot_within(b.at(d), c.at(d)));
    }
}

/// Two tokens that are within each other grant the same.
pub proof fn law_within_is_antisymmetric(a: IsolationLimits, b: IsolationLimits)
    requires
        a.is_within(b),
        b.is_within(a),
    ensures
        a == b,
{
    assert forall|d: Dimension| #[trigger] a.at(d) == b.at(d) by {
        assert(slot_within(a.at(d), b.at(d)));
        assert(slot_within(b.at(d), a.at(d)));
    }
    lemma_limits_are_their_dimensions(a, b);
}

/// Any token is within an unlimited grant.
pub proof fn law_any_limit_is_within_an_unlimited_ceiling(limits: IsolationLimits)
    ensures
        limits.is_within(IsolationLimits::unlimited()),
{
}

/// A token that leaves a dimension unset is within no grant that limits it.
pub proof fn law_unlimited_is_never_within_a_limit(
    limits: IsolationLimits,
    ceiling: IsolationLimits,
    dimension: Dimension,
)
    requires
        limits.at(dimension) is None,
        ceiling.at(dimension) is Some,
    ensures
        !limits.is_within(ceiling),
{
    assert(!slot_within(limits.at(dimension), ceiling.at(dimension)));
}

/// `excess_from` finds the first violation at or after `from`, and misses none.
proof fn lemma_excess_from(limits: IsolationLimits, ceiling: IsolationLimits, from: int)
    requires
        0 <= from <= Dimension::all().len(),
    ensures
        match limits.excess_from(ceiling, from) {
            None => forall|i: int|
                from <= i < Dimension::all().len() ==> !limits.is_over(
                    ceiling,
                    #[trigger] Dimension::all()[i],
                ),
            Some(d) => exists|i: int|
                from <= i < Dimension::all().len() && #[trigger] Dimension::all()[i] == d
                    && limits.is_over(ceiling, d) && forall|j: int|
                    from <= j < i ==> !limits.is_over(ceiling, #[trigger] Dimension::all()[j]),
        },
    decreases Dimension::all().len() - from,
{
    if from < Dimension::all().len() && !limits.is_over(ceiling, Dimension::all()[from]) {
        lemma_excess_from(limits, ceiling, from + 1);
        if limits.excess_from(ceiling, from + 1) is Some {
            let d = limits.excess_from(ceiling, from + 1)->0;
            let i = choose|i: int|
                from + 1 <= i < Dimension::all().len() && #[trigger] Dimension::all()[i] == d
                    && limits.is_over(ceiling, d) && forall|j: int|
                    from + 1 <= j < i ==> !limits.is_over(ceiling, #[trigger] Dimension::all()[j]);
            assert(Dimension::all()[i] == d);
        }
    } else if from < Dimension::all().len() {
        assert(Dimension::all()[from] == limits.excess_from(ceiling, from)->0);
    }
}

/// Every dimension is in the list.
proof fn lemma_all_is_complete(dimension: Dimension)
    ensures
        exists|i: int|
            0 <= i < Dimension::all().len() && #[trigger] Dimension::all()[i] == dimension,
{
    let i: int = match dimension {
        Dimension::Memory => 0,
        Dimension::Cpu => 1,
        Dimension::OpenFiles => 2,
        Dimension::Processes => 3,
        Dimension::FileSize => 4,
        Dimension::CoreDump => 5,
    };
    assert(Dimension::all()[i] == dimension);
}

/// The ceiling check accepts exactly the tokens that set no dimension above the ceiling, and what
/// it names is set above the ceiling while no earlier dimension is.
pub proof fn law_exceeds_names_the_first_violation(
    limits: IsolationLimits,
    ceiling: IsolationLimits,
)
    ensures
        limits.excess(ceiling) is None <==> forall|d: Dimension|
            !#[trigger] limits.is_over(ceiling, d),
        limits.excess(ceiling) is Some ==> exists|i: int|
            0 <= i < Dimension::all().len() && #[trigger] Dimension::all()[i] == limits.excess(
                ceiling,
            )->0 && limits.is_over(ceiling, Dimension::all()[i]) && forall|j: int|
                0 <= j < i ==> !limits.is_over(ceiling, #[trigger] Dimension::all()[j]),
{
    lemma_excess_from(limits, ceiling, 0);
    if limits.excess(ceiling) is None {
        assert forall|d: Dimension| !#[trigger] limits.is_over(ceiling, d) by {
            lemma_all_is_complete(d);
        }
    }
}

/// A token accepted by the ceiling check leaves the child, once it has inherited what the token
/// leaves unset, within the container's ceiling; a refused one would not.
pub proof fn law_ceiling_check_is_scope_check_after_inheritance(
    limits: IsolationLimits,
    ceiling: IsolationLimits,
)
    ensures
        limits.excess(ceiling) is None <==> limits.inherited(ceiling).is_within(ceiling),
{
    law_exceeds_names_the_first_violation(limits, ceiling);
    if limits.excess(ceiling) is None {
        assert forall|d: Dimension|
            slot_within(#[trigger] limits.inherited(ceiling).at(d), ceiling.at(d)) by {
            assert(!limits.is_over(ceiling, d));
        }
    } else {
        let d = limits.excess(ceiling)->0;
        assert(!slot_within(limits.inherited(ceiling).at(d), ceiling.at(d)));
    }
}

/// The scope check is the stricter one: what is within a grant never exceeds it as a ceiling.
pub proof fn law_within_implies_not_exceeding(limits: IsolationLimits, ceiling: IsolationLimits)
    requires
        limits.is_within(ceiling),
    ensures
        limits.excess(ceiling) is None,
{
    law_exceeds_names_the_first_violation(limits, ceiling);
    assert forall|d: Dimension| !#[trigger] limits.is_over(ceiling, d) by {
        assert(slot_within(limits.at(d), ceiling.at(d)));
    }
}

/// A token that constrains no dimension is the unlimited one, and only that one.
pub proof fn law_constraining_nothing_is_being_unlimited(limits: IsolationLimits)
    ensures
        limits.constrained().len() == 0 <==> limits == IsolationLimits::unlimited(),
{
    let set = |d: Dimension| limits.at(d) is Some;
    broadcast use vstd::seq_lib::group_filter_ensures;

    if limits == IsolationLimits::unlimited() {
        if limits.constrained().len() > 0 {
            assert(set(limits.constrained()[0]));
        }
    }
    if limits.constrained().len() == 0 {
        assert forall|d: Dimension| #[trigger] limits.at(d) == IsolationLimits::unlimited().at(
            d,
        ) by {
            lemma_all_is_complete(d);
            let i = choose|i: int|
                0 <= i < Dimension::all().len() && #[trigger] Dimension::all()[i] == d;
            if limits.at(d) is Some {
                assert(set(Dimension::all()[i]));
                assert(limits.constrained().contains(Dimension::all()[i]));
            }
        }
        lemma_limits_are_their_dimensions(limits, IsolationLimits::unlimited());
    }
}

/// Each dimension stands for its own field, for reading and for writing, and nothing is limited in
/// limits that limit nothing.
pub proof fn law_each_dimension_is_its_own_field(limits: IsolationLimits, value: Option<u64>)
    ensures
        limits.at(Dimension::Memory) == limits.memory_bytes,
        limits.at(Dimension::Cpu) == limits.cpu_seconds,
        limits.at(Dimension::OpenFiles) == limits.open_files,
        limits.at(Dimension::Processes) == limits.processes,
        limits.at(Dimension::FileSize) == limits.file_size_bytes,
        limits.at(Dimension::CoreDump) == limits.core_dump_bytes,
        limits.with(Dimension::Memory, value) == (IsolationLimits {
            memory_bytes: value,
            ..limits
        }),
        limits.with(Dimension::Cpu, value) == (IsolationLimits { cpu_seconds: value, ..limits }),
        limits.with(Dimension::OpenFiles, value) == (IsolationLimits {
            open_files: value,
            ..limits
        }),
        limits.with(Dimension::Processes, value) == (IsolationLimits { processes: value, ..limits }),
        limits.with(Dimension::FileSize, value) == (IsolationLimits {
            file_size_bytes: value,
            ..limits
        }),
        limits.with(Dimension::CoreDump, value) == (IsolationLimits {
            core_dump_bytes: value,
            ..limits
        }),
        limits == IsolationLimits::unlimited() <==> limits.memory_bytes is None
            && limits.cpu_seconds is None && limits.open_files is None && limits.processes is None
            && limits.file_size_bytes is None && limits.core_dump_bytes is None,
{
}

/// A value is at most a bound, and there is a value at all where there is a bound.
pub open spec fn bounded(value: Option<u64>, bound: Option<u64>) -> bool {
    bound is Some ==> value is Some && value->0 <= bound->0
}

/// A value is set above a bound.
pub open spec fn above(value: Option<u64>, bound: Option<u64>) -> bool {
    value is Some && bound is Some && bound->0 < value->0
}

/// The scope check holds a token to every number of the grant: where the grant has one, the token
/// has one too, and not a greater one.
pub proof fn law_within_holds_every_field_to_the_grant(
    limits: IsolationLimits,
    grant: IsolationLimits,
)
    ensures
        limits.is_within(grant) <==> {
            &&& bounded(limits.memory_bytes, grant.memory_bytes)
            &&& bounded(limits.cpu_seconds, grant.cpu_seconds)
            &&& bounded(limits.open_files, grant.open_files)
            &&& bounded(limits.processes, grant.processes)
            &&& bounded(limits.file_size_bytes, grant.file_size_bytes)
            &&& bounded(limits.core_dump_bytes, grant.core_dump_bytes)
        },
{
    if limits.is_within(grant) {
        assert(slot_within(limits.at(Dimension::Memory), grant.at(Dimension::Memory)));
        assert(slot_within(limits.at(Dimension::Cpu), grant.at(Dimension::Cpu)));
        assert(slot_within(limits.at(Dimension::OpenFiles), grant.at(Dimension::OpenFiles)));
        assert(slot_within(limits.at(Dimension::Processes), grant.at(Dimension::Processes)));
        assert(slot_within(limits.at(Dimension::FileSize), grant.at(Dimension::FileSize)));
        assert(slot_within(limits.at(Dimension::CoreDump), grant.at(Dimension::CoreDump)));
    }
}

/// The ceiling check finds nothing exactly when no number of the token is above the container's, and
/// otherwise what it finds is such a number, before which there is none.
pub proof fn law_the_ceiling_check_compares_every_field(
    limits: IsolationLimits,
    ceiling: IsolationLimits,
)
    ensures
        ({
            let memory = above(limits.memory_bytes, ceiling.memory_bytes);
            let cpu = above(limits.cpu_seconds, ceiling.cpu_seconds);
            let files = above(limits.open_files, ceiling.open_files);
            let processes = above(limits.processes, ceiling.processes);
            let size = above(limits.file_size_bytes, ceiling.file_size_bytes);
            let core = above(limits.core_dump_bytes, ceiling.core_dump_bytes);
            &&& limits.excess(ceiling) == Some(Dimension::Memory) <==> memory
            &&& limits.excess(ceiling) == Some(Dimension::Cpu) <==> cpu && !memory
            &&& limits.excess(ceiling) == Some(Dimension::OpenFiles) <==> files && !cpu && !memory
            &&& limits.excess(ceiling) == Some(Dimension::Processes) <==> processes && !files
                && !cpu && !memory
            &&& limits.excess(ceiling) == Some(Dimension::FileSize) <==> size && !processes
                && !files && !cpu && !memory
            &&& limits.excess(ceiling) == Some(Dimension::CoreDump) <==> core && !size
                && !processes && !files && !cpu && !memory
            &&& limits.excess(ceiling) is None <==> !core && !size && !processes && !files && !cpu
                && !memory
        }),
{
    reveal_with_fuel(IsolationLimits::excess_from, 7);
}

/// One where the condition holds, and otherwise zero.
pub open spec fn one_if(b: bool) -> nat {
    if b {
        1
    } else {
        0
    }
}

/// The number of constrained dimensions is the number of fields that are set.
pub proof fn law_constrained_dimensions_are_the_set_fields(limits: IsolationLimits)
    ensures
        limits.constrained().len() == one_if(limits.memory_bytes is Some) + one_if(
            limits.cpu_seconds is Some,
        ) + one_if(limits.open_files is Some) + one_if(limits.processes is Some) + one_if(
            limits.file_size_bytes is Some,
        ) + one_if(limits.core_dump_bytes is Some),
{
    let set = |d: Dimension| limits.at(d) is Some;
    reveal_with_fuel(Seq::filter, 7);
    let s6 = Dimension::all();
    let s5 = s6.drop_last();
    let s4 = s5.drop_last();
    let s3 = s4.drop_last();
    let s2 = s3.drop_last();
    let s1 = s2.drop_last();
    assert(s1.drop_last() =~= Seq::<Dimension>::empty());
    assert(s6.last() == Dimension::CoreDump);
    assert(s5.last() == Dimension::FileSize);
    assert(s4.last() == Dimension::Processes);
    assert(s3.last() == Dimension::OpenFiles);
    assert(s2.last() == Dimension::Cpu);
    assert(s1.last() == Dimension::Memory);
    assert(s1.drop_last().filter(set).len() == 0);
    assert(s1.filter(set).len() == one_if(limits.memory_bytes is Some));
    assert(s2.filter(set).len() == s1.filter(set).len() + one_if(limits.cpu_seconds is Some));
    assert(s3.filter(set).len() == s2.filter(set).len() + one_if(limits.open_files is Some));
    assert(s4.filter(set).len() == s3.filter(set).len() + one_if(limits.processes is Some));
    assert(s5.filter(set).len() == s4.filter(set).len() + one_if(limits.file_size_bytes is Some));
    assert(s6.filter(set).len() == s5.filter(set).len() + one_if(limits.core_dump_bytes is Some));
}

} // verus!
