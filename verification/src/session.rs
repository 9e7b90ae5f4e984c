//! Applying the limits: which kernel calls are made, in which order, and what is recorded of them.
//!
//! The library decides and records; the program around it makes the calls. [`apply`] gives a
//! [`Session`] with a call to make; [`Session::record`] takes what the call came back with, and
//! gives the next call or the final record.
//!
//! A token names no files, so what Landlock carries is what needs no names: no device node can be
//! made, wherever it would be. As under every Landlock ruleset, no file can be moved or linked from
//! one directory to another, which is answered as it is between two file systems. The control group
//! is the process's own, below the one it is in, so that what the command uses is accounted for by
//! itself.
//!
//! Both need file descriptors. The group is joined and the ruleset opened before any limit is set,
//! so that a token which leaves the command no descriptor to spare is still carried out.
use vstd::prelude::*;

use crate::applied::AppliedIsolation;
use crate::kernel::libc_enosys;
use crate::limits::{Dimension, IsolationLimits};
use crate::platform::{Platform, System};
use crate::seccomp::{platform_filter, SeccompFilter, SockFilter};
use crate::support::{IsolationSupport, Reply};

verus! {

impl Dimension {
    /// The resource limit that enforces the dimension.
    pub open spec fn rlimit(self) -> Seq<char> {
        match self {
            Dimension::Memory => "RLIMIT_AS"@,
            Dimension::Cpu => "RLIMIT_CPU"@,
            Dimension::OpenFiles => "RLIMIT_NOFILE"@,
            Dimension::Processes => "RLIMIT_NPROC"@,
            Dimension::FileSize => "RLIMIT_FSIZE"@,
            Dimension::CoreDump => "RLIMIT_CORE"@,
        }
    }

    pub fn rlimit_name(self) -> (name: &'static str)
        ensures
            name@ == self.rlimit(),
    {
        match self {
            Dimension::Memory => "RLIMIT_AS",
            Dimension::Cpu => "RLIMIT_CPU",
            Dimension::OpenFiles => "RLIMIT_NOFILE",
            Dimension::Processes => "RLIMIT_NPROC",
            Dimension::FileSize => "RLIMIT_FSIZE",
            Dimension::CoreDump => "RLIMIT_CORE",
        }
    }
}

/// A call into the kernel.
#[derive(Debug, PartialEq, Eq)]
pub enum KernelCall {
    /// `setrlimit` on the resource of the dimension.
    SetRlimit { dimension: Dimension, soft: u64, hard: u64 },
    /// `prctl(PR_SET_NO_NEW_PRIVS, 1)`.
    SetNoNewPrivs,
    /// `seccomp(SECCOMP_SET_MODE_FILTER)` with the program and no flags.
    InstallFilter { program: Vec<SockFilter> },
    /// `landlock_create_ruleset`: a ruleset that handles `denied` and holds no rule, so that these
    /// accesses are refused everywhere under it.
    OpenRuleset { denied: u64 },
    /// `landlock_restrict_self` with the ruleset that was opened.
    ConfineFilesystem,
    /// Moving the process into a control group of its own; see [`crate::group`].
    JoinControlGroup,
}

/// The Landlock accesses that are refused: making a character device (bit 6) and making a block
/// device (bit 11).
pub const DENIED_ACCESSES: u64 = 0x840;

/// The contents of a [`KernelCall`].
#[verifier::ext_equal]
pub enum Call {
    SetRlimit { dimension: Dimension, soft: u64, hard: u64 },
    SetNoNewPrivs,
    InstallFilter { program: Seq<SockFilter> },
    OpenRuleset { denied: u64 },
    ConfineFilesystem,
    JoinControlGroup,
}

impl Call {
    /// The mechanism that the call is about.
    pub open spec fn mechanism(self) -> Seq<char> {
        match self {
            Call::SetRlimit { dimension, .. } => dimension.rlimit(),
            Call::SetNoNewPrivs => "NO_NEW_PRIVS"@,
            Call::InstallFilter { .. } => "SECCOMP_FILTER"@,
            Call::OpenRuleset { .. } => "LANDLOCK"@,
            Call::ConfineFilesystem => "LANDLOCK"@,
            Call::JoinControlGroup => "CGROUP_V2"@,
        }
    }

    /// The call sets the resource limit of the dimension.
    pub open spec fn limits(self, dimension: Dimension) -> bool {
        self is SetRlimit && self->SetRlimit_dimension == dimension
    }
}

impl View for KernelCall {
    type V = Call;

    open spec fn view(&self) -> Call {
        match self {
            KernelCall::SetRlimit { dimension, soft, hard } => Call::SetRlimit {
                dimension: *dimension,
                soft: *soft,
                hard: *hard,
            },
            KernelCall::SetNoNewPrivs => Call::SetNoNewPrivs,
            KernelCall::InstallFilter { program } => Call::InstallFilter { program: program@ },
            KernelCall::OpenRuleset { denied } => Call::OpenRuleset { denied: *denied },
            KernelCall::ConfineFilesystem => Call::ConfineFilesystem,
            KernelCall::JoinControlGroup => Call::JoinControlGroup,
        }
    }
}

/// Everything that decides what is applied to a Linux process.
#[derive(Debug, PartialEq, Eq)]
pub struct Plan {
    pub limits: IsolationLimits,
    pub support: IsolationSupport,
    /// The filter, or the errno that says why there is none.
    pub filter: Result<SeccompFilter, i32>,
    /// The errno under which a missing mechanism is reported.
    pub enosys: i32,
}

/// The step for a dimension that may be left to the container.
pub open spec fn optional_step(dimension: Dimension, value: Option<u64>) -> Seq<(Dimension, u64)> {
    match value {
        Some(v) => seq![(dimension, v)],
        None => Seq::empty(),
    }
}

/// The resource limits to set, in order. A core dump is a copy of the sandbox's memory written
/// outside it, so where its limit is absent none is allowed.
pub open spec fn limit_steps(limits: IsolationLimits) -> Seq<(Dimension, u64)> {
    optional_step(Dimension::Memory, limits.memory_bytes) + optional_step(
        Dimension::Cpu,
        limits.cpu_seconds,
    ) + optional_step(Dimension::OpenFiles, limits.open_files) + optional_step(
        Dimension::Processes,
        limits.processes,
    ) + optional_step(Dimension::FileSize, limits.file_size_bytes) + seq![
        (
            Dimension::CoreDump,
            match limits.core_dump_bytes {
                Some(v) => v,
                None => 0,
            },
        ),
    ]
}

impl Plan {
    /// The resource limits to set, where the host has resource limits at all.
    pub open spec fn steps(self) -> Seq<(Dimension, u64)> {
        if self.support.rlimit {
            limit_steps(self.limits)
        } else {
            Seq::empty()
        }
    }

    /// The calls that come before every limit.
    pub open spec fn first_calls(self) -> Seq<Call> {
        let group = if self.support.cgroup_v2_writable {
            seq![Call::JoinControlGroup]
        } else {
            Seq::empty()
        };
        let ruleset = if self.support.landlock {
            seq![Call::OpenRuleset { denied: DENIED_ACCESSES }]
        } else {
            Seq::empty()
        };
        group + ruleset
    }

    /// Where the call that opens the ruleset stands, if there is one.
    pub open spec fn ruleset_index(self) -> int {
        if self.support.cgroup_v2_writable {
            1
        } else {
            0
        }
    }

    /// Where the call that sets `PR_SET_NO_NEW_PRIVS` stands.
    pub open spec fn privs_index(self) -> int {
        self.first_calls().len() as int + self.steps().len() as int
    }

    /// The ruleset was opened.
    pub open spec fn opened(self, replies: Seq<Reply>) -> bool {
        self.support.landlock && replies.len() > self.ruleset_index()
            && replies[self.ruleset_index()].ok()
    }

    /// The call that installs the filter.
    pub open spec fn filter_call(self) -> Call {
        Call::InstallFilter { program: (self.filter->Ok_0).program@ }
    }

    /// The calls that come last, given whether the ruleset was opened and whether
    /// `PR_SET_NO_NEW_PRIVS` was accepted (`privs`). Without the latter the kernel takes neither a
    /// ruleset nor a filter from an ordinary process, and a filter that a setuid binary can escape is
    /// not a filter.
    pub open spec fn last_calls(self, opened: bool, privs: bool) -> Seq<Call> {
        let landlock = if opened && privs {
            seq![Call::ConfineFilesystem]
        } else {
            Seq::empty()
        };
        let filter = if self.support.seccomp_filter && privs && self.filter is Ok {
            seq![self.filter_call()]
        } else {
            Seq::empty()
        };
        landlock + filter
    }

    /// The call to make once `replies` have come back for the calls before it; `None` when there
    /// is nothing left to do.
    ///
    /// The hard limit is lowered with the soft limit: leaving it high would let the sandboxed
    /// process raise its own soft limit back up. `PR_SET_NO_NEW_PRIVS` comes before the filter and
    /// unconditionally.
    pub open spec fn call_after(self, replies: Seq<Reply>) -> Option<Call> {
        let n = replies.len() as int;
        let first = self.first_calls().len() as int;
        let privs = self.privs_index();
        if n < first {
            Some(self.first_calls()[n])
        } else if n < privs {
            Some(
                Call::SetRlimit {
                    dimension: self.steps()[n - first].0,
                    soft: self.steps()[n - first].1,
                    hard: self.steps()[n - first].1,
                },
            )
        } else if n == privs {
            Some(Call::SetNoNewPrivs)
        } else {
            let last = self.last_calls(self.opened(replies), replies[privs].ok());
            if n - privs - 1 < last.len() {
                Some(last[n - privs - 1])
            } else {
                None
            }
        }
    }

    /// The host offers filters, but none could be built.
    pub open spec fn lacks_filter(self) -> bool {
        self.support.seccomp_filter && self.filter is Err
    }

    /// What is recorded before the first call.
    pub open spec fn initial(self) -> crate::applied::Applied {
        if self.support.rlimit {
            crate::applied::Applied::nothing()
        } else {
            crate::applied::Applied::nothing().failed("RLIMIT"@, self.enosys)
        }
    }

    /// What is recorded once `call` has come back with `reply`, where `opened` tells whether the
    /// ruleset had been opened.
    ///
    /// Where `PR_SET_NO_NEW_PRIVS` is refused, what it would have led to does not happen either, and
    /// is named with the same errno. A filter that could not be built is named where the call that
    /// installs it would have stood.
    pub open spec fn recorded(
        self,
        applied: crate::applied::Applied,
        call: Call,
        opened: bool,
        reply: Reply,
    ) -> crate::applied::Applied {
        let noted = if !reply.ok() {
            applied.failed(call.mechanism(), reply.errno)
        } else {
            match call {
                Call::SetRlimit { dimension, .. } => applied.limited(dimension.rlimit()),
                Call::SetNoNewPrivs => crate::applied::Applied { no_new_privs: true, ..applied },
                Call::InstallFilter { .. } => crate::applied::Applied {
                    seccomp_filter: true,
                    blocked_syscalls: (self.filter->Ok_0).blocked as nat,
                    ..applied
                },
                Call::OpenRuleset { .. } => applied,
                Call::ConfineFilesystem => crate::applied::Applied { landlock: true, ..applied },
                Call::JoinControlGroup => crate::applied::Applied { cgroup_v2: true, ..applied },
            }
        };
        match call {
            Call::SetNoNewPrivs => if reply.ok() {
                noted.failed_if(
                    self.lacks_filter() && !opened,
                    "SECCOMP_FILTER"@,
                    self.filter->Err_0,
                )
            } else {
                noted.failed_if(opened, "LANDLOCK"@, reply.errno).failed_if(
                    self.support.seccomp_filter,
                    "SECCOMP_FILTER"@,
                    reply.errno,
                )
            },
            Call::ConfineFilesystem => noted.failed_if(
                self.lacks_filter(),
                "SECCOMP_FILTER"@,
                self.filter->Err_0,
            ),
            _ => noted,
        }
    }

    /// What is recorded once `replies` have come back.
    pub open spec fn applied_after(self, replies: Seq<Reply>) -> crate::applied::Applied
        decreases replies.len(),
    {
        if replies.len() == 0 {
            self.initial()
        } else {
            self.recorded(
                self.applied_after(replies.drop_last()),
                self.call_after(replies.drop_last())->0,
                self.opened(replies.drop_last()),
                replies.last(),
            )
        }
    }

    /// The replies belong to calls that were made.
    pub open spec fn is_run(self, replies: Seq<Reply>) -> bool {
        forall|i: int|
            0 <= i < replies.len() ==> (#[trigger] self.call_after(replies.take(i))) is Some
    }

    /// The replies belong to calls that were made, and there is nothing left to do.
    pub open spec fn is_finished_run(self, replies: Seq<Reply>) -> bool {
        self.is_run(replies) && self.call_after(replies) is None
    }

    /// The `n`-th call of the run that `replies` belong to.
    #[verifier::opaque]
    pub open spec fn call_at(self, replies: Seq<Reply>, n: int) -> Call {
        self.call_after(replies.take(n))->0
    }
}

/// An application of limits that waits for a call to come back.
pub struct Session {
    plan: Plan,
    steps: Vec<(Dimension, u64)>,
    position: usize,
    opened: bool,
    next: KernelCall,
    applied: AppliedIsolation,
    replies: Ghost<Seq<Reply>>,
}

/// How far an application has come.
pub enum Progress {
    /// A call is to be made.
    Pending(Session),
    /// Nothing is left to do; this is what was applied.
    Finished(AppliedIsolation),
}

impl Progress {
    /// This is how far `plan` has come once `replies` have come back.
    pub open spec fn is_after(self, plan: Plan, replies: Seq<Reply>) -> bool {
        &&& plan.is_run(replies)
        &&& match self {
            Progress::Pending(session) => {
                &&& session.plan() == plan
                &&& session.replies() == replies
                &&& plan.call_after(replies) is Some
            },
            Progress::Finished(applied) => {
                &&& applied@ == plan.applied_after(replies)
                &&& plan.call_after(replies) is None
            },
        }
    }
}

fn set_optional(steps: &mut Vec<(Dimension, u64)>, dimension: Dimension, value: Option<u64>)
    ensures
        final(steps)@ == old(steps)@ + optional_step(dimension, value),
{
    if let Some(v) = value {
        steps.push((dimension, v));
    }
    assert(steps@ =~= old(steps)@ + optional_step(dimension, value));
}

fn plan_steps(limits: &IsolationLimits, support: &IsolationSupport) -> (steps: Vec<
    (Dimension, u64),
>)
    ensures
        steps@ == (if support.rlimit {
            limit_steps(*limits)
        } else {
            Seq::empty()
        }),
        steps@.len() <= 6,
{
    let mut steps: Vec<(Dimension, u64)> = Vec::new();
    if support.rlimit {
        set_optional(&mut steps, Dimension::Memory, limits.memory_bytes);
        set_optional(&mut steps, Dimension::Cpu, limits.cpu_seconds);
        set_optional(&mut steps, Dimension::OpenFiles, limits.open_files);
        set_optional(&mut steps, Dimension::Processes, limits.processes);
        set_optional(&mut steps, Dimension::FileSize, limits.file_size_bytes);
        // Absent means "no core dumps", not "unlimited".
        let core = match limits.core_dump_bytes {
            Some(v) => v,
            None => 0,
        };
        steps.push((Dimension::CoreDump, core));
        assert(steps@ =~= limit_steps(*limits));
    }
    steps
}

fn copy_program(program: &Vec<SockFilter>) -> (copy: Vec<SockFilter>)
    ensures
        copy@ == program@,
{
    let mut copy: Vec<SockFilter> = Vec::with_capacity(program.len());
    let mut i: usize = 0;
    while i < program.len()
        invariant
            i <= program@.len(),
            copy@ =~= program@.take(i as int),
        decreases program.len() - i,
    {
        copy.push(program[i]);
        i = i + 1;
    }
    assert(program@.take(i as int) =~= program@);
    copy
}

fn copy_call(call: &KernelCall) -> (copy: KernelCall)
    ensures
        copy@ == call@,
{
    match call {
        KernelCall::SetRlimit { dimension, soft, hard } => KernelCall::SetRlimit {
            dimension: *dimension,
            soft: *soft,
            hard: *hard,
        },
        KernelCall::SetNoNewPrivs => KernelCall::SetNoNewPrivs,
        KernelCall::InstallFilter { program } => KernelCall::InstallFilter {
            program: copy_program(program),
        },
        KernelCall::OpenRuleset { denied } => KernelCall::OpenRuleset { denied: *denied },
        KernelCall::ConfineFilesystem => KernelCall::ConfineFilesystem,
        KernelCall::JoinControlGroup => KernelCall::JoinControlGroup,
    }
}

/// Where the call that sets `PR_SET_NO_NEW_PRIVS` stands.
fn privs_position(plan: &Plan, steps: &Vec<(Dimension, u64)>) -> (position: usize)
    requires
        steps@ == plan.steps(),
    ensures
        position == plan.privs_index(),
{
    let mut position: usize = steps.len();
    if plan.support.cgroup_v2_writable {
        position = position + 1;
    }
    if plan.support.landlock {
        position = position + 1;
    }
    position
}

/// The call to make at `position`, where `opened` tells whether the ruleset was opened, and `privs`
/// whether `PR_SET_NO_NEW_PRIVS` was accepted.
fn call_at_position(
    plan: &Plan,
    steps: &Vec<(Dimension, u64)>,
    position: usize,
    opened: bool,
    privs: bool,
    Ghost(replies): Ghost<Seq<Reply>>,
) -> (call: Option<KernelCall>)
    requires
        steps@ == plan.steps(),
        position == replies.len(),
        opened == plan.opened(replies),
        position > plan.privs_index() ==> privs == replies[plan.privs_index()].ok(),
    ensures
        match call {
            Some(c) => plan.call_after(replies) == Some(c@),
            None => plan.call_after(replies) is None,
        },
{
    let asked: usize = privs_position(plan, steps);
    if position > asked {
        let mut index: usize = position - asked - 1;
        if opened && privs {
            if index == 0 {
                return Some(KernelCall::ConfineFilesystem);
            }
            index = index - 1;
        }
        if plan.support.seccomp_filter && privs && index == 0 {
            if let Ok(filter) = &plan.filter {
                return Some(KernelCall::InstallFilter { program: copy_program(&filter.program) });
            }
        }
        return None;
    }
    let mut index: usize = position;
    if plan.support.cgroup_v2_writable {
        if index == 0 {
            return Some(KernelCall::JoinControlGroup);
        }
        index = index - 1;
    }
    if plan.support.landlock {
        if index == 0 {
            return Some(KernelCall::OpenRuleset { denied: DENIED_ACCESSES });
        }
        index = index - 1;
    }
    if index < steps.len() {
        let (dimension, value) = steps[index];
        Some(KernelCall::SetRlimit { dimension, soft: value, hard: value })
    } else {
        Some(KernelCall::SetNoNewPrivs)
    }
}

/// Records what a call came back with.
fn record_reply(
    plan: &Plan,
    call: &KernelCall,
    opened: bool,
    reply: Reply,
    applied: &mut AppliedIsolation,
)
    requires
        call@ is InstallFilter ==> plan.filter is Ok,
    ensures
        final(applied)@ == plan.recorded(old(applied)@, call@, opened, reply),
{
    let errno: i32 = reply.errno;
    let accepted = reply.status == 0;
    match call {
        KernelCall::SetRlimit { dimension, .. } => {
            if accepted {
                applied.record_limit(dimension.rlimit_name());
            } else {
                applied.record_failure(dimension.rlimit_name(), errno);
            }
        },
        KernelCall::SetNoNewPrivs => {
            if accepted {
                applied.no_new_privs = true;
                if let Err(code) = &plan.filter {
                    applied.record_failure_if(
                        plan.support.seccomp_filter && !opened,
                        "SECCOMP_FILTER",
                        *code,
                    );
                }
            } else {
                applied.record_failure("NO_NEW_PRIVS", errno);
                applied.record_failure_if(opened, "LANDLOCK", errno);
                applied.record_failure_if(plan.support.seccomp_filter, "SECCOMP_FILTER", errno);
            }
        },
        KernelCall::InstallFilter { .. } => {
            if accepted {
                if let Ok(filter) = &plan.filter {
                    applied.seccomp_filter = true;
                    applied.blocked_syscalls = filter.blocked;
                }
            } else {
                applied.record_failure("SECCOMP_FILTER", errno);
            }
        },
        KernelCall::OpenRuleset { .. } => {
            applied.record_failure_if(!accepted, "LANDLOCK", errno);
        },
        KernelCall::ConfineFilesystem => {
            if accepted {
                applied.landlock = true;
            } else {
                applied.record_failure("LANDLOCK", errno);
            }
            if let Err(code) = &plan.filter {
                applied.record_failure_if(plan.support.seccomp_filter, "SECCOMP_FILTER", *code);
            }
        },
        KernelCall::JoinControlGroup => {
            if accepted {
                applied.cgroup_v2 = true;
            } else {
                applied.record_failure("CGROUP_V2", errno);
            }
        },
    }
    assert(applied@ =~= plan.recorded(old(applied)@, call@, opened, reply));
}

impl Session {
    pub closed spec fn plan(self) -> Plan {
        self.plan
    }

    /// What has come back so far.
    pub closed spec fn replies(self) -> Seq<Reply> {
        self.replies@
    }

    #[verifier::type_invariant]
    spec fn pending(self) -> bool {
        &&& self.steps@ == self.plan.steps()
        &&& self.steps@.len() <= 6
        &&& self.position == self.replies@.len()
        &&& self.opened == self.plan.opened(self.replies@)
        &&& self.applied@ == self.plan.applied_after(self.replies@)
        &&& self.plan.call_after(self.replies@) == Some(self.next@)
        &&& self.plan.is_run(self.replies@)
    }

    /// Starts carrying out a plan.
    pub fn begin(plan: Plan) -> (session: Session)
        ensures
            session.plan() == plan,
            session.replies() == Seq::<Reply>::empty(),
            plan.is_run(session.replies()) && plan.call_after(session.replies()) is Some,
    {
        let steps = plan_steps(&plan.limits, &plan.support);
        let mut applied = AppliedIsolation::default();
        applied.record_failure_if(!plan.support.rlimit, "RLIMIT", plan.enosys);
        let next = call_at_position(&plan, &steps, 0, false, false, Ghost(Seq::empty())).unwrap();
        Session {
            plan,
            steps,
            position: 0,
            opened: false,
            next,
            applied,
            replies: Ghost(Seq::empty()),
        }
    }

    /// The call to make next.
    pub fn call(&self) -> (call: KernelCall)
        ensures
            self.plan().call_after(self.replies()) == Some(call@),
    {
        proof {
            use_type_invariant(self);
        }
        copy_call(&self.next)
    }

    /// Takes what the call came back with.
    pub fn record(self, reply: Reply) -> (progress: Progress)
        ensures
            progress.is_after(self.plan(), self.replies().push(reply)),
            self.plan().is_run(self.replies().push(reply)),
            match progress {
                Progress::Pending(session) => session.plan() == self.plan() && session.replies()
                    == self.replies().push(reply) && self.plan().call_after(
                    self.replies().push(reply),
                ) is Some,
                Progress::Finished(applied) => applied@ == self.plan().applied_after(
                    self.replies().push(reply),
                ) && self.plan().call_after(self.replies().push(reply)) is None,
            },
    {
        proof {
            use_type_invariant(&self);
        }
        let Session { plan, steps, position, opened, next, mut applied, replies } = self;
        let ghost before = replies@;
        let ghost after = before.push(reply);
        assert(after.drop_last() =~= before);
        record_reply(&plan, &next, opened, reply, &mut applied);
        let opened = opened || (matches!(next, KernelCall::OpenRuleset { .. }) && reply.status == 0);
        proof {
            lemma_run_length(plan, before);
            lemma_run_extends(plan, before, reply);
            lemma_privileges(plan, after);
        }
        let privs = applied.no_new_privs;
        match call_at_position(&plan, &steps, position + 1, opened, privs, Ghost(after)) {
            Some(call) => Progress::Pending(
                Session {
                    plan,
                    steps,
                    position: position + 1,
                    opened,
                    next: call,
                    applied,
                    replies: Ghost(after),
                },
            ),
            None => Progress::Finished(applied),
        }
    }
}

/// Starts applying the limits to the current process, between fork and exec, so that everything
/// lands on the child and nothing on the parent.
///
/// On a system other than Linux nothing is applied, and the failure says so.
pub fn apply(limits: &IsolationLimits, support: &IsolationSupport, platform: Platform) -> (progress:
    Progress)
    ensures
        match progress {
            Progress::Pending(session) => {
                &&& platform.system is Linux
                &&& session.plan().limits == *limits
                &&& session.plan().support == *support
                &&& crate::kernel::is_enosys(session.plan().enosys)
                &&& exists|numbers: Seq<i64>|
                    crate::kernel::is_numbering(numbers) && #[trigger] crate::seccomp::is_filter_for(
                        session.plan().filter,
                        platform,
                        numbers,
                    )
                &&& session.plan().filter is Ok ==> exists|numbers: Seq<i64>|
                    platform.table_fits(numbers) && #[trigger] (session.plan().filter->Ok_0).refuses(
                        platform.audit()->0,
                        numbers,
                    )
                &&& platform.audit() is None ==> session.plan().filter is Err
                &&& session.plan().filter is Err ==> crate::kernel::is_enosys(session.plan().filter->Err_0)
                &&& session.replies() == Seq::<Reply>::empty()
            },
            Progress::Finished(applied) => {
                &&& platform.system !is Linux
                &&& applied@ == crate::applied::Applied::nothing().failed("PLATFORM"@, 0)
                &&& applied@.failures == seq![("PLATFORM"@, 0i32)]
                &&& applied@.rlimits_applied.len() == 0
            },
        },
{
    match platform.system {
        System::Linux => {
            let plan = Plan {
                limits: *limits,
                support: *support,
                filter: platform_filter(platform),
                enosys: libc_enosys(),
            };
            Progress::Pending(Session::begin(plan))
        },
        _ => {
            let mut applied = AppliedIsolation::default();
            applied.record_failure("PLATFORM", 0);
            Progress::Finished(applied)
        },
    }
}

/// How long a run is.
proof fn lemma_run_length(plan: Plan, replies: Seq<Reply>)
    requires
        plan.is_run(replies),
    ensures
        replies.len() <= 11,
{
    if replies.len() > 0 {
        let earlier = replies.take(replies.len() - 1);
        assert(plan.call_after(earlier) is Some);
    }
}

/// Privileges are reported as dropped exactly when `PR_SET_NO_NEW_PRIVS` was accepted.
proof fn lemma_privileges(plan: Plan, replies: Seq<Reply>)
    requires
        plan.is_run(replies),
    ensures
        plan.applied_after(replies).no_new_privs <==> replies.len() > plan.privs_index()
            && replies[plan.privs_index()].ok(),
    decreases replies.len(),
{
    if replies.len() > 0 {
        lemma_run_prefix(plan, replies);
        lemma_privileges(plan, replies.drop_last());
        lemma_last_call(plan, replies);
    }
}

/// The last call of a run.
proof fn lemma_last_call(plan: Plan, replies: Seq<Reply>)
    requires
        plan.is_run(replies),
        replies.len() > 0,
    ensures
        plan.call_after(replies.drop_last()) is Some,
        plan.call_at(replies, replies.len() - 1) == plan.call_after(replies.drop_last())->0,
{
    reveal(Plan::call_at);
    assert(replies.take(replies.len() - 1) =~= replies.drop_last());
    assert(plan.call_after(replies.take(replies.len() - 1)) is Some);
}

/// An earlier call of a run does not depend on the last reply.
proof fn lemma_earlier_call(plan: Plan, replies: Seq<Reply>, n: int)
    requires
        0 <= n < replies.len(),
    ensures
        plan.call_at(replies.drop_last(), n) == plan.call_at(replies, n),
{
    reveal(Plan::call_at);
    assert(replies.drop_last().take(n) =~= replies.take(n));
}

/// A run goes on while there is a call to make.
proof fn lemma_run_extends(plan: Plan, replies: Seq<Reply>, reply: Reply)
    requires
        plan.is_run(replies),
        plan.call_after(replies) is Some,
    ensures
        plan.is_run(replies.push(reply)),
{
    let longer = replies.push(reply);
    assert forall|i: int| 0 <= i < longer.len() implies (#[trigger] plan.call_after(
        longer.take(i),
    )) is Some by {
        if i < replies.len() {
            assert(longer.take(i) =~= replies.take(i));
            assert(plan.call_after(replies.take(i)) is Some);
        } else {
            assert(longer.take(i) =~= replies);
        }
    }
}

/// A run that is cut short is a run.
proof fn lemma_run_prefix(plan: Plan, replies: Seq<Reply>)
    requires
        plan.is_run(replies),
        replies.len() > 0,
    ensures
        plan.is_run(replies.drop_last()),
{
    let shorter = replies.drop_last();
    assert forall|i: int| 0 <= i < shorter.len() implies (#[trigger] plan.call_after(
        shorter.take(i),
    )) is Some by {
        assert(shorter.take(i) =~= replies.take(i));
        assert(plan.call_after(replies.take(i)) is Some);
    }
}

/// Different dimensions have different resource limits.
proof fn lemma_rlimit_names_are_distinct(a: Dimension, b: Dimension)
    requires
        a.rlimit() == b.rlimit(),
    ensures
        a == b,
{
    reveal_strlit("RLIMIT_AS");
    reveal_strlit("RLIMIT_CPU");
    reveal_strlit("RLIMIT_NOFILE");
    reveal_strlit("RLIMIT_NPROC");
    reveal_strlit("RLIMIT_FSIZE");
    reveal_strlit("RLIMIT_CORE");
    assert("RLIMIT_AS"@.len() == 9);
    assert("RLIMIT_CPU"@.len() == 10);
    assert("RLIMIT_CORE"@.len() == 11);
    assert("RLIMIT_NPROC"@.len() == 12 && "RLIMIT_NPROC"@[7] == 'N');
    assert("RLIMIT_FSIZE"@.len() == 12 && "RLIMIT_FSIZE"@[7] == 'F');
    assert("RLIMIT_NOFILE"@.len() == 13);
    assert(a.rlimit().len() == b.rlimit().len());
    assert(a.rlimit()[7] == b.rlimit()[7]);
}

/// Every application asks for at most eleven calls, so it comes to an end.
pub proof fn law_a_run_is_short(plan: Plan, replies: Seq<Reply>)
    requires
        plan.is_run(replies),
    ensures
        replies.len() <= 11,
{
    lemma_run_length(plan, replies);
}

/// The dimensions a token limits are asked for with the token's own value as soft and as hard
/// limit, and no others are, except that core dumps are always limited, to nothing unless the token
/// says otherwise.
pub proof fn law_limits_asked_for_are_the_tokens(plan: Plan, dimension: Dimension, value: u64)
    requires
        plan.support.rlimit,
    ensures
        plan.steps().contains((dimension, value)) <==> plan.limits.at(dimension) == Some(value) || (
        dimension is CoreDump && plan.limits.core_dump_bytes is None && value == 0),
{
    let limits = plan.limits;
    let a = optional_step(Dimension::Memory, limits.memory_bytes);
    let b = a + optional_step(Dimension::Cpu, limits.cpu_seconds);
    let c = b + optional_step(Dimension::OpenFiles, limits.open_files);
    let d = c + optional_step(Dimension::Processes, limits.processes);
    let e = d + optional_step(Dimension::FileSize, limits.file_size_bytes);
    let steps = limit_steps(limits);
    if plan.limits.at(dimension) == Some(value) || (dimension is CoreDump
        && plan.limits.core_dump_bytes is None && value == 0) {
        let i: int = match dimension {
            Dimension::Memory => 0,
            Dimension::Cpu => a.len() as int,
            Dimension::OpenFiles => b.len() as int,
            Dimension::Processes => c.len() as int,
            Dimension::FileSize => d.len() as int,
            Dimension::CoreDump => e.len() as int,
        };
        assert(steps[i] == (dimension, value));
    }
    if plan.steps().contains((dimension, value)) {
        let i = choose|i: int| 0 <= i < steps.len() && steps[i] == (dimension, value);
        assert(steps[i] == (dimension, value));
    }
}

/// Every call to set a resource limit lowers the hard limit with the soft limit.
pub proof fn law_hard_limit_is_lowered_with_the_soft_limit(plan: Plan, replies: Seq<Reply>)
    ensures
        plan.call_after(replies) matches Some(Call::SetRlimit { soft, hard, .. }) ==> soft == hard,
{
}

/// The filter is installed and the ruleset put in force only once `PR_SET_NO_NEW_PRIVS` was
/// accepted, and a run does not finish without having asked for `PR_SET_NO_NEW_PRIVS`.
pub proof fn law_no_new_privs_comes_before_the_filter(plan: Plan, replies: Seq<Reply>)
    requires
        plan.is_run(replies),
    ensures
        plan.call_after(replies) is Some && (plan.call_after(replies)->0 is InstallFilter
            || plan.call_after(replies)->0 is ConfineFilesystem) ==> {
            let asked = plan.privs_index();
            &&& asked < replies.len()
            &&& plan.call_after(replies.take(asked)) == Some(Call::SetNoNewPrivs)
            &&& replies[asked].ok()
            &&& plan.applied_after(replies).no_new_privs
        },
        plan.call_after(replies) is None ==> {
            let asked = plan.privs_index();
            &&& asked < replies.len()
            &&& plan.call_after(replies.take(asked)) == Some(Call::SetNoNewPrivs)
        },
{
    lemma_privileges(plan, replies);
}

/// The calls that need a file descriptor come before every limit, and so before the limit on file
/// descriptors.
pub proof fn law_descriptors_come_before_their_limit(plan: Plan, replies: Seq<Reply>, n: int)
    requires
        plan.is_run(replies),
        plan.call_after(replies) is Some,
        plan.call_after(replies)->0 is OpenRuleset || plan.call_after(replies)->0 is JoinControlGroup,
        0 <= n < replies.len(),
    ensures
        !(plan.call_at(replies, n) is SetRlimit),
{
    reveal(Plan::call_at);
}

/// The call was made and succeeded.
pub open spec fn was_accepted(plan: Plan, replies: Seq<Reply>, call: Call) -> bool {
    exists|n: int|
        0 <= n < replies.len() && #[trigger] plan.call_at(replies, n) == call && replies[n].ok()
}

/// What one more reply changes about the calls that were accepted.
proof fn lemma_was_accepted(plan: Plan, replies: Seq<Reply>, call: Call)
    requires
        plan.is_run(replies),
        replies.len() > 0,
    ensures
        was_accepted(plan, replies, call) <==> was_accepted(plan, replies.drop_last(), call) || (
        plan.call_after(replies.drop_last())->0 == call && replies.last().ok()),
{
    let shorter = replies.drop_last();
    let last = replies.len() - 1;
    lemma_last_call(plan, replies);
    if was_accepted(plan, replies, call) {
        let n = choose|n: int|
            0 <= n < replies.len() && #[trigger] plan.call_at(replies, n) == call
                && replies[n].ok();
        if n < last {
            lemma_earlier_call(plan, replies, n);
            assert(plan.call_at(shorter, n) == call && shorter[n].ok());
        }
    }
    if was_accepted(plan, shorter, call) {
        let n = choose|n: int|
            0 <= n < shorter.len() && #[trigger] plan.call_at(shorter, n) == call
                && shorter[n].ok();
        lemma_earlier_call(plan, replies, n);
        assert(plan.call_at(replies, n) == call && replies[n].ok());
    }
    if plan.call_after(shorter)->0 == call && replies.last().ok() {
        assert(plan.call_at(replies, last) == call && replies[last].ok());
    }
}

/// What is claimed is what the kernel accepted: privileges are reported as dropped, the filter and
/// the Landlock ruleset as installed, and the control group as joined, exactly when that call was
/// made and succeeded, and the number of refused system calls is the filter's. Neither the filter
/// nor the ruleset is ever claimed without `PR_SET_NO_NEW_PRIVS`.
pub proof fn law_claims_are_what_was_accepted(plan: Plan, replies: Seq<Reply>)
    requires
        plan.is_run(replies),
    ensures
        ({
            let applied = plan.applied_after(replies);
            &&& applied.no_new_privs <==> was_accepted(plan, replies, Call::SetNoNewPrivs)
            &&& applied.seccomp_filter <==> was_accepted(plan, replies, plan.filter_call())
            &&& applied.landlock <==> was_accepted(plan, replies, Call::ConfineFilesystem)
            &&& applied.cgroup_v2 <==> was_accepted(plan, replies, Call::JoinControlGroup)
            &&& applied.blocked_syscalls == (if applied.seccomp_filter {
                (plan.filter->Ok_0).blocked as nat
            } else {
                0
            })
            &&& applied.seccomp_filter || applied.landlock ==> applied.no_new_privs
        }),
    decreases replies.len(),
{
    if replies.len() > 0 {
        let shorter = replies.drop_last();
        lemma_run_prefix(plan, replies);
        lemma_last_call(plan, replies);
        lemma_privileges(plan, shorter);
        law_claims_are_what_was_accepted(plan, shorter);
        lemma_was_accepted(plan, replies, Call::SetNoNewPrivs);
        lemma_was_accepted(plan, replies, plan.filter_call());
        lemma_was_accepted(plan, replies, Call::ConfineFilesystem);
        lemma_was_accepted(plan, replies, Call::JoinControlGroup);
    }
}

/// A call that sets the resource limit of the dimension was made and succeeded.
pub open spec fn limit_accepted(plan: Plan, replies: Seq<Reply>, dimension: Dimension) -> bool {
    exists|n: int|
        0 <= n < replies.len() && (#[trigger] plan.call_at(replies, n)).limits(dimension)
            && replies[n].ok()
}

/// What one more reply changes about the resource limits that were accepted.
proof fn lemma_limit_accepted(plan: Plan, replies: Seq<Reply>, dimension: Dimension)
    requires
        plan.is_run(replies),
        replies.len() > 0,
    ensures
        limit_accepted(plan, replies, dimension) <==> limit_accepted(
            plan,
            replies.drop_last(),
            dimension,
        ) || ((plan.call_after(replies.drop_last())->0).limits(dimension) && replies.last().ok()),
{
    let shorter = replies.drop_last();
    let last = replies.len() - 1;
    lemma_last_call(plan, replies);
    if limit_accepted(plan, replies, dimension) {
        let n = choose|n: int|
            0 <= n < replies.len() && (#[trigger] plan.call_at(replies, n)).limits(dimension)
                && replies[n].ok();
        if n < last {
            lemma_earlier_call(plan, replies, n);
            assert(plan.call_at(shorter, n).limits(dimension) && shorter[n].ok());
        }
    }
    if limit_accepted(plan, shorter, dimension) {
        let n = choose|n: int|
            0 <= n < shorter.len() && (#[trigger] plan.call_at(shorter, n)).limits(dimension)
                && shorter[n].ok();
        lemma_earlier_call(plan, replies, n);
        assert(plan.call_at(replies, n).limits(dimension) && replies[n].ok());
    }
    if (plan.call_after(shorter)->0).limits(dimension) && replies.last().ok() {
        assert(plan.call_at(replies, last).limits(dimension) && replies[last].ok());
    }
}

/// A resource limit is reported as applied exactly when the call that sets it was made and
/// succeeded.
pub proof fn law_limits_reported_are_those_accepted(
    plan: Plan,
    replies: Seq<Reply>,
    dimension: Dimension,
)
    requires
        plan.is_run(replies),
    ensures
        plan.applied_after(replies).rlimits_applied.contains(dimension.rlimit())
            <==> limit_accepted(plan, replies, dimension),
    decreases replies.len(),
{
    if replies.len() > 0 {
        let last = replies.len() - 1;
        let before = plan.applied_after(replies.drop_last()).rlimits_applied;
        let after = plan.applied_after(replies).rlimits_applied;
        lemma_run_prefix(plan, replies);
        law_limits_reported_are_those_accepted(plan, replies.drop_last(), dimension);
        lemma_limit_accepted(plan, replies, dimension);
        let call = plan.call_after(replies.drop_last())->0;
        if call is SetRlimit && replies[last].ok() {
            let set = call->SetRlimit_dimension;
            assert(after == before.push(set.rlimit()));
            broadcast use vstd::seq_lib::group_seq_properties;

            if set.rlimit() == dimension.rlimit() {
                lemma_rlimit_names_are_distinct(set, dimension);
            }
        } else {
            assert(after == before);
        }
    }
}

/// Recording a reply keeps the failures that were recorded before.
proof fn lemma_failures_stay(plan: Plan, replies: Seq<Reply>, failure: (Seq<char>, i32))
    requires
        replies.len() > 0,
        plan.applied_after(replies.drop_last()).failures.contains(failure),
    ensures
        plan.applied_after(replies).failures.contains(failure),
{
    let before = plan.applied_after(replies.drop_last()).failures;
    let after = plan.applied_after(replies).failures;
    let k = choose|k: int| 0 <= k < before.len() && before[k] == failure;
    assert(after[k] == failure);
}

/// What a run has recorded of what was refused.
proof fn lemma_refusals_are_recorded(plan: Plan, replies: Seq<Reply>, n: int)
    requires
        plan.is_run(replies),
    ensures
        0 <= n < replies.len() && !replies[n].ok() ==> {
            let failures = plan.applied_after(replies).failures;
            &&& failures.contains((plan.call_at(replies, n).mechanism(), replies[n].errno))
            &&& plan.call_at(replies, n) is SetNoNewPrivs && plan.opened(replies)
                ==> failures.contains(("LANDLOCK"@, replies[n].errno))
        },
        !plan.support.rlimit ==> plan.applied_after(replies).failures.contains(
            ("RLIMIT"@, plan.enosys),
        ),
    decreases replies.len(),
{
    let failures = plan.applied_after(replies).failures;
    if replies.len() == 0 {
        if !plan.support.rlimit {
            assert(failures[0] == ("RLIMIT"@, plan.enosys));
        }
    } else {
        let last = replies.len() - 1;
        let shorter = replies.drop_last();
        let before = plan.applied_after(shorter).failures;
        lemma_run_prefix(plan, replies);
        lemma_last_call(plan, replies);
        lemma_refusals_are_recorded(plan, shorter, n);
        assert forall|f: (Seq<char>, i32)| before.contains(f) implies failures.contains(f) by {
            lemma_failures_stay(plan, replies, f);
        }
        if 0 <= n < last {
            lemma_earlier_call(plan, replies, n);
            assert(plan.call_at(replies, n) is SetNoNewPrivs ==> n == plan.privs_index()) by {
                reveal(Plan::call_at);
                assert(plan.call_after(replies.take(n)) is Some);
            }
        }
        if n == last && !replies[n].ok() {
            let call = plan.call_at(replies, n);
            let first = before.len() as int;
            assert(failures[first] == (call.mechanism(), replies[n].errno));
            if call is SetNoNewPrivs && plan.opened(replies) {
                assert(failures[first + 1] == ("LANDLOCK"@, replies[n].errno));
            }
        }
    }
}

/// A call of a run was accepted, or its mechanism is named.
proof fn lemma_accepted_or_named(plan: Plan, replies: Seq<Reply>, n: int)
    requires
        plan.is_run(replies),
        0 <= n < replies.len(),
    ensures
        replies[n].ok() ==> was_accepted(plan, replies, plan.call_at(replies, n)),
        !replies[n].ok() ==> plan.applied_after(replies).names(
            plan.call_at(replies, n).mechanism(),
        ),
{
    let call = plan.call_at(replies, n);
    if !replies[n].ok() {
        lemma_refusals_are_recorded(plan, replies, n);
        lemma_named(plan.applied_after(replies), call.mechanism(), replies[n].errno);
    }
}

/// In a finished run, a filter that is offered and was not installed is named, after everything
/// else that did not happen: with the errno of the call that installs it, with the errno of
/// `PR_SET_NO_NEW_PRIVS` where that was refused, or with the reason why it could not be built.
pub proof fn law_a_missing_filter_is_named_last(plan: Plan, replies: Seq<Reply>)
    requires
        plan.is_finished_run(replies),
        plan.support.seccomp_filter,
        !plan.applied_after(replies).seccomp_filter,
    ensures
        plan.applied_after(replies).failures.len() > 0,
        plan.applied_after(replies).failures.last() == (
            "SECCOMP_FILTER"@,
            if !replies[plan.privs_index()].ok() {
                replies[plan.privs_index()].errno
            } else if plan.filter is Err {
                plan.filter->Err_0
            } else {
                replies.last().errno
            },
        ),
{
    lemma_last_call(plan, replies);
}

/// A failure that is recorded names its mechanism.
proof fn lemma_named(applied: crate::applied::Applied, mechanism: Seq<char>, errno: i32)
    requires
        applied.failures.contains((mechanism, errno)),
    ensures
        applied.names(mechanism),
{
    let k = choose|k: int|
        0 <= k < applied.failures.len() && applied.failures[k] == (mechanism, errno);
    assert(applied.failures[k].0 == mechanism);
}

/// Nothing that was refused is dropped: every refused call is named with its errno, and so is a
/// host without resource limits, and a filter that could not be built. In a finished run every tier
/// above the floor that the host offers was applied or is named.
pub proof fn law_every_refusal_is_named(plan: Plan, replies: Seq<Reply>, n: int, tier: int)
    requires
        plan.is_run(replies),
    ensures
        0 <= n < replies.len() && !replies[n].ok() ==> plan.applied_after(
            replies,
        ).failures.contains((plan.call_at(replies, n).mechanism(), replies[n].errno)),
        !plan.support.rlimit ==> plan.applied_after(replies).failures.contains(
            ("RLIMIT"@, plan.enosys),
        ),
        plan.is_finished_run(replies) && plan.lacks_filter() && plan.applied_after(
            replies,
        ).no_new_privs ==> plan.applied_after(replies).failures.contains(
            ("SECCOMP_FILTER"@, plan.filter->Err_0),
        ),
        plan.is_finished_run(replies) && tier > 0 && plan.support.offers(tier)
            && !plan.applied_after(replies).holds(tier) ==> plan.applied_after(replies).names(
            crate::support::name_of_tier(tier as u8),
        ),
{
    reveal(Plan::call_at);
    let applied = plan.applied_after(replies);
    lemma_refusals_are_recorded(plan, replies, n);
    law_claims_are_what_was_accepted(plan, replies);
    lemma_privileges(plan, replies);
    if plan.is_finished_run(replies) {
        let asked = plan.privs_index();
        let ruleset = plan.ruleset_index();
        if plan.support.seccomp_filter && !applied.seccomp_filter {
            law_a_missing_filter_is_named_last(plan, replies);
            assert(applied.failures[applied.failures.len() - 1] == applied.failures.last());
        }
        if plan.lacks_filter() && applied.no_new_privs {
            lemma_no_filter_without_one(plan, replies);
        }
        if tier == 3 && plan.support.cgroup_v2_writable {
            assert(plan.call_at(replies, 0) == Call::JoinControlGroup);
            lemma_accepted_or_named(plan, replies, 0);
        }
        if tier == 2 && plan.support.landlock {
            assert(plan.call_at(replies, ruleset).mechanism() == "LANDLOCK"@);
            lemma_accepted_or_named(plan, replies, ruleset);
            if plan.opened(replies) {
                if !replies[asked].ok() {
                    assert(plan.call_at(replies, asked) is SetNoNewPrivs);
                    lemma_refusals_are_recorded(plan, replies, asked);
                    lemma_named(applied, "LANDLOCK"@, replies[asked].errno);
                } else {
                    assert(replies.len() > asked + 1);
                    assert(plan.opened(replies.take(asked + 1)));
                    assert(plan.call_at(replies, asked + 1) == Call::ConfineFilesystem);
                    lemma_accepted_or_named(plan, replies, asked + 1);
                }
            }
        }
    }
}

/// A filter that could not be built is not installed.
proof fn lemma_no_filter_without_one(plan: Plan, replies: Seq<Reply>)
    requires
        plan.is_run(replies),
        plan.filter is Err,
    ensures
        !plan.applied_after(replies).seccomp_filter,
    decreases replies.len(),
{
    if replies.len() > 0 {
        lemma_run_prefix(plan, replies);
        lemma_last_call(plan, replies);
        lemma_no_filter_without_one(plan, replies.drop_last());
    }
}

/// How many failures a run has recorded, as far as it matters: none, or some.
proof fn lemma_failures(plan: Plan, replies: Seq<Reply>)
    requires
        plan.is_run(replies),
    ensures
        plan.applied_after(replies).is_complete() <==> {
            &&& plan.support.rlimit
            &&& forall|i: int| 0 <= i < replies.len() ==> (#[trigger] replies[i]).ok()
            &&& plan.call_after(replies) is None ==> !plan.lacks_filter()
        },
    decreases replies.len(),
{
    if replies.len() > 0 {
        let last = replies.len() - 1;
        let shorter = replies.drop_last();
        lemma_run_prefix(plan, replies);
        lemma_run_length(plan, replies);
        lemma_failures(plan, shorter);
        assert(forall|i: int| 0 <= i < shorter.len() ==> shorter[i] == #[trigger] replies[i]);
        lemma_last_call(plan, replies);
        if plan.applied_after(replies).is_complete() {
            assert(plan.applied_after(shorter).is_complete());
            assert(replies[last].ok());
        }
    }
}

/// A finished run is complete exactly when the host has resource limits, every call was accepted,
/// and a filter was built if the host has filters. In particular one refused call is enough for the
/// run not to be complete.
pub proof fn law_complete_means_nothing_was_refused(plan: Plan, replies: Seq<Reply>)
    requires
        plan.is_finished_run(replies),
    ensures
        plan.applied_after(replies).is_complete() <==> {
            &&& plan.support.rlimit
            &&& forall|i: int| 0 <= i < replies.len() ==> (#[trigger] replies[i]).ok()
            &&& plan.support.seccomp_filter ==> plan.filter is Ok
        },
{
    lemma_failures(plan, replies);
}

/// A complete run enforces everything that was asked for: every limit of the token, a bound on core
/// dumps, no new privileges, and every tier that the host offers.
pub proof fn law_a_complete_run_enforces_everything(
    plan: Plan,
    replies: Seq<Reply>,
    dimension: Dimension,
)
    requires
        plan.is_finished_run(replies),
        plan.applied_after(replies).is_complete(),
    ensures
        plan.limits.at(dimension) is Some || dimension is CoreDump ==> plan.applied_after(
            replies,
        ).rlimits_applied.contains(dimension.rlimit()),
        plan.applied_after(replies).no_new_privs,
        forall|tier: int| #[trigger]
            plan.support.offers(tier) ==> plan.applied_after(replies).holds(tier),
{
    reveal(Plan::call_at);
    law_complete_means_nothing_was_refused(plan, replies);
    law_limits_reported_are_those_accepted(plan, replies, dimension);
    lemma_privileges(plan, replies);
    assert forall|tier: int| #[trigger] plan.support.offers(tier) implies plan.applied_after(
        replies,
    ).holds(tier) by {
        if tier == 0 {
            let n = plan.first_calls().len() as int;
            let d = plan.steps()[0].0;
            law_limits_reported_are_those_accepted(plan, replies, d);
            assert(plan.call_at(replies, n).limits(d) && replies[n].ok());
        } else {
            law_every_refusal_is_named(plan, replies, 0, tier);
        }
    }
    if plan.limits.at(dimension) is Some || dimension is CoreDump {
        let value = match plan.limits.at(dimension) {
            Some(v) => v,
            None => 0,
        };
        law_limits_asked_for_are_the_tokens(plan, dimension, value);
        let i = choose|i: int|
            0 <= i < plan.steps().len() && plan.steps()[i] == (dimension, value);
        let n = plan.first_calls().len() + i;
        assert(plan.call_at(replies, n).limits(dimension) && replies[n].ok());
    }
}

/// A failure has a cause: the host has no resource limits, the filter could not be built, a call
/// that was made came back refused, or `PR_SET_NO_NEW_PRIVS` did and the mechanism depends on it.
pub open spec fn has_cause(plan: Plan, replies: Seq<Reply>, failure: (Seq<char>, i32)) -> bool {
    ||| !plan.support.rlimit && failure == ("RLIMIT"@, plan.enosys)
    ||| plan.support.seccomp_filter && plan.filter is Err && failure == (
        "SECCOMP_FILTER"@,
        plan.filter->Err_0,
    )
    ||| exists|n: int| #[trigger] is_caused_by(plan, replies, failure, n)
}

/// The failure comes from the refusal of the `n`-th call.
pub open spec fn is_caused_by(
    plan: Plan,
    replies: Seq<Reply>,
    failure: (Seq<char>, i32),
    n: int,
) -> bool {
    &&& 0 <= n < replies.len()
    &&& !replies[n].ok()
    &&& failure.1 == replies[n].errno
    &&& {
        ||| failure.0 == plan.call_at(replies, n).mechanism()
        ||| plan.call_at(replies, n) is SetNoNewPrivs && plan.opened(replies) && failure.0
            == "LANDLOCK"@
        ||| plan.call_at(replies, n) is SetNoNewPrivs && plan.support.seccomp_filter && failure.0
            == "SECCOMP_FILTER"@
    }
}

/// No failure is made up: each one that is recorded has a cause.
pub proof fn law_every_failure_has_a_cause(plan: Plan, replies: Seq<Reply>, k: int)
    requires
        plan.is_run(replies),
        0 <= k < plan.applied_after(replies).failures.len(),
    ensures
        has_cause(plan, replies, plan.applied_after(replies).failures[k]),
    decreases replies.len(),
{
    if replies.len() > 0 {
        let last = replies.len() - 1;
        let shorter = replies.drop_last();
        let before = plan.applied_after(shorter).failures;
        let failure = plan.applied_after(replies).failures[k];
        lemma_run_prefix(plan, replies);
        lemma_last_call(plan, replies);
        if k < before.len() {
            law_every_failure_has_a_cause(plan, shorter, k);
            assert(failure == before[k]);
            if exists|n: int| #[trigger] is_caused_by(plan, shorter, failure, n) {
                let n = choose|n: int| #[trigger] is_caused_by(plan, shorter, failure, n);
                lemma_earlier_call(plan, replies, n);
                assert(is_caused_by(plan, replies, failure, n));
            }
        } else if !replies[last].ok() && !(plan.lacks_filter() && failure == (
            "SECCOMP_FILTER"@,
            plan.filter->Err_0,
        )) {
            assert(is_caused_by(plan, replies, failure, last));
        }
    }
}

/// A mechanism of the tier was accepted by the kernel: one of the resource limits, the filter, the
/// Landlock ruleset, or the move into the control group.
pub open spec fn tier_accepted(plan: Plan, replies: Seq<Reply>, tier: int) -> bool {
    ||| tier == 0 && exists|d: Dimension| #[trigger] limit_accepted(plan, replies, d)
    ||| tier == 1 && was_accepted(plan, replies, plan.filter_call())
    ||| tier == 2 && was_accepted(plan, replies, Call::ConfineFilesystem)
    ||| tier == 3 && was_accepted(plan, replies, Call::JoinControlGroup)
}

/// Every name that is reported is the resource limit of a dimension.
proof fn lemma_reported_names(plan: Plan, replies: Seq<Reply>, k: int)
    requires
        plan.is_run(replies),
        0 <= k < plan.applied_after(replies).rlimits_applied.len(),
    ensures
        exists|d: Dimension| (#[trigger] d.rlimit()) == plan.applied_after(replies).rlimits_applied[k],
    decreases replies.len(),
{
    if replies.len() > 0 {
        let before = plan.applied_after(replies.drop_last()).rlimits_applied;
        lemma_run_prefix(plan, replies);
        lemma_last_call(plan, replies);
        if k < before.len() {
            lemma_reported_names(plan, replies.drop_last(), k);
        } else {
            let call = plan.call_after(replies.drop_last())->0;
            assert(call->SetRlimit_dimension.rlimit() == plan.applied_after(
                replies,
            ).rlimits_applied[k]);
        }
    }
}

/// No tier is reported that was not applied: the tier of the report is one whose mechanism the
/// kernel accepted, no mechanism of a higher tier was accepted, and 255 is reported only where the
/// kernel accepted none.
pub proof fn law_no_tier_is_reported_that_was_not_applied(
    plan: Plan,
    replies: Seq<Reply>,
    tier: int,
)
    requires
        plan.is_run(replies),
    ensures
        ({
            let reported = plan.applied_after(replies).highest_tier();
            &&& reported != 255 ==> tier_accepted(plan, replies, reported as int)
            &&& tier_accepted(plan, replies, tier) ==> reported != 255 && tier <= reported
        }),
{
    let applied = plan.applied_after(replies);
    law_claims_are_what_was_accepted(plan, replies);
    if applied.rlimits_applied.len() > 0 {
        lemma_reported_names(plan, replies, 0);
        let d = choose|d: Dimension| (#[trigger] d.rlimit()) == applied.rlimits_applied[0];
        law_limits_reported_are_those_accepted(plan, replies, d);
        assert(limit_accepted(plan, replies, d));
    }
    if exists|d: Dimension| #[trigger] limit_accepted(plan, replies, d) {
        let d = choose|d: Dimension| #[trigger] limit_accepted(plan, replies, d);
        law_limits_reported_are_those_accepted(plan, replies, d);
    }
}

/// The call was made in the run that `replies` belong to.
pub open spec fn was_made(plan: Plan, replies: Seq<Reply>, call: Call) -> bool {
    exists|n: int|
        0 <= n < replies.len() && #[trigger] plan.call_after(replies.take(n)) == Some(call)
}

/// The call was made, and returned zero.
pub open spec fn was_granted(plan: Plan, replies: Seq<Reply>, call: Call) -> bool {
    exists|n: int|
        0 <= n < replies.len() && #[trigger] plan.call_after(replies.take(n)) == Some(call)
            && replies[n].status == 0
}

/// A call is viewed as what it holds.
pub proof fn law_the_view_is_the_call(call: KernelCall)
    ensures
        match call {
            KernelCall::SetRlimit { dimension, soft, hard } => call@ == (Call::SetRlimit {
                dimension,
                soft,
                hard,
            }),
            KernelCall::SetNoNewPrivs => call@ == Call::SetNoNewPrivs,
            KernelCall::InstallFilter { program } => call@ == (Call::InstallFilter {
                program: program@,
            }),
            KernelCall::OpenRuleset { denied } => call@ == (Call::OpenRuleset { denied }),
            KernelCall::ConfineFilesystem => call@ == Call::ConfineFilesystem,
            KernelCall::JoinControlGroup => call@ == Call::JoinControlGroup,
        },
{
}

/// A call that sets a resource limit carries the token's own number, as the soft and as the hard
/// limit. Only core dumps are limited without being named, to nothing.
pub proof fn law_a_limit_call_carries_the_tokens_number(plan: Plan, replies: Seq<Reply>)
    ensures
        plan.call_after(replies) matches Some(Call::SetRlimit { dimension, soft, hard }) ==> {
            &&& plan.support.rlimit
            &&& soft == hard
            &&& match dimension {
                Dimension::Memory => plan.limits.memory_bytes == Some(soft),
                Dimension::Cpu => plan.limits.cpu_seconds == Some(soft),
                Dimension::OpenFiles => plan.limits.open_files == Some(soft),
                Dimension::Processes => plan.limits.processes == Some(soft),
                Dimension::FileSize => plan.limits.file_size_bytes == Some(soft),
                Dimension::CoreDump => plan.limits.core_dump_bytes == Some(soft) || (
                plan.limits.core_dump_bytes is None && soft == 0),
            }
        },
{
}

/// A step of the plan was carried out as the call that sets its limit.
proof fn lemma_step_was_made(plan: Plan, replies: Seq<Reply>, i: int)
    requires
        plan.is_finished_run(replies),
        0 <= i < plan.steps().len(),
    ensures
        was_made(
            plan,
            replies,
            Call::SetRlimit {
                dimension: plan.steps()[i].0,
                soft: plan.steps()[i].1,
                hard: plan.steps()[i].1,
            },
        ),
{
    let n = plan.first_calls().len() + i;
    assert(replies.take(n).len() == n);
    assert(plan.call_after(replies.take(n)) == Some(
        Call::SetRlimit {
            dimension: plan.steps()[i].0,
            soft: plan.steps()[i].1,
            hard: plan.steps()[i].1,
        },
    ));
}

/// A limit that is a step of the plan was asked for.
proof fn lemma_limit_was_made(plan: Plan, replies: Seq<Reply>, dimension: Dimension, value: u64)
    requires
        plan.is_finished_run(replies),
        plan.support.rlimit,
        plan.limits.at(dimension) == Some(value) || (dimension is CoreDump
            && plan.limits.core_dump_bytes is None && value == 0),
    ensures
        was_made(plan, replies, Call::SetRlimit { dimension, soft: value, hard: value }),
{
    law_limits_asked_for_are_the_tokens(plan, dimension, value);
    let i = choose|i: int| 0 <= i < plan.steps().len() && plan.steps()[i] == (dimension, value);
    lemma_step_was_made(plan, replies, i);
}

/// Every number of the token reaches the kernel: where the host has resource limits, a finished run
/// has asked for each limit that the token sets, with its number, and for one on core dumps.
pub proof fn law_every_number_of_the_token_reaches_the_kernel(
    plan: Plan,
    replies: Seq<Reply>,
    value: u64,
)
    requires
        plan.is_finished_run(replies),
        plan.support.rlimit,
    ensures
        plan.limits.memory_bytes == Some(value) ==> was_made(
            plan,
            replies,
            Call::SetRlimit { dimension: Dimension::Memory, soft: value, hard: value },
        ),
        plan.limits.cpu_seconds == Some(value) ==> was_made(
            plan,
            replies,
            Call::SetRlimit { dimension: Dimension::Cpu, soft: value, hard: value },
        ),
        plan.limits.open_files == Some(value) ==> was_made(
            plan,
            replies,
            Call::SetRlimit { dimension: Dimension::OpenFiles, soft: value, hard: value },
        ),
        plan.limits.processes == Some(value) ==> was_made(
            plan,
            replies,
            Call::SetRlimit { dimension: Dimension::Processes, soft: value, hard: value },
        ),
        plan.limits.file_size_bytes == Some(value) ==> was_made(
            plan,
            replies,
            Call::SetRlimit { dimension: Dimension::FileSize, soft: value, hard: value },
        ),
        plan.limits.core_dump_bytes == Some(value) ==> was_made(
            plan,
            replies,
            Call::SetRlimit { dimension: Dimension::CoreDump, soft: value, hard: value },
        ),
        plan.limits.core_dump_bytes is None ==> was_made(
            plan,
            replies,
            Call::SetRlimit { dimension: Dimension::CoreDump, soft: 0, hard: 0 },
        ),
{
    if plan.limits.memory_bytes == Some(value) {
        lemma_limit_was_made(plan, replies, Dimension::Memory, value);
    }
    if plan.limits.cpu_seconds == Some(value) {
        lemma_limit_was_made(plan, replies, Dimension::Cpu, value);
    }
    if plan.limits.open_files == Some(value) {
        lemma_limit_was_made(plan, replies, Dimension::OpenFiles, value);
    }
    if plan.limits.processes == Some(value) {
        lemma_limit_was_made(plan, replies, Dimension::Processes, value);
    }
    if plan.limits.file_size_bytes == Some(value) {
        lemma_limit_was_made(plan, replies, Dimension::FileSize, value);
    }
    if plan.limits.core_dump_bytes == Some(value) {
        lemma_limit_was_made(plan, replies, Dimension::CoreDump, value);
    }
    if plan.limits.core_dump_bytes is None {
        lemma_limit_was_made(plan, replies, Dimension::CoreDump, 0);
    }
}

/// Where a call stands in the order of all calls.
pub open spec fn place(call: Call) -> int {
    match call {
        Call::JoinControlGroup => 0,
        Call::OpenRuleset { .. } => 1,
        Call::SetRlimit { dimension: Dimension::Memory, .. } => 2,
        Call::SetRlimit { dimension: Dimension::Cpu, .. } => 3,
        Call::SetRlimit { dimension: Dimension::OpenFiles, .. } => 4,
        Call::SetRlimit { dimension: Dimension::Processes, .. } => 5,
        Call::SetRlimit { dimension: Dimension::FileSize, .. } => 6,
        Call::SetRlimit { dimension: Dimension::CoreDump, .. } => 7,
        Call::SetNoNewPrivs => 8,
        Call::ConfineFilesystem => 9,
        Call::InstallFilter { .. } => 10,
    }
}

/// Which calls stand where.
proof fn lemma_place(plan: Plan, replies: Seq<Reply>)
    requires
        plan.call_after(replies) is Some,
    ensures
        ({
            let n = replies.len() as int;
            let p = plan.first_calls().len() as int;
            let k = plan.privs_index();
            let call = plan.call_after(replies)->0;
            &&& n < p ==> place(call) <= 1
            &&& p <= n < k ==> 2 <= place(call) <= 7 && place(call) == place(
                Call::SetRlimit { dimension: plan.steps()[n - p].0, soft: 0, hard: 0 },
            )
            &&& n == k ==> place(call) == 8
            &&& n > k ==> place(call) >= 9
        }),
{
}

/// The calls before every limit are in order.
proof fn lemma_first_calls_are_in_order(plan: Plan)
    ensures
        plan.first_calls().len() <= 2,
        plan.first_calls().len() == 2 ==> place(plan.first_calls()[0]) < place(
            plan.first_calls()[1],
        ),
{
}

/// The calls after `PR_SET_NO_NEW_PRIVS` are in order.
proof fn lemma_last_calls_are_in_order(plan: Plan, opened: bool, privs: bool)
    ensures
        plan.last_calls(opened, privs).len() <= 2,
        plan.last_calls(opened, privs).len() == 2 ==> place(plan.last_calls(opened, privs)[0])
            < place(plan.last_calls(opened, privs)[1]),
{
}

/// Calls are made in one order, whatever comes back, and none is made twice.
#[verifier::spinoff_prover]
pub proof fn law_calls_come_in_order(plan: Plan, replies: Seq<Reply>, m: int, n: int)
    requires
        plan.is_run(replies),
        0 <= m < n < replies.len(),
    ensures
        plan.call_after(replies.take(m)) is Some,
        plan.call_after(replies.take(n)) is Some,
        place(plan.call_after(replies.take(m))->0) < place(plan.call_after(replies.take(n))->0),
{
    let p = plan.first_calls().len() as int;
    let k = plan.privs_index();
    let early = replies.take(m);
    let late = replies.take(n);
    assert(plan.call_after(early) is Some);
    assert(plan.call_after(late) is Some);
    lemma_place(plan, early);
    lemma_place(plan, late);
    if n < p {
        lemma_first_calls_are_in_order(plan);
        assert(plan.call_after(early)->0 == plan.first_calls()[0]);
        assert(plan.call_after(late)->0 == plan.first_calls()[1]);
    } else if p <= m && n < k {
        lemma_steps_are_in_order(plan, m - p, n - p);
    } else if m > k {
        lemma_late_calls_are_in_order(plan, early, late);
    }
}

/// Two calls after `PR_SET_NO_NEW_PRIVS` are in order.
proof fn lemma_late_calls_are_in_order(plan: Plan, early: Seq<Reply>, late: Seq<Reply>)
    requires
        plan.privs_index() < early.len() < late.len(),
        forall|i: int| 0 <= i < early.len() ==> early[i] == #[trigger] late[i],
        plan.call_after(early) is Some,
        plan.call_after(late) is Some,
    ensures
        place(plan.call_after(early)->0) < place(plan.call_after(late)->0),
{
    let k = plan.privs_index();
    let opened = plan.opened(late);
    let privs = late[k].ok();
    assert(early[k] == late[k]);
    if plan.support.landlock {
        assert(early[plan.ruleset_index()] == late[plan.ruleset_index()]);
    }
    assert(plan.opened(early) == opened);
    lemma_last_calls_are_in_order(plan, opened, privs);
    let last = plan.last_calls(opened, privs);
    assert(plan.call_after(early) == Some(last[early.len() - k - 1]));
    assert(plan.call_after(late) == Some(last[late.len() - k - 1]));
}

/// The steps are in the order of the dimensions.
proof fn lemma_steps_are_in_order(plan: Plan, i: int, j: int)
    requires
        0 <= i < j < plan.steps().len(),
    ensures
        place(
            Call::SetRlimit { dimension: plan.steps()[i].0, soft: 0, hard: 0 },
        ) < place(Call::SetRlimit { dimension: plan.steps()[j].0, soft: 0, hard: 0 }),
{
}

/// The ruleset was opened exactly when the call that opens it returned zero.
proof fn lemma_opened(plan: Plan, replies: Seq<Reply>)
    requires
        plan.is_run(replies),
    ensures
        plan.opened(replies) <==> was_granted(plan, replies, Call::OpenRuleset { denied: 0x840 }),
{
    let call = Call::OpenRuleset { denied: 0x840 };
    let at = plan.ruleset_index();
    if plan.opened(replies) {
        assert(plan.call_after(replies.take(at)) == Some(call));
    }
    if was_granted(plan, replies, call) {
        let n = choose|n: int|
            0 <= n < replies.len() && #[trigger] plan.call_after(replies.take(n)) == Some(call)
                && replies[n].status == 0;
        assert(replies.take(n).len() == n);
        assert(n == at);
    }
}

/// `PR_SET_NO_NEW_PRIVS` was accepted exactly when the call that sets it returned zero.
proof fn lemma_granted_privileges(plan: Plan, replies: Seq<Reply>)
    requires
        plan.is_run(replies),
    ensures
        was_granted(plan, replies, Call::SetNoNewPrivs) <==> replies.len() > plan.privs_index()
            && replies[plan.privs_index()].ok(),
{
    let at = plan.privs_index();
    if replies.len() > at && replies[at].ok() {
        assert(replies.take(at).len() == at);
        assert(plan.call_after(replies.take(at)) == Some(Call::SetNoNewPrivs));
    }
    if was_granted(plan, replies, Call::SetNoNewPrivs) {
        let n = choose|n: int|
            0 <= n < replies.len() && #[trigger] plan.call_after(replies.take(n)) == Some(
                Call::SetNoNewPrivs,
            ) && replies[n].status == 0;
        assert(replies.take(n).len() == n);
        assert(n == at);
    }
}

/// Every call has its reason: the host offers what it asks for, and what it builds on was granted.
/// The program that is installed is the plan's, to the last instruction.
pub proof fn law_every_call_has_its_reason(plan: Plan, replies: Seq<Reply>)
    requires
        plan.is_run(replies),
        plan.call_after(replies) is Some,
    ensures
        match plan.call_after(replies)->0 {
            Call::JoinControlGroup => plan.support.cgroup_v2_writable,
            Call::OpenRuleset { denied } => plan.support.landlock && denied == 0x840,
            Call::SetRlimit { .. } => plan.support.rlimit,
            Call::SetNoNewPrivs => true,
            Call::ConfineFilesystem => {
                &&& plan.support.landlock
                &&& was_granted(plan, replies, Call::OpenRuleset { denied: 0x840 })
                &&& was_granted(plan, replies, Call::SetNoNewPrivs)
            },
            Call::InstallFilter { program } => {
                &&& plan.support.seccomp_filter
                &&& was_granted(plan, replies, Call::SetNoNewPrivs)
                &&& plan.filter matches Ok(filter) && filter.program@ == program
            },
        },
{
    lemma_opened(plan, replies);
    lemma_granted_privileges(plan, replies);
}

/// Nothing that the host offers is left out: a finished run has made every call that it had a reason
/// for.
pub proof fn law_no_call_is_left_out(plan: Plan, replies: Seq<Reply>)
    requires
        plan.is_finished_run(replies),
    ensures
        plan.support.cgroup_v2_writable ==> was_made(plan, replies, Call::JoinControlGroup),
        plan.support.landlock ==> was_made(plan, replies, Call::OpenRuleset { denied: 0x840 }),
        was_made(plan, replies, Call::SetNoNewPrivs),
        was_granted(plan, replies, Call::OpenRuleset { denied: 0x840 }) && was_granted(
            plan,
            replies,
            Call::SetNoNewPrivs,
        ) ==> was_made(plan, replies, Call::ConfineFilesystem),
        plan.support.seccomp_filter && plan.filter is Ok && was_granted(
            plan,
            replies,
            Call::SetNoNewPrivs,
        ) ==> was_made(
            plan,
            replies,
            Call::InstallFilter { program: (plan.filter->Ok_0).program@ },
        ),
{
    let k = plan.privs_index();
    lemma_opened(plan, replies);
    lemma_granted_privileges(plan, replies);
    assert(replies.take(k).len() == k);
    assert(plan.call_after(replies.take(k)) == Some(Call::SetNoNewPrivs));
    if plan.support.cgroup_v2_writable {
        assert(replies.take(0).len() == 0);
        assert(plan.call_after(replies.take(0)) == Some(Call::JoinControlGroup));
    }
    if plan.support.landlock {
        let at = plan.ruleset_index();
        assert(replies.take(at).len() == at);
        assert(plan.call_after(replies.take(at)) == Some(Call::OpenRuleset { denied: 0x840 }));
    }
    if replies[k].ok() {
        let opened = plan.opened(replies);
        let last = plan.last_calls(opened, true);
        assert(replies.len() - k - 1 >= last.len());
        if opened {
            let n = k + 1;
            assert(replies.take(n).len() == n && replies.take(n)[k] == replies[k]);
            assert(plan.opened(replies.take(n)));
            assert(plan.call_after(replies.take(n)) == Some(last[0]));
        }
        if plan.support.seccomp_filter && plan.filter is Ok {
            let n = k + last.len();
            assert(replies.take(n).len() == n && replies.take(n)[k] == replies[k]);
            assert(plan.opened(replies.take(n)) == opened);
            assert(plan.call_after(replies.take(n)) == Some(last[last.len() - 1]));
        }
    }
}

/// The program handed to the kernel refuses, with `EPERM`, every denied call of the platform and
/// every call made for another architecture, and allows every other call; and it counts eighteen
/// denied calls.
pub proof fn law_the_installed_program_blocks_the_denied_calls(
    plan: Plan,
    replies: Seq<Reply>,
    platform: Platform,
    numbers: Seq<i64>,
    arch: u32,
    nr: u32,
)
    requires
        plan.is_run(replies),
        crate::kernel::is_numbering(numbers),
        crate::seccomp::is_filter_for(plan.filter, platform, numbers),
        plan.call_after(replies) is Some,
        plan.call_after(replies)->0 is InstallFilter,
    ensures
        ({
            let program = plan.call_after(replies)->0->InstallFilter_program;
            let own = (platform.architecture is X86_64 && arch == 0xC000_003E) || (
            platform.architecture is Aarch64 && arch == 0xC000_00B7);
            &&& platform.system is Linux
            &&& crate::seccomp::decision(program, arch, nr) == Some(
                if own && !numbers.contains(nr as i64) {
                    0x7fff_0000u32
                } else {
                    0x0005_0001u32
                },
            )
            &&& (plan.filter->Ok_0).blocked == 18
        }),
{
    crate::platform::law_ptrace_tells_the_table(platform, numbers);
    crate::seccomp::law_built_filter_blocks_the_denied_calls(
        plan.filter->Ok_0,
        platform.audit()->0,
        numbers,
        arch,
        nr,
    );
}

/// The program handed to the kernel is the one built from the plan's numbers, whatever they are: it
/// refuses exactly them and every call made for another architecture, and is counted as refusing
/// that many.
pub proof fn law_the_installed_program_is_the_one_built(
    plan: Plan,
    replies: Seq<Reply>,
    audit: u32,
    numbers: Seq<i64>,
    arch: u32,
    nr: u32,
)
    requires
        plan.is_run(replies),
        plan.filter is Ok,
        (plan.filter->Ok_0).refuses(audit, numbers),
        0 < numbers.len() <= 250,
        plan.call_after(replies) is Some,
        plan.call_after(replies)->0 is InstallFilter,
    ensures
        crate::seccomp::decision(
            plan.call_after(replies)->0->InstallFilter_program,
            arch,
            nr,
        ) == Some(
            if arch != audit || exists|i: int|
                0 <= i < numbers.len() && #[trigger] numbers[i] as u32 == nr {
                0x0005_0001u32
            } else {
                0x7fff_0000u32
            },
        ),
        (plan.filter->Ok_0).blocked == numbers.len(),
{
    crate::seccomp::law_filter_refuses_exactly_the_denylist(audit, numbers, arch, nr);
}

/// Before the first call, nothing is recorded, but for a host without resource limits.
pub proof fn law_nothing_is_recorded_at_first(plan: Plan)
    ensures
        ({
            let applied = plan.applied_after(Seq::empty());
            &&& applied.rlimits_applied.len() == 0
            &&& !applied.no_new_privs && !applied.seccomp_filter && !applied.landlock
            &&& !applied.cgroup_v2 && applied.blocked_syscalls == 0
            &&& plan.support.rlimit ==> applied.failures.len() == 0
            &&& !plan.support.rlimit ==> applied.failures == seq![("RLIMIT"@, plan.enosys)]
        }),
{
    assert(plan.applied_after(Seq::empty()).failures =~= if plan.support.rlimit {
        Seq::empty()
    } else {
        seq![("RLIMIT"@, plan.enosys)]
    });
}

/// A reply changes the record of its own call and no other: a mechanism is claimed from the moment
/// on at which its call returned zero, and a resource limit is listed, after those before it, when
/// its call returned zero.
pub proof fn law_a_reply_claims_its_own_call(plan: Plan, replies: Seq<Reply>, reply: Reply)
    requires
        plan.is_run(replies),
        plan.call_after(replies) is Some,
    ensures
        ({
            let call = plan.call_after(replies)->0;
            let before = plan.applied_after(replies);
            let after = plan.applied_after(replies.push(reply));
            let granted = reply.status == 0;
            &&& after.no_new_privs <==> before.no_new_privs || (granted && call is SetNoNewPrivs)
            &&& after.seccomp_filter <==> before.seccomp_filter || (granted
                && call is InstallFilter)
            &&& after.landlock <==> before.landlock || (granted && call is ConfineFilesystem)
            &&& after.cgroup_v2 <==> before.cgroup_v2 || (granted && call is JoinControlGroup)
            &&& after.blocked_syscalls == (if granted && call is InstallFilter {
                (plan.filter->Ok_0).blocked as nat
            } else {
                before.blocked_syscalls
            })
            &&& after.rlimits_applied == before.rlimits_applied + (match call {
                Call::SetRlimit { dimension, .. } if granted => seq![
                    match dimension {
                        Dimension::Memory => "RLIMIT_AS"@,
                        Dimension::Cpu => "RLIMIT_CPU"@,
                        Dimension::OpenFiles => "RLIMIT_NOFILE"@,
                        Dimension::Processes => "RLIMIT_NPROC"@,
                        Dimension::FileSize => "RLIMIT_FSIZE"@,
                        Dimension::CoreDump => "RLIMIT_CORE"@,
                    },
                ],
                _ => Seq::empty(),
            })
        }),
{
    let call = plan.call_after(replies)->0;
    let before = plan.applied_after(replies);
    let longer = replies.push(reply);
    assert(longer.drop_last() =~= replies);
    assert(before.rlimits_applied + Seq::empty() =~= before.rlimits_applied);
    if call is SetRlimit && reply.status == 0 {
        let name = call->SetRlimit_dimension.rlimit();
        assert(before.rlimits_applied + seq![name] =~= before.rlimits_applied.push(name));
    }
}

/// A reply adds to the failures what did not happen because of it, at the end, and takes nothing
/// away: the refused call with its errno; with a refused `PR_SET_NO_NEW_PRIVS` also the ruleset that
/// had been opened and the filter that is offered; and a filter that could not be built once its turn
/// has come.
pub proof fn law_a_reply_names_what_did_not_happen(plan: Plan, replies: Seq<Reply>, reply: Reply)
    requires
        plan.is_run(replies),
        plan.call_after(replies) is Some,
    ensures
        ({
            let call = plan.call_after(replies)->0;
            let before = plan.applied_after(replies).failures;
            let after = plan.applied_after(replies.push(reply)).failures;
            let refused = reply.status != 0;
            let errno = reply.errno;
            let none = Seq::<(Seq<char>, i32)>::empty();
            let opened = was_granted(plan, replies, Call::OpenRuleset { denied: 0x840 });
            let unbuilt = if plan.support.seccomp_filter && plan.filter is Err {
                seq![("SECCOMP_FILTER"@, plan.filter->Err_0)]
            } else {
                none
            };
            after == before + (match call {
                Call::JoinControlGroup => if refused {
                    seq![("CGROUP_V2"@, errno)]
                } else {
                    none
                },
                Call::OpenRuleset { .. } => if refused {
                    seq![("LANDLOCK"@, errno)]
                } else {
                    none
                },
                Call::SetRlimit { dimension, .. } => if refused {
                    match dimension {
                        Dimension::Memory => seq![("RLIMIT_AS"@, errno)],
                        Dimension::Cpu => seq![("RLIMIT_CPU"@, errno)],
                        Dimension::OpenFiles => seq![("RLIMIT_NOFILE"@, errno)],
                        Dimension::Processes => seq![("RLIMIT_NPROC"@, errno)],
                        Dimension::FileSize => seq![("RLIMIT_FSIZE"@, errno)],
                        Dimension::CoreDump => seq![("RLIMIT_CORE"@, errno)],
                    }
                } else {
                    none
                },
                Call::SetNoNewPrivs => if refused {
                    seq![("NO_NEW_PRIVS"@, errno)] + (if opened {
                        seq![("LANDLOCK"@, errno)]
                    } else {
                        none
                    }) + (if plan.support.seccomp_filter {
                        seq![("SECCOMP_FILTER"@, errno)]
                    } else {
                        none
                    })
                } else if opened {
                    none
                } else {
                    unbuilt
                },
                Call::ConfineFilesystem => (if refused {
                    seq![("LANDLOCK"@, errno)]
                } else {
                    none
                }) + unbuilt,
                Call::InstallFilter { .. } => if refused {
                    seq![("SECCOMP_FILTER"@, errno)]
                } else {
                    none
                },
            })
        }),
{
    let longer = replies.push(reply);
    assert(longer.drop_last() =~= replies);
    lemma_opened(plan, replies);
}

/// A run starts with nothing having come back, goes on by one reply while there is a call to make,
/// whatever the reply is, and is finished when there is none. Nothing else is a run.
pub proof fn law_a_run_is_a_call_for_every_reply(plan: Plan, replies: Seq<Reply>, reply: Reply)
    ensures
        plan.is_run(Seq::empty()),
        plan.is_run(replies.push(reply)) <==> plan.is_run(replies) && plan.call_after(
            replies,
        ) is Some,
        plan.is_finished_run(replies) <==> plan.is_run(replies) && plan.call_after(replies) is None,
{
    let longer = replies.push(reply);
    if plan.is_run(replies) && plan.call_after(replies) is Some {
        lemma_run_extends(plan, replies, reply);
    }
    if plan.is_run(longer) {
        lemma_run_prefix(plan, longer);
        assert(longer.drop_last() =~= replies);
        assert(longer.take(replies.len() as int) =~= replies);
        assert(plan.call_after(longer.take(replies.len() as int)) is Some);
    }
}

} // verus!
