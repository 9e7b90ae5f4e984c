//! From a command line to a confined command.
//!
//! The order is the security property: limits are applied before the command exists, and a failure
//! to apply them means that it never runs. Each stage is a type of its own that hides the command,
//! and only the last one, reached once every limit was accepted, gives it out:
//! [`Invocation`], [`Request`], [`Admitted`], [`Cleared`], [`Confinement`], [`Conclusion`].
use vstd::prelude::*;

use crate::applied::AppliedIsolation;
use crate::json::applied_report;
use crate::limits::IsolationLimits;
use crate::platform::Platform;
use crate::session::{apply, KernelCall, Plan, Progress, Session};
use crate::spec_file::parse_limits;
use crate::support::{IsolationSupport, Reply};
use crate::text::{chars_are, chars_of};

verus! {

/// The exit status of a refusal: `EX_CONFIG`. It is distinct from any status the command could
/// plausibly return, so a refusal is never mistaken for a result.
pub const REFUSED_STATUS: i32 = 78;

/// The texts of a list of strings.
pub open spec fn texts(strings: Seq<String>) -> Seq<Seq<char>> {
    strings.map_values(|s: String| s@)
}

/// What a command line asks for.
#[verifier::ext_equal]
pub enum Asked {
    Usage,
    Detect,
    Run { spec_path: Seq<char>, command: Seq<Seq<char>> },
    Refused { message: Seq<char> },
}

/// The index of the first `--`, or the number of arguments when there is none.
pub open spec fn separator_from(args: Seq<Seq<char>>, from: int) -> int
    decreases args.len() - from,
{
    if from < 0 || from >= args.len() {
        args.len() as int
    } else if args[from] == "--"@ {
        from
    } else {
        separator_from(args, from + 1)
    }
}

/// What a command line asks for.
pub open spec fn asked(args: Seq<Seq<char>>) -> Asked {
    let separator = separator_from(args, 0);
    if args.len() == 0 || args[0] == "--help"@ {
        Asked::Usage
    } else if args[0] == "--detect"@ {
        Asked::Detect
    } else if args[0] != "--spec"@ || args.len() < 2 {
        Asked::Refused {
            message: "usage: --detect | --spec <file.json> -- <command> [args...]"@,
        }
    } else if separator + 1 < args.len() {
        Asked::Run { spec_path: args[1], command: args.skip(separator + 1) }
    } else {
        Asked::Refused { message: "no command given after `--`"@ }
    }
}

/// What a command line asks for.
pub enum Invocation {
    /// Show how the program is used.
    Usage,
    /// Report what the host offers.
    Detect,
    /// Confine and become a command.
    Run(Request),
    /// Refuse, with the reason.
    Refused(String),
}

impl View for Invocation {
    type V = Asked;

    open spec fn view(&self) -> Asked {
        match self {
            Invocation::Usage => Asked::Usage,
            Invocation::Detect => Asked::Detect,
            Invocation::Run(request) => Asked::Run {
                spec_path: request.path(),
                command: request.command(),
            },
            Invocation::Refused(message) => Asked::Refused { message: message@ },
        }
    }
}

/// A request to run a command, whose limits have not been read yet.
pub struct Request {
    spec_path: String,
    command: Vec<String>,
}

/// A request whose limits have been read.
pub struct Admitted {
    limits: IsolationLimits,
    command: Vec<String>,
}

/// A request whose limits do not exceed the container's.
pub struct Cleared {
    limits: IsolationLimits,
    command: Vec<String>,
}

/// A request whose limits are being applied.
pub struct Confinement {
    session: Session,
    limits: IsolationLimits,
    command: Vec<String>,
}

/// A request that has been decided.
pub struct Conclusion {
    /// What was enforced, for the parent to record. After the command has started, this process is
    /// gone and could not report anything.
    pub report: String,
    /// The command to become, or the reason why it was not started.
    pub launch: Result<Vec<String>, String>,
}

/// How far a confinement has come.
pub enum Stage {
    /// A kernel call is to be made.
    Confining(Confinement),
    /// The request has been decided.
    Confined(Conclusion),
}

fn text_is(s: &String, literal: &str) -> (b: bool)
    ensures
        b == (s@ == literal@),
{
    let chars = chars_of(s.as_str());
    chars_are(chars.as_slice(), literal)
}

/// The lines that show how the program is used.
pub fn usage() -> (lines: Vec<&'static str>)
    ensures
        lines@.len() == 2,
        lines@[0]@ == "noesar-sandbox --detect"@,
        lines@[1]@ == "noesar-sandbox --spec <file.json> -- <command> [args...]"@,
{
    vec!["noesar-sandbox --detect", "noesar-sandbox --spec <file.json> -- <command> [args...]"]
}

fn find_separator(args: &Vec<String>) -> (index: usize)
    ensures
        index == separator_from(texts(args@), 0),
        index <= args@.len(),
{
    let mut i: usize = 0;
    while i < args.len()
        invariant
            i <= args@.len(),
            separator_from(texts(args@), 0) == separator_from(texts(args@), i as int),
        decreases args.len() - i,
    {
        assert(texts(args@)[i as int] == args@[i as int]@);
        if text_is(&args[i], "--") {
            return i;
        }
        i = i + 1;
    }
    i
}

fn copy_from(args: &Vec<String>, from: usize) -> (rest: Vec<String>)
    requires
        from <= args@.len(),
    ensures
        texts(rest@) == texts(args@).skip(from as int),
{
    let mut rest: Vec<String> = Vec::new();
    let mut i: usize = from;
    while i < args.len()
        invariant
            from <= i <= args@.len(),
            texts(rest@) =~= texts(args@).subrange(from as int, i as int),
        decreases args.len() - i,
    {
        let ghost before = rest@;
        rest.push(args[i].clone());
        assert(texts(rest@) =~= texts(before).push(texts(args@)[i as int]));
        i = i + 1;
    }
    assert(texts(rest@) =~= texts(args@).skip(from as int));
    rest
}

/// Reads the command line, without the program's own name.
pub fn invocation(args: &Vec<String>) -> (r: Invocation)
    ensures
        r@ == asked(texts(args@)),
{
    if args.len() == 0 {
        return Invocation::Usage;
    }
    assert(texts(args@)[0] == args@[0]@);
    if text_is(&args[0], "--help") {
        return Invocation::Usage;
    }
    if text_is(&args[0], "--detect") {
        return Invocation::Detect;
    }
    if !text_is(&args[0], "--spec") || args.len() < 2 {
        return Invocation::Refused(
            "usage: --detect | --spec <file.json> -- <command> [args...]".to_owned(),
        );
    }
    let separator = find_separator(args);
    if separator < args.len() - 1 {
        Invocation::Run(
            Request { spec_path: args[1].clone(), command: copy_from(args, separator + 1) },
        )
    } else {
        Invocation::Refused("no command given after `--`".to_owned())
    }
}

/// The answer when the spec cannot be read.
pub open spec fn unreadable_text(path: Seq<char>, error: Seq<char>) -> Seq<char> {
    "cannot read spec `"@ + path + "`: "@ + error
}

/// The answer when a limit exceeds the container's own.
pub open spec fn too_wide_text(key: Seq<char>) -> Seq<char> {
    "limit `"@ + key
        + "` is wider than this container's own ceiling; a sandbox cannot grant more than the container it runs in"@
}

/// The answer when the kernel refused something.
pub open spec fn incomplete_text() -> Seq<char> {
    "the kernel refused part of the requested isolation; the command was not started"@
}

/// The answer when the command could not be started after all.
pub open spec fn exec_failure_text(program: Seq<char>, error: Seq<char>) -> Seq<char> {
    "cannot execute `"@ + program + "`: "@ + error
}

/// The limits that a request is admitted with, given the text of its spec or the error of reading
/// it.
pub open spec fn admitted(path: Seq<char>, spec: Result<Seq<char>, Seq<char>>) -> Result<
    IsolationLimits,
    Seq<char>,
> {
    match spec {
        Err(error) => Err(unreadable_text(path, error)),
        Ok(text) => match crate::spec_file::read_limits(text) {
            Err(fault) => Err(fault.message()),
            Ok(limits) => Ok(limits),
        },
    }
}

/// Why limits are not cleared under a ceiling, if they are not.
pub open spec fn ceiling_objection(limits: IsolationLimits, ceiling: IsolationLimits) -> Option<
    Seq<char>,
> {
    match limits.excess(ceiling) {
        Some(dimension) => Some(too_wide_text(dimension.key())),
        None => None,
    }
}

/// Whether the command is started once the limits have been applied, or what is answered instead.
pub open spec fn launched(
    applied: crate::applied::Applied,
    command: Seq<Seq<char>>,
) -> Result<Seq<Seq<char>>, Seq<char>> {
    if applied.is_complete() {
        Ok(command)
    } else {
        Err(incomplete_text())
    }
}

/// The texts of a decision.
pub open spec fn decision_texts(launch: Result<Vec<String>, String>) -> Result<
    Seq<Seq<char>>,
    Seq<char>,
> {
    match launch {
        Ok(command) => Ok(texts(command@)),
        Err(message) => Err(message@),
    }
}

/// The texts of what reading a file came back with.
pub open spec fn reading_texts(spec: Result<String, String>) -> Result<Seq<char>, Seq<char>> {
    match spec {
        Ok(text) => Ok(text@),
        Err(error) => Err(error@),
    }
}

impl Request {
    pub closed spec fn path(self) -> Seq<char> {
        self.spec_path@
    }

    pub closed spec fn command(self) -> Seq<Seq<char>> {
        texts(self.command@)
    }

    /// The file that holds the limits. It is a file rather than an argument so that limits never
    /// appear in a process listing.
    pub fn spec_path(&self) -> (path: &str)
        ensures
            path@ == self.path(),
    {
        self.spec_path.as_str()
    }

    /// Takes what reading the spec came back with: its text, or the error.
    pub fn read_spec(self, spec: Result<String, String>) -> (r: Result<Admitted, String>)
        ensures
            match r {
                Ok(request) => admitted(self.path(), reading_texts(spec)) == Ok::<_, Seq<char>>(
                    request.limits(),
                ) && request.command() == self.command(),
                Err(message) => admitted(self.path(), reading_texts(spec)) == Err::<
                    IsolationLimits,
                    _,
                >(message@),
            },
    {
        match spec {
            Err(error) => {
                let mut message = String::new();
                message.append("cannot read spec `");
                assert(message@ =~= "cannot read spec `"@);
                message.append(self.spec_path.as_str());
                message.append("`: ");
                message.append(error.as_str());
                Err(message)
            },
            Ok(text) => match parse_limits(text.as_str()) {
                Err(message) => Err(message),
                Ok(limits) => Ok(Admitted { limits, command: self.command }),
            },
        }
    }
}

impl Admitted {
    pub closed spec fn limits(self) -> IsolationLimits {
        self.limits
    }

    pub closed spec fn command(self) -> Seq<Seq<char>> {
        texts(self.command@)
    }

    /// Checks the limits against the container's own.
    ///
    /// The ceiling check and not the scope check: a dimension the spec leaves unset is inherited
    /// from the container, not granted without limit.
    pub fn clear(self, ceiling: &IsolationLimits) -> (r: Result<Cleared, String>)
        ensures
            match r {
                Ok(request) => ceiling_objection(self.limits(), *ceiling) is None
                    && request.limits() == self.limits() && request.command() == self.command(),
                Err(message) => ceiling_objection(self.limits(), *ceiling) == Some(message@),
            },
    {
        match self.limits.exceeds(ceiling) {
            Some(dimension) => {
                let mut message = String::new();
                message.append("limit `");
                assert(message@ =~= "limit `"@);
                message.append(dimension);
                message.append(
                    "` is wider than this container's own ceiling; a sandbox cannot grant more than the container it runs in",
                );
                Err(message)
            },
            None => Ok(Cleared { limits: self.limits, command: self.command }),
        }
    }
}

fn conclude(limits: &IsolationLimits, command: Vec<String>, applied: &AppliedIsolation) -> (conclusion:
    Conclusion)
    ensures
        conclusion.report@ == crate::json::applied_report_text(*limits, applied@),
        decision_texts(conclusion.launch) == launched(applied@, texts(command@)),
{
    let report = applied_report(limits, applied);
    if applied.complete() {
        Conclusion { report, launch: Ok(command) }
    } else {
        // Fail closed. A command started under limits the kernel refused would run with the
        // container's limits while the audit trail says otherwise.
        let reason = "the kernel refused part of the requested isolation; the command was not started";
        Conclusion { report, launch: Err(reason.to_owned()) }
    }
}

impl Stage {
    /// This is how far the confinement of `command` under `plan` has come once `replies` have come
    /// back.
    pub open spec fn is_after(
        self,
        plan: Plan,
        replies: Seq<Reply>,
        command: Seq<Seq<char>>,
    ) -> bool {
        &&& plan.is_run(replies)
        &&& match self {
            Stage::Confining(confinement) => {
                &&& confinement.plan() == plan
                &&& confinement.replies() == replies
                &&& confinement.command() == command
                &&& plan.call_after(replies) is Some
            },
            Stage::Confined(conclusion) => {
                &&& plan.call_after(replies) is None
                &&& conclusion.report@ == crate::json::applied_report_text(
                    plan.limits,
                    plan.applied_after(replies),
                )
                &&& decision_texts(conclusion.launch) == launched(
                    plan.applied_after(replies),
                    command,
                )
            },
        }
    }
}

impl Cleared {
    pub closed spec fn limits(self) -> IsolationLimits {
        self.limits
    }

    pub closed spec fn command(self) -> Seq<Seq<char>> {
        texts(self.command@)
    }

    /// Starts applying the limits to the current process.
    pub fn confine(self, support: &IsolationSupport, platform: Platform) -> (stage: Stage)
        ensures
            match stage {
                Stage::Confining(confinement) => {
                    let plan = confinement.plan();
                    &&& platform.system is Linux
                    &&& plan.limits == self.limits()
                    &&& plan.support == *support
                    &&& crate::kernel::is_enosys(plan.enosys)
                    &&& exists|numbers: Seq<i64>|
                        crate::kernel::is_numbering(numbers) && #[trigger] crate::seccomp::is_filter_for(
                            plan.filter,
                            platform,
                            numbers,
                        )
                    &&& plan.filter is Ok ==> exists|numbers: Seq<i64>|
                        platform.table_fits(numbers) && #[trigger] (plan.filter->Ok_0).refuses(
                            platform.audit()->0,
                            numbers,
                        )
                    &&& platform.audit() is None ==> plan.filter is Err
                    &&& plan.filter is Err ==> crate::kernel::is_enosys(plan.filter->Err_0)
                    &&& confinement.replies() == Seq::<Reply>::empty()
                    &&& confinement.command() == self.command()
                },
                Stage::Confined(conclusion) => {
                    let applied = crate::applied::Applied::nothing().failed("PLATFORM"@, 0);
                    &&& platform.system !is Linux
                    &&& conclusion.report@ == crate::json::applied_report_text(self.limits(), applied)
                    &&& decision_texts(conclusion.launch) == launched(applied, self.command())
                },
            },
    {
        match apply(&self.limits, support, platform) {
            Progress::Pending(session) => Stage::Confining(
                Confinement { session, limits: self.limits, command: self.command },
            ),
            Progress::Finished(applied) => Stage::Confined(
                conclude(&self.limits, self.command, &applied),
            ),
        }
    }
}

impl Confinement {
    pub closed spec fn plan(self) -> Plan {
        self.session.plan()
    }

    pub closed spec fn replies(self) -> Seq<Reply> {
        self.session.replies()
    }

    pub closed spec fn command(self) -> Seq<Seq<char>> {
        texts(self.command@)
    }

    #[verifier::type_invariant]
    spec fn matches_its_session(self) -> bool {
        self.limits == self.session.plan().limits
    }

    /// The kernel call to make next.
    pub fn call(&self) -> (call: KernelCall)
        ensures
            self.plan().call_after(self.replies()) == Some(call@),
    {
        self.session.call()
    }

    /// Takes what the call came back with.
    pub fn record(self, reply: Reply) -> (stage: Stage)
        ensures
            stage.is_after(self.plan(), self.replies().push(reply), self.command()),
            self.plan().is_run(self.replies().push(reply)),
            match stage {
                Stage::Confining(confinement) => {
                    &&& confinement.plan() == self.plan()
                    &&& confinement.replies() == self.replies().push(reply)
                    &&& confinement.command() == self.command()
                    &&& self.plan().call_after(self.replies().push(reply)) is Some
                },
                Stage::Confined(conclusion) => {
                    let applied = self.plan().applied_after(self.replies().push(reply));
                    &&& self.plan().call_after(self.replies().push(reply)) is None
                    &&& conclusion.report@ == crate::json::applied_report_text(
                        self.plan().limits,
                        applied,
                    )
                    &&& conclusion.launch matches Ok(command) ==> applied.failures.len() == 0
                        && texts(command@) == self.command()
                    &&& conclusion.launch is Ok <==> applied.failures.len() == 0
                },
            },
    {
        proof {
            use_type_invariant(&self);
        }
        let Confinement { session, limits, command } = self;
        match session.record(reply) {
            Progress::Pending(session) => Stage::Confining(
                Confinement { session, limits, command },
            ),
            Progress::Finished(applied) => Stage::Confined(
                conclude(&limits, command, &applied),
            ),
        }
    }
}

/// The answer when the command could not be started after all.
pub fn exec_failure(program: &str, error: &str) -> (message: String)
    ensures
        message@ == exec_failure_text(program@, error@),
{
    let mut message = String::new();
    message.append("cannot execute `");
    assert(message@ =~= "cannot execute `"@);
    message.append(program);
    message.append("`: ");
    message.append(error);
    message
}

/// A command that is given out for starting is the one that was asked for, and was confined: every
/// kernel call was accepted, every limit of the plan and a bound on core dumps are set, no new
/// privileges can be gained, and every tier that the host offers was applied.
pub proof fn law_a_started_command_is_confined(
    stage: Stage,
    plan: Plan,
    replies: Seq<Reply>,
    command: Seq<Seq<char>>,
    dimension: crate::limits::Dimension,
)
    requires
        stage.is_after(plan, replies, command),
        stage is Confined,
        stage->Confined_0.launch is Ok,
    ensures
        texts(stage->Confined_0.launch->Ok_0@) == command,
        plan.support.rlimit,
        forall|i: int| 0 <= i < replies.len() ==> (#[trigger] replies[i]).ok(),
        plan.limits.at(dimension) is Some || dimension is CoreDump ==> plan.applied_after(
            replies,
        ).rlimits_applied.contains(dimension.rlimit()),
        plan.applied_after(replies).no_new_privs,
        plan.support.seccomp_filter ==> plan.filter is Ok,
        forall|tier: int| #[trigger]
            plan.support.offers(tier) ==> plan.applied_after(replies).holds(tier),
{
    crate::session::law_complete_means_nothing_was_refused(plan, replies);
    crate::session::law_a_complete_run_enforces_everything(plan, replies, dimension);
}

/// What becomes of a request on Linux: the command that is started, or what is answered instead.
/// `spec` is what reading the spec came back with, `ceiling` the container's own limits, and
/// `replies` what the kernel calls came back with.
pub open spec fn outcome(
    path: Seq<char>,
    command: Seq<Seq<char>>,
    spec: Result<Seq<char>, Seq<char>>,
    ceiling: IsolationLimits,
    plan: Plan,
    replies: Seq<Reply>,
) -> Result<Seq<Seq<char>>, Seq<char>> {
    match admitted(path, spec) {
        Err(message) => Err(message),
        Ok(limits) => match ceiling_objection(limits, ceiling) {
            Some(message) => Err(message),
            None => launched(plan.applied_after(replies), command),
        },
    }
}

/// A command is started only under limits that its spec states, that do not exceed the container's,
/// and that the kernel accepted to the last one: every limit of the spec and a bound on core dumps
/// are set, no new privileges can be gained, and every tier that the host offers was applied. What is
/// started is the command that was asked for.
pub proof fn law_a_command_never_runs_unconfined(
    path: Seq<char>,
    command: Seq<Seq<char>>,
    spec: Result<Seq<char>, Seq<char>>,
    ceiling: IsolationLimits,
    plan: Plan,
    replies: Seq<Reply>,
    dimension: crate::limits::Dimension,
)
    requires
        outcome(path, command, spec, ceiling, plan, replies) is Ok,
        Ok::<_, Seq<char>>(plan.limits) == admitted(path, spec),
        plan.is_finished_run(replies),
    ensures
        outcome(path, command, spec, ceiling, plan, replies)->Ok_0 == command,
        spec is Ok,
        crate::spec_file::read_limits(spec->Ok_0) == Ok::<_, crate::spec_file::SpecFault>(
            plan.limits,
        ),
        plan.limits.constrained().len() > 0,
        plan.limits.inherited(ceiling).is_within(ceiling),
        forall|i: int| 0 <= i < replies.len() ==> (#[trigger] replies[i]).ok(),
        plan.limits.at(dimension) is Some || dimension is CoreDump ==> plan.applied_after(
            replies,
        ).rlimits_applied.contains(dimension.rlimit()),
        plan.applied_after(replies).no_new_privs,
        forall|tier: int| #[trigger]
            plan.support.offers(tier) ==> plan.applied_after(replies).holds(tier),
{
    crate::limits::law_ceiling_check_is_scope_check_after_inheritance(plan.limits, ceiling);
    crate::session::law_complete_means_nothing_was_refused(plan, replies);
    crate::session::law_a_complete_run_enforces_everything(plan, replies, dimension);
}

/// One refused kernel call is enough: whatever else succeeded, the command is not started, and the
/// answer says that the kernel refused part of what was requested.
pub proof fn law_one_refusal_stops_the_command(
    command: Seq<Seq<char>>,
    plan: Plan,
    replies: Seq<Reply>,
    n: int,
)
    requires
        plan.is_finished_run(replies),
        0 <= n < replies.len(),
        !replies[n].ok(),
    ensures
        launched(plan.applied_after(replies), command) == Err::<Seq<Seq<char>>, _>(
            incomplete_text(),
        ),
{
    crate::session::law_complete_means_nothing_was_refused(plan, replies);
}

/// On a system where nothing can be applied, no command is ever started.
pub proof fn law_no_command_without_a_platform(command: Seq<Seq<char>>)
    ensures
        launched(crate::applied::Applied::nothing().failed("PLATFORM"@, 0), command) == Err::<
            Seq<Seq<char>>,
            _,
        >(incomplete_text()),
{
}

/// The separator is one of the arguments, or there is none.
proof fn lemma_separator(args: Seq<Seq<char>>, from: int)
    requires
        0 <= from <= args.len(),
    ensures
        from <= separator_from(args, from) <= args.len(),
        separator_from(args, from) < args.len() ==> args[separator_from(args, from)] == "--"@,
        forall|i: int| from <= i < separator_from(args, from) ==> #[trigger] args[i] != "--"@,
    decreases args.len() - from,
{
    if from < args.len() && args[from] != "--"@ {
        lemma_separator(args, from + 1);
    }
}

/// A request always has a command: everything after the first `--`, of which there is at least one
/// argument.
pub proof fn law_a_request_has_a_command(args: Seq<Seq<char>>)
    ensures
        asked(args) is Run ==> {
            let command = asked(args)->command;
            let separator = args.len() - command.len() - 1;
            &&& command.len() > 0
            &&& 0 <= separator < args.len()
            &&& args[separator] == "--"@
            &&& forall|i: int| 0 <= i < separator ==> #[trigger] args[i] != "--"@
            &&& command == args.skip(separator + 1)
            &&& asked(args)->spec_path == args[1]
        },
{
    lemma_separator(args, 0);
}

/// The texts of a list are those of its strings, one for one and in order.
pub proof fn law_texts_are_one_for_one(strings: Seq<String>, i: int)
    ensures
        texts(strings).len() == strings.len(),
        0 <= i < strings.len() ==> texts(strings)[i] == strings[i]@,
{
}

/// A decision is viewed as the command or the message that it holds, what reading a file came back
/// with as the text or the error, and an invocation as what it asks for.
pub proof fn law_views_keep_the_case(
    command: Vec<String>,
    message: String,
    invocation: Invocation,
)
    ensures
        decision_texts(Ok(command)) == Ok::<Seq<Seq<char>>, Seq<char>>(texts(command@)),
        decision_texts(Err(message)) == Err::<Seq<Seq<char>>, Seq<char>>(message@),
        reading_texts(Ok(message)) == Ok::<Seq<char>, Seq<char>>(message@),
        reading_texts(Err(message)) == Err::<Seq<char>, Seq<char>>(message@),
        invocation is Usage <==> invocation@ is Usage,
        invocation is Detect <==> invocation@ is Detect,
        invocation matches Invocation::Run(request) ==> invocation@ == (Asked::Run {
            spec_path: request.path(),
            command: request.command(),
        }),
        invocation matches Invocation::Refused(text) ==> invocation@ == (Asked::Refused {
            message: text@,
        }),
{
}

/// What every command line asks for. No argument, or `--help` first, asks for the usage; `--detect`
/// first asks for detection; and `--spec` with a path, and anything after a `--`, asks for a run.
/// Everything else is refused, for want of a mode and a path, or for want of a command.
pub proof fn law_every_command_line_is_decided(args: Seq<Seq<char>>)
    ensures
        asked(args) is Usage <==> args.len() == 0 || args[0] == "--help"@,
        asked(args) is Detect <==> args.len() > 0 && args[0] == "--detect"@,
        asked(args) is Run <==> args.len() >= 2 && args[0] == "--spec"@ && exists|i: int|
            0 <= i < args.len() - 1 && #[trigger] args[i] == "--"@,
        asked(args) is Refused ==> asked(args)->message == (if args[0] == "--spec"@ && args.len()
            >= 2 {
            "no command given after `--`"@
        } else {
            "usage: --detect | --spec <file.json> -- <command> [args...]"@
        }),
{
    reveal_strlit("--help");
    reveal_strlit("--detect");
    reveal_strlit("--spec");
    assert("--help"@.len() == 6 && "--help"@[2] == 'h');
    assert("--spec"@.len() == 6 && "--spec"@[2] == 's');
    assert("--detect"@.len() == 8);
    lemma_separator(args, 0);
    let separator = separator_from(args, 0);
    if asked(args) is Run {
        assert(args[separator] == "--"@);
    }
    if exists|i: int| 0 <= i < args.len() - 1 && #[trigger] args[i] == "--"@ {
        let i = choose|i: int| 0 <= i < args.len() - 1 && #[trigger] args[i] == "--"@;
        if separator > i {
            assert(args[i] != "--"@);
        }
    }
}

/// A request is admitted with exactly the limits that its spec reads as. Where the spec could not be
/// read, the answer names its path and the error; where it is faulty, the answer is the fault's.
pub proof fn law_admission_is_reading_the_spec(
    path: Seq<char>,
    text: Seq<char>,
    error: Seq<char>,
    limits: IsolationLimits,
)
    ensures
        admitted(path, Ok(text)) == Ok::<IsolationLimits, Seq<char>>(limits)
            <==> crate::spec_file::read_limits(text) == Ok::<
            IsolationLimits,
            crate::spec_file::SpecFault,
        >(limits),
        crate::spec_file::read_limits(text) matches Err(fault) ==> admitted(path, Ok(text)) == Err::<
            IsolationLimits,
            Seq<char>,
        >(fault.message()),
        admitted(path, Err(error)) == Err::<IsolationLimits, Seq<char>>(
            "cannot read spec `"@ + path + "`: "@ + error,
        ),
{
}

/// A request is cleared exactly when none of its numbers is above the container's. What it leaves
/// unset is inherited and stands in no way. The answer to any other names the first such number.
pub proof fn law_a_request_is_cleared_unless_a_number_is_too_wide(
    limits: IsolationLimits,
    ceiling: IsolationLimits,
)
    ensures
        ({
            let memory = crate::limits::above(limits.memory_bytes, ceiling.memory_bytes);
            let cpu = crate::limits::above(limits.cpu_seconds, ceiling.cpu_seconds);
            let files = crate::limits::above(limits.open_files, ceiling.open_files);
            let processes = crate::limits::above(limits.processes, ceiling.processes);
            let size = crate::limits::above(limits.file_size_bytes, ceiling.file_size_bytes);
            let core = crate::limits::above(limits.core_dump_bytes, ceiling.core_dump_bytes);
            &&& ceiling_objection(limits, ceiling) is None <==> !memory && !cpu && !files
                && !processes && !size && !core
            &&& ceiling_objection(limits, ceiling) is Some ==> ceiling_objection(limits, ceiling)->0
                == "limit `"@ + (if memory {
                "memoryBytes"@
            } else if cpu {
                "cpuSeconds"@
            } else if files {
                "openFiles"@
            } else if processes {
                "processes"@
            } else if size {
                "fileSizeBytes"@
            } else {
                "coreDumpBytes"@
            })
                + "` is wider than this container's own ceiling; a sandbox cannot grant more than the container it runs in"@
        }),
        ceiling_objection(limits, ceiling) is None <==> limits.inherited(ceiling).is_within(
            ceiling,
        ),
{
    crate::limits::law_the_ceiling_check_compares_every_field(limits, ceiling);
    crate::limits::law_ceiling_check_is_scope_check_after_inheritance(limits, ceiling);
}

/// The command is given out exactly when the record names no failure, and then it is the command
/// that was asked for, every argument of it.
pub proof fn law_the_command_is_started_unless_something_failed(
    applied: crate::applied::Applied,
    command: Seq<Seq<char>>,
)
    ensures
        applied.failures.len() == 0 ==> launched(applied, command) == Ok::<
            Seq<Seq<char>>,
            Seq<char>,
        >(command),
        applied.failures.len() > 0 ==> launched(applied, command) == Err::<
            Seq<Seq<char>>,
            Seq<char>,
        >("the kernel refused part of the requested isolation; the command was not started"@),
{
}

/// An acceptable request is not refused: where the spec reads as limits none of which is above the
/// container's, the host has resource limits, a filter could be built if the host has filters, and
/// every call returned zero, the command that was asked for is started.
pub proof fn law_an_acceptable_request_is_started(
    path: Seq<char>,
    command: Seq<Seq<char>>,
    text: Seq<char>,
    ceiling: IsolationLimits,
    plan: Plan,
    replies: Seq<Reply>,
)
    requires
        crate::spec_file::read_limits(text) == Ok::<IsolationLimits, crate::spec_file::SpecFault>(
            plan.limits,
        ),
        plan.limits.inherited(ceiling).is_within(ceiling),
        plan.support.rlimit,
        plan.support.seccomp_filter ==> plan.filter is Ok,
        plan.is_finished_run(replies),
        forall|i: int| 0 <= i < replies.len() ==> (#[trigger] replies[i]).status == 0,
    ensures
        outcome(path, command, Ok(text), ceiling, plan, replies) == Ok::<
            Seq<Seq<char>>,
            Seq<char>,
        >(command),
{
    crate::limits::law_ceiling_check_is_scope_check_after_inheritance(plan.limits, ceiling);
    crate::session::law_complete_means_nothing_was_refused(plan, replies);
    assert forall|i: int| 0 <= i < replies.len() implies (#[trigger] replies[i]).ok() by {}
}

/// The answer to a command that could not be started names it and gives the error.
pub proof fn law_a_failed_start_names_program_and_error(program: Seq<char>, error: Seq<char>)
    ensures
        exec_failure_text(program, error) == "cannot execute `"@ + program + "`: "@ + error,
{
}

} // verus!
