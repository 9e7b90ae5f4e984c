use noesar_sandbox::launch::{
    exec_failure, invocation, usage, Cleared, Conclusion, Invocation, Request, Stage,
    REFUSED_STATUS,
};
use noesar_sandbox::platform::{Architecture, Platform, System};
use noesar_sandbox::session::KernelCall;
use noesar_sandbox::support::Reply;
use noesar_sandbox::{IsolationLimits, IsolationSupport};

const USAGE: &str = "usage: --detect | --spec <file.json> -- <command> [args...]";
const INCOMPLETE: &str =
    "the kernel refused part of the requested isolation; the command was not started";

fn args(list: &[&str]) -> Vec<String> {
    list.iter().map(|s| s.to_string()).collect()
}

fn refusal(list: &[&str]) -> String {
    match invocation(&args(list)) {
        Invocation::Refused(message) => message,
        _ => panic!("not refused"),
    }
}

fn request(list: &[&str]) -> Request {
    match invocation(&args(list)) {
        Invocation::Run(request) => request,
        _ => panic!("not a request"),
    }
}

fn ordinary() -> Request {
    request(&["--spec", "limits.json", "--", "sh", "-c", "true"])
}

fn linux() -> Platform {
    Platform { system: System::Linux, architecture: Architecture::X86_64 }
}

fn support() -> IsolationSupport {
    IsolationSupport { rlimit: true, seccomp_filter: true, ..Default::default() }
}

fn cleared(text: &str, ceiling: &IsolationLimits) -> Cleared {
    let admitted = match ordinary().read_spec(Ok(text.to_string())) {
        Ok(admitted) => admitted,
        Err(message) => panic!("{}", message),
    };
    match admitted.clear(ceiling) {
        Ok(cleared) => cleared,
        Err(message) => panic!("{}", message),
    }
}

fn confine(mut stage: Stage, kernel: impl Fn(&KernelCall) -> Reply) -> (usize, Conclusion) {
    let mut calls = 0;
    loop {
        match stage {
            Stage::Confined(conclusion) => return (calls, conclusion),
            Stage::Confining(confinement) => {
                calls += 1;
                let reply = kernel(&confinement.call());
                stage = confinement.record(reply);
            }
        }
    }
}

#[test]
fn no_argument_or_help_shows_the_usage() {
    assert!(matches!(invocation(&args(&[])), Invocation::Usage));
    assert!(matches!(invocation(&args(&["--help", "x"])), Invocation::Usage));
    assert_eq!(
        usage(),
        vec!["noesar-sandbox --detect", "noesar-sandbox --spec <file.json> -- <command> [args...]"]
    );
}

#[test]
fn detect_is_recognised_with_anything_after_it() {
    assert!(matches!(invocation(&args(&["--detect"])), Invocation::Detect));
    assert!(matches!(invocation(&args(&["--detect", "--", "x"])), Invocation::Detect));
}

#[test]
fn other_command_lines_are_refused() {
    assert_eq!(refusal(&["run"]), USAGE);
    assert_eq!(refusal(&["--spec"]), USAGE);
    assert_eq!(refusal(&["--", "--spec", "x"]), USAGE);
    assert_eq!(refusal(&["--spec", "f"]), "no command given after `--`");
    assert_eq!(refusal(&["--spec", "f", "--"]), "no command given after `--`");
    assert_eq!(refusal(&["--spec", "f", "cmd"]), "no command given after `--`");
    assert_eq!(REFUSED_STATUS, 78);
}

#[test]
fn the_command_is_everything_after_the_first_separator() {
    let (_, conclusion) = confine(
        match request(&["--spec", "f", "ignored", "--", "a", "--", "b"])
            .read_spec(Ok("{\"cpuSeconds\":1}".to_string()))
            .and_then(|admitted| admitted.clear(&IsolationLimits::default()))
        {
            Ok(cleared) => cleared.confine(&support(), linux()),
            Err(message) => panic!("{}", message),
        },
        |_| Reply { status: 0, errno: 0 },
    );
    assert_eq!(conclusion.launch, Ok(args(&["a", "--", "b"])));
    // The spec path may itself be the separator.
    assert_eq!(request(&["--spec", "--", "cmd"]).spec_path(), "--");
}

#[test]
fn an_unreadable_spec_is_refused_with_its_path() {
    assert_eq!(ordinary().spec_path(), "limits.json");
    assert_eq!(
        ordinary().read_spec(Err("No such file".to_string())).err(),
        Some("cannot read spec `limits.json`: No such file".to_string())
    );
    assert_eq!(
        ordinary().read_spec(Ok("{}".to_string())).err(),
        Some("a limits spec naming no dimension confines nothing".to_string())
    );
}

#[test]
fn a_limit_above_the_ceiling_is_refused_by_name() {
    let ceiling = IsolationLimits { open_files: Some(10), ..Default::default() };
    let admitted = ordinary().read_spec(Ok("{\"openFiles\":11}".to_string())).ok().unwrap();
    assert_eq!(
        admitted.clear(&ceiling).err(),
        Some("limit `openFiles` is wider than this container's own ceiling; a sandbox cannot grant more than the container it runs in".to_string())
    );
    let equal = ordinary().read_spec(Ok("{\"openFiles\":10}".to_string())).ok().unwrap();
    assert!(equal.clear(&ceiling).is_ok());
}

#[test]
fn a_fully_confined_command_is_started() {
    let ceiling = IsolationLimits { open_files: Some(40960), ..Default::default() };
    let stage = cleared("{\"memoryBytes\":64}", &ceiling).confine(&support(), linux());
    let (calls, conclusion) = confine(stage, |_| Reply { status: 0, errno: 0 });
    assert_eq!(calls, 4);
    assert_eq!(conclusion.launch, Ok(args(&["sh", "-c", "true"])));
    assert_eq!(
        conclusion.report,
        "{\"sandbox\":\"APPLIED\",\"tier\":1,\"tierName\":\"SECCOMP_FILTER\",\"limits\":{\"memoryBytes\":64,\"cpuSeconds\":null,\"openFiles\":null,\"processes\":null,\"fileSizeBytes\":null,\"coreDumpBytes\":null},\"applied\":{\"rlimitsApplied\":[\"RLIMIT_AS\",\"RLIMIT_CORE\"],\"noNewPrivs\":true,\"seccompFilter\":true,\"blockedSyscalls\":18,\"complete\":true,\"failures\":[]}}"
    );
}

#[test]
fn any_refused_call_stops_the_command() {
    for refused in 0..4 {
        let counter = std::cell::Cell::new(0);
        let stage = cleared("{\"memoryBytes\":64}", &IsolationLimits::default())
            .confine(&support(), linux());
        let (_, conclusion) = confine(stage, |_| {
            let n = counter.get();
            counter.set(n + 1);
            Reply { status: if n == refused { -1 } else { 0 }, errno: 1 }
        });
        assert_eq!(conclusion.launch, Err(INCOMPLETE.to_string()));
        assert!(conclusion.report.contains("\"complete\":false"));
    }
}

#[test]
fn the_report_names_the_tier_that_was_applied() {
    let offered = IsolationSupport { landlock: true, cgroup_v2_writable: true, ..support() };
    let stage = cleared("{\"cpuSeconds\":1}", &IsolationLimits::default()).confine(&offered, linux());
    let (calls, conclusion) = confine(stage, |_| Reply { status: 0, errno: 0 });
    assert_eq!(calls, 7);
    assert!(conclusion.report.contains("\"tier\":3,\"tierName\":\"CGROUP_V2\""));
    assert!(conclusion.launch.is_ok());
    let stage = cleared("{\"cpuSeconds\":1}", &IsolationLimits::default()).confine(&offered, linux());
    let (_, conclusion) = confine(stage, |_| Reply { status: -1, errno: 1 });
    assert!(conclusion.report.contains("\"tier\":255,\"tierName\":\"NONE\""));
    assert_eq!(conclusion.launch, Err(INCOMPLETE.to_string()));
}

#[test]
fn a_spec_that_constrains_nothing_starts_no_command() {
    assert_eq!(
        ordinary().read_spec(Ok("{\"memoryBytes\":null}".to_string())).err(),
        Some("a limits spec naming no dimension confines nothing".to_string())
    );
}

#[test]
fn another_system_starts_no_command() {
    let platform = Platform { system: System::OtherUnix, architecture: Architecture::X86_64 };
    let stage = cleared("{\"cpuSeconds\":1}", &IsolationLimits::default())
        .confine(&support(), platform);
    let (calls, conclusion) = confine(stage, |_| Reply { status: 0, errno: 0 });
    assert_eq!(calls, 0);
    assert_eq!(conclusion.launch, Err(INCOMPLETE.to_string()));
    assert!(conclusion.report.contains("{\"mechanism\":\"PLATFORM\",\"errno\":0}"));
}

#[test]
fn a_failed_start_names_the_program() {
    assert_eq!(exec_failure("sh", "not found"), "cannot execute `sh`: not found");
}
