use xalias::error::Error;
use xalias::memory::{resident_memory, KIBIBYTE, RESIDENT_KEY};
use xalias::process::{
    ChildExit, ExitInfo, Interpreter, Invocation, Run, RunAction, RunEvent, RunState, Sampler,
    FALLBACK_EXIT_CODE, SAMPLE_INTERVAL_MS,
};

fn words(list: &[&str]) -> Vec<String> {
    list.iter().map(|w| w.to_string()).collect()
}

#[test]
fn run_new_keeps_command_and_arguments() {
    let args = words(&["-l", "/tmp"]);
    let run = Run::new("/bin/ls", &args);
    assert_eq!(run.command, "/bin/ls");
    assert_eq!(run.args, &args[..]);
}

#[test]
fn run_begins_with_the_program_itself() {
    let args = words(&["a", "b"]);
    let run = Run::new("/usr/bin/tool", &args);
    let (state, action) = run.run_and_monitor(RunState::Created, RunEvent::Begin, false);
    assert_eq!(state, RunState::Starting);
    assert_eq!(
        action,
        RunAction::Spawn(Invocation {
            program: "/usr/bin/tool".to_string(),
            args: words(&["a", "b"]),
        })
    );
    assert_eq!(run.direct(), Invocation { program: "/usr/bin/tool".to_string(), args });
}

#[test]
fn python_script_falls_back_to_interpreter_and_reports_exit_code() {
    let args = words(&["--flag", "7"]);
    let run = Run::new("/home/u/job.py", &args);
    let (state, _) = run.run_and_monitor(RunState::Created, RunEvent::Begin, false);
    let (state, action) = run.run_and_monitor(state, RunEvent::SpawnFailed, false);
    assert_eq!(state, RunState::StartingInterpreter);
    assert_eq!(
        action,
        RunAction::Spawn(Invocation {
            program: "python3".to_string(),
            args: words(&["/home/u/job.py", "--flag", "7"]),
        })
    );
    let (state, action) = run.run_and_monitor(state, RunEvent::Spawned, false);
    assert_eq!(state, RunState::Spawned { exit: None, peak: None });
    assert_eq!(action, RunAction::Monitor);
    let exited = RunEvent::ChildExited { code: Some(3), wall_ms: 40 };
    let (state, action) = run.run_and_monitor(state, exited, false);
    assert_eq!(
        state,
        RunState::Spawned { exit: Some(ChildExit { code: Some(3), wall_ms: 40 }), peak: None }
    );
    assert_eq!(action, RunAction::Wait);
    let sampled = RunEvent::SamplerDone { peak_memory: 4096 };
    let (state, action) = run.run_and_monitor(state, sampled, false);
    assert_eq!(state, RunState::Exited);
    let info = ExitInfo { code: Some(3), wall_ms: 40, peak_memory: 4096 };
    assert_eq!(action, RunAction::Finish(info));
    assert_eq!(info.exit_code_or(FALLBACK_EXIT_CODE), 3);
}

#[test]
fn shell_script_falls_back_to_sh() {
    let args = words(&[]);
    let run = Run::new("deploy.sh", &args);
    let (state, action) = run.run_and_monitor(RunState::Starting, RunEvent::SpawnFailed, true);
    assert_eq!(state, RunState::StartingInterpreter);
    assert_eq!(
        action,
        RunAction::Spawn(Invocation { program: "sh".to_string(), args: words(&["deploy.sh"]) })
    );
}

#[test]
fn python_is_called_python_on_windows() {
    let args = words(&["x"]);
    let run = Run::new("job.py", &args);
    assert_eq!(
        run.fallback(true),
        Some(Invocation { program: "python".to_string(), args: words(&["job.py", "x"]) })
    );
    assert_eq!(Interpreter::Python.program(true), "python");
    assert_eq!(Interpreter::Python.program(false), "python3");
    assert_eq!(Interpreter::Shell.program(true), "sh");
    assert_eq!(Interpreter::Shell.program(false), "sh");
}

#[test]
fn interpreter_goes_by_the_end_of_the_name() {
    assert_eq!(Interpreter::for_file("a.sh"), Some(Interpreter::Shell));
    assert_eq!(Interpreter::for_file("/x/y/a.py"), Some(Interpreter::Python));
    assert_eq!(Interpreter::for_file(".py"), Some(Interpreter::Python));
    assert_eq!(Interpreter::for_file("a.py.sh"), Some(Interpreter::Shell));
    assert_eq!(Interpreter::for_file("a.PY"), None);
    assert_eq!(Interpreter::for_file("a.pyc"), None);
    assert_eq!(Interpreter::for_file("sh"), None);
    assert_eq!(Interpreter::for_file(""), None);
}

#[test]
fn run_without_interpreter_fails_when_start_fails() {
    let args = words(&["x"]);
    let run = Run::new("/usr/bin/tool", &args);
    assert_eq!(run.fallback(false), None);
    let (state, action) = run.run_and_monitor(RunState::Starting, RunEvent::SpawnFailed, false);
    assert_eq!(state, RunState::Failed);
    assert_eq!(
        action,
        RunAction::Fail(Error::SpawnFailed { command: "/usr/bin/tool".to_string() })
    );
}

#[test]
fn run_fails_when_interpreter_fails_too() {
    let args = words(&[]);
    let run = Run::new("job.py", &args);
    let (state, action) =
        run.run_and_monitor(RunState::StartingInterpreter, RunEvent::SpawnFailed, false);
    assert_eq!(state, RunState::Failed);
    assert_eq!(action, RunAction::Fail(Error::SpawnFailed { command: "job.py".to_string() }));
}

#[test]
fn run_finishes_when_sampler_ends_first() {
    let args = words(&[]);
    let run = Run::new("tool", &args);
    let (state, action) = run.run_and_monitor(RunState::Starting, RunEvent::Spawned, false);
    assert_eq!(action, RunAction::Monitor);
    let sampled = RunEvent::SamplerDone { peak_memory: 10 };
    let (state, action) = run.run_and_monitor(state, sampled, false);
    assert_eq!(state, RunState::Spawned { exit: None, peak: Some(10) });
    assert_eq!(action, RunAction::Wait);
    let exited = RunEvent::ChildExited { code: None, wall_ms: 5 };
    let (state, action) = run.run_and_monitor(state, exited, false);
    assert_eq!(state, RunState::Exited);
    let info = ExitInfo { code: None, wall_ms: 5, peak_memory: 10 };
    assert_eq!(action, RunAction::Finish(info));
    assert_eq!(info.exit_code_or(FALLBACK_EXIT_CODE), 1);
    assert_eq!(info.exit_code_or(42), 42);
}

#[test]
fn events_that_do_not_fit_are_ignored() {
    let args = words(&[]);
    let run = Run::new("tool.sh", &args);
    let cases = [
        (RunState::Created, RunEvent::Spawned),
        (RunState::Created, RunEvent::SpawnFailed),
        (RunState::Starting, RunEvent::Begin),
        (RunState::Starting, RunEvent::SamplerDone { peak_memory: 1 }),
        (RunState::Spawned { exit: None, peak: None }, RunEvent::SpawnFailed),
        (
            RunState::Spawned { exit: Some(ChildExit { code: Some(0), wall_ms: 1 }), peak: None },
            RunEvent::ChildExited { code: Some(1), wall_ms: 2 },
        ),
        (RunState::Spawned { exit: None, peak: Some(1) }, RunEvent::SamplerDone { peak_memory: 2 }),
        (RunState::Exited, RunEvent::Begin),
        (RunState::Exited, RunEvent::ChildExited { code: Some(0), wall_ms: 1 }),
        (RunState::Failed, RunEvent::Spawned),
    ];
    for (state, event) in cases {
        let (after, action) = run.run_and_monitor(state, event, false);
        assert_eq!(after, state);
        assert_eq!(action, RunAction::Ignore);
    }
}

#[test]
fn sampler_keeps_the_largest_sample() {
    let mut sampler = Sampler::new();
    assert_eq!(sampler.peak(), 0);
    assert!(sampler.observe(Some(100)));
    assert_eq!(sampler.peak(), 100);
    assert!(sampler.observe(Some(300)));
    assert!(sampler.observe(Some(200)));
    assert_eq!(sampler.peak(), 300);
    assert!(!sampler.observe(None));
    assert_eq!(sampler.peak(), 300);
    assert_eq!(sampler.done(), RunEvent::SamplerDone { peak_memory: 300 });
    assert_eq!(SAMPLE_INTERVAL_MS, 100);
}

#[test]
fn resident_memory_is_read_from_status_text() {
    let status = "Name:\tcat\nVmPeak:\t    9999 kB\nVmRSS:\t    1234 kB\nThreads:\t1\n";
    assert_eq!(resident_memory(status), Some(1234 * 1024));
    assert_eq!(resident_memory("VmRSS:12"), Some(12 * 1024));
    assert_eq!(resident_memory("VmRSS: 0 kB"), Some(0));
    assert_eq!(resident_memory("VmRSS:\t007\tkB"), Some(7 * 1024));
    assert_eq!(resident_memory("x\r\nVmRSS: 5 kB\r\n"), Some(5 * 1024));
    assert_eq!(resident_memory("VmRSS: 1 kB\nVmRSS: 2 kB\n"), Some(1024));
}

#[test]
fn resident_memory_is_missing_or_unreadable() {
    assert_eq!(resident_memory(""), None);
    assert_eq!(resident_memory("Name:\tcat\nState:\tZ (zombie)\n"), None);
    assert_eq!(resident_memory(" VmRSS: 5 kB"), None);
    assert_eq!(resident_memory("vmrss: 5 kB"), None);
    assert_eq!(resident_memory("VmRSS:"), None);
    assert_eq!(resident_memory("VmRSS: kB"), None);
    assert_eq!(resident_memory("VmRSS: 12kB"), None);
    assert_eq!(resident_memory("VmRSS: -1 kB"), None);
    assert_eq!(resident_memory("VmRSS: x\nVmRSS: 2 kB\n"), None);
    assert_eq!(resident_memory("VmRSS: 5\r"), None);
}

#[test]
fn resident_memory_stops_at_what_64_bits_hold() {
    assert_eq!(KIBIBYTE, 1024);
    assert_eq!(RESIDENT_KEY, "VmRSS:");
    let most = u64::MAX / 1024;
    assert_eq!(resident_memory(&format!("VmRSS: {} kB", most)), Some(most * 1024));
    assert_eq!(resident_memory(&format!("VmRSS: {} kB", most + 1)), None);
    assert_eq!(resident_memory(&format!("VmRSS: {} kB", u64::MAX)), None);
    assert_eq!(resident_memory("VmRSS: 99999999999999999999999999999999 kB"), None);
    assert_eq!(resident_memory("VmRSS: 00000000000000000000000000000001 kB"), Some(1024));
}
