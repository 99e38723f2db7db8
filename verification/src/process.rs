//! Running a resolved executable and watching it while it runs.
//!
//! Starting a process, sampling its memory and waiting for it are the
//! caller's work. What to start, what to fall back to when the start fails,
//! what is kept of the samples, and when a run counts as finished are
//! decided here: the caller reports each event to
//! [`Run::run_and_monitor`] and carries out the action it gets back.

use vstd::prelude::*;
use crate::error::{Error, ErrorView};
use crate::text::ends_with;

verus! {

/// The time between two samples of the child's memory, in milliseconds.
pub const SAMPLE_INTERVAL_MS: u64 = 100;

/// The exit code that a caller reports where a run gave none.
pub const FALLBACK_EXIT_CODE: i32 = 1;

/// A command line that is ready to be started: the program and its
/// arguments.
pub struct Run<'a> {
    pub command: &'a str,
    pub args: &'a [String],
}

/// The interpreters that a script is handed to when it cannot be started
/// directly.
#[derive(Debug, Clone, Copy, PartialEq, Eq, Structural)]
pub enum Interpreter {
    /// For files that end in `.sh`.
    Shell,
    /// For files that end in `.py`.
    Python,
}

/// A program with the arguments to start it with.
#[derive(Debug, PartialEq, Eq)]
pub struct Invocation {
    pub program: String,
    pub args: Vec<String>,
}

/// A program with its arguments, over plain sequences.
pub struct InvocationView {
    pub program: Seq<char>,
    pub args: Seq<Seq<char>>,
}

/// The texts of `args`.
pub open spec fn arg_views(args: Seq<String>) -> Seq<Seq<char>> {
    args.map_values(|a: String| a@)
}

impl View for Invocation {
    type V = InvocationView;

    open spec fn view(&self) -> InvocationView {
        InvocationView { program: self.program@, args: arg_views(self.args@) }
    }
}

/// How a run ended: the exit code, where the child gave one, the time it
/// ran and the most memory it was seen to hold.
#[derive(Debug, Clone, Copy, PartialEq, Eq, Structural)]
pub struct ExitInfo {
    /// The child's exit code; `None` where it ended without one, as a child
    /// that was killed by a signal does.
    pub code: Option<i32>,
    /// Wall-clock time from start to exit, in milliseconds.
    pub wall_ms: u64,
    /// The largest resident memory that was sampled, in bytes.
    pub peak_memory: u64,
}

impl ExitInfo {
    /// The child's exit code, or `fallback` where it gave none.
    pub fn exit_code_or(&self, fallback: i32) -> (code: i32)
        ensures
            code == match self.code {
                Some(c) => c,
                None => fallback,
            },
    {
        match self.code {
            Some(c) => c,
            None => fallback,
        }
    }
}

/// The interpreter for a file called `command`, chosen by how its name ends.
pub open spec fn interpreter_for(command: Seq<char>) -> Option<Interpreter> {
    if ".sh"@.is_suffix_of(command) {
        Some(Interpreter::Shell)
    } else if ".py"@.is_suffix_of(command) {
        Some(Interpreter::Python)
    } else {
        None
    }
}

/// The name of the program that runs `interpreter`. Python is called
/// `python` on Windows and `python3` elsewhere.
pub open spec fn interpreter_program(interpreter: Interpreter, windows: bool) -> Seq<char> {
    match interpreter {
        Interpreter::Shell => "sh"@,
        Interpreter::Python => if windows {
            "python"@
        } else {
            "python3"@
        },
    }
}

impl Interpreter {
    /// The interpreter for a file called `command`, if there is one.
    pub fn for_file(command: &str) -> (found: Option<Interpreter>)
        ensures
            found == interpreter_for(command@),
    {
        if ends_with(command, ".sh") {
            Some(Interpreter::Shell)
        } else if ends_with(command, ".py") {
            Some(Interpreter::Python)
        } else {
            None
        }
    }

    /// The name of the program that runs this interpreter.
    pub fn program(&self, windows: bool) -> (name: &'static str)
        ensures
            name@ == interpreter_program(*self, windows),
    {
        match self {
            Interpreter::Shell => "sh",
            Interpreter::Python => if windows {
                "python"
            } else {
                "python3"
            },
        }
    }
}

/// What the wait for a child gave: the exit code, if the child gave one,
/// and the time the child ran, in milliseconds.
#[derive(Debug, Clone, Copy, PartialEq, Eq, Structural)]
pub struct ChildExit {
    pub code: Option<i32>,
    pub wall_ms: u64,
}

/// Where a run stands.
#[derive(Debug, Clone, Copy, PartialEq, Eq, Structural)]
pub enum RunState {
    /// Nothing was started yet.
    Created,
    /// The program itself is being started.
    Starting,
    /// The program could not be started; its interpreter is being started.
    StartingInterpreter,
    /// The child runs. `exit` holds what the wait for the child gave, once
    /// it is over; `peak` holds what the sampler reported, once it is done.
    Spawned { exit: Option<ChildExit>, peak: Option<u64> },
    /// The child is gone and the sampler is done.
    Exited,
    /// Nothing could be started.
    Failed,
}

/// What the caller reports.
#[derive(Debug, Clone, Copy, PartialEq, Eq, Structural)]
pub enum RunEvent {
    /// The run is to begin.
    Begin,
    /// The last start did not succeed.
    SpawnFailed,
    /// The last start succeeded: the child runs.
    Spawned,
    /// The wait for the child is over: its exit code, if it gave one, and
    /// the time it ran, in milliseconds.
    ChildExited { code: Option<i32>, wall_ms: u64 },
    /// The sampler saw the child gone and stopped: the largest resident
    /// memory it sampled.
    SamplerDone { peak_memory: u64 },
}

/// What the caller is to do next.
#[derive(Debug, PartialEq, Eq)]
pub enum RunAction {
    /// Start this program with these arguments and report how that went.
    Spawn(Invocation),
    /// Start the sampler, wait for the child, and report both ends.
    Monitor,
    /// Keep waiting for the end that is still open.
    Wait,
    /// The run is over: this is its result.
    Finish(ExitInfo),
    /// The run failed.
    Fail(Error),
    /// The event does not fit the state; nothing is to be done.
    Ignore,
}

/// A run action over plain sequences.
pub enum RunActionView {
    Spawn(InvocationView),
    Monitor,
    Wait,
    Finish(ExitInfo),
    Fail(ErrorView),
    Ignore,
}

impl View for RunAction {
    type V = RunActionView;

    open spec fn view(&self) -> RunActionView {
        match *self {
            RunAction::Spawn(invocation) => RunActionView::Spawn(invocation@),
            RunAction::Monitor => RunActionView::Monitor,
            RunAction::Wait => RunActionView::Wait,
            RunAction::Finish(info) => RunActionView::Finish(info),
            RunAction::Fail(e) => RunActionView::Fail(e@),
            RunAction::Ignore => RunActionView::Ignore,
        }
    }
}

/// The program itself with its arguments.
pub open spec fn direct_invocation(command: Seq<char>, args: Seq<Seq<char>>) -> InvocationView {
    InvocationView { program: command, args }
}

/// The interpreter, with the program as its first argument and the
/// program's arguments after it.
pub open spec fn interpreter_invocation(
    interpreter: Interpreter,
    windows: bool,
    command: Seq<char>,
    args: Seq<Seq<char>>,
) -> InvocationView {
    InvocationView {
        program: interpreter_program(interpreter, windows),
        args: seq![command] + args,
    }
}

/// The state after `event`, and the action that it asks for.
///
/// A run begins with a start of the program itself. Where that fails and
/// the file has an interpreter, the interpreter is started with the file in
/// front of the arguments; where there is none, or where the interpreter
/// fails too, the run fails. Once the child runs, the run is finished by
/// the later of two reports: that the child exited and that the sampler is
/// done. An event that does not fit the state changes nothing.
pub open spec fn next_step(
    command: Seq<char>,
    args: Seq<Seq<char>>,
    windows: bool,
    state: RunState,
    event: RunEvent,
) -> (RunState, RunActionView) {
    match (state, event) {
        (RunState::Created, RunEvent::Begin) => (
            RunState::Starting,
            RunActionView::Spawn(direct_invocation(command, args)),
        ),
        (RunState::Starting, RunEvent::SpawnFailed) => match interpreter_for(command) {
            Some(interpreter) => (
                RunState::StartingInterpreter,
                RunActionView::Spawn(interpreter_invocation(interpreter, windows, command, args)),
            ),
            None => (RunState::Failed, RunActionView::Fail(ErrorView::SpawnFailed { command })),
        },
        (RunState::StartingInterpreter, RunEvent::SpawnFailed) => (
            RunState::Failed,
            RunActionView::Fail(ErrorView::SpawnFailed { command }),
        ),
        (RunState::Starting, RunEvent::Spawned) | (
            RunState::StartingInterpreter,
            RunEvent::Spawned,
        ) => (RunState::Spawned { exit: None, peak: None }, RunActionView::Monitor),
        (
            RunState::Spawned { exit: None, peak },
            RunEvent::ChildExited { code, wall_ms },
        ) => match peak {
            Some(peak_memory) => (
                RunState::Exited,
                RunActionView::Finish(ExitInfo { code, wall_ms, peak_memory }),
            ),
            None => (
                RunState::Spawned { exit: Some(ChildExit { code, wall_ms }), peak: None },
                RunActionView::Wait,
            ),
        },
        (
            RunState::Spawned { exit, peak: None },
            RunEvent::SamplerDone { peak_memory },
        ) => match exit {
            Some(ChildExit { code, wall_ms }) => (
                RunState::Exited,
                RunActionView::Finish(ExitInfo { code, wall_ms, peak_memory }),
            ),
            None => (
                RunState::Spawned { exit: None, peak: Some(peak_memory) },
                RunActionView::Wait,
            ),
        },
        _ => (state, RunActionView::Ignore),
    }
}

impl<'a> Run<'a> {
    /// Pairs a program with the arguments it will be started with.
    pub fn new(command: &'a str, args: &'a [String]) -> (run: Self)
        ensures
            run.command == command,
            run.args == args,
    {
        Run { command, args }
    }

    /// The arguments, copied.
    fn copy_args(&self) -> (args: Vec<String>)
        ensures
            arg_views(args@) == arg_views(self.args@),
    {
        let mut args: Vec<String> = Vec::new();
        let mut i: usize = 0;
        while i < self.args.len()
            invariant
                i <= self.args.len(),
                arg_views(args@) =~= arg_views(self.args@).take(i as int),
            decreases self.args.len() - i,
        {
            let arg = self.args[i].clone();
            proof {
                let all = arg_views(self.args@);
                assert(all.take(i + 1) =~= all.take(i as int).push(all[i as int]));
                assert(arg_views(args@.push(arg)) =~= arg_views(args@).push(arg@));
            }
            args.push(arg);
            i += 1;
        }
        assert(arg_views(self.args@).take(self.args.len() as int) =~= arg_views(self.args@));
        args
    }

    /// The program itself with its arguments: what is started first.
    pub fn direct(&self) -> (invocation: Invocation)
        ensures
            invocation@ == direct_invocation(self.command@, arg_views(self.args@)),
    {
        Invocation { program: self.command.to_owned(), args: self.copy_args() }
    }

    /// What is started when the program itself cannot be: the interpreter
    /// for the file, with the file in front of the arguments. `None` where
    /// the file has no interpreter.
    pub fn fallback(&self, windows: bool) -> (invocation: Option<Invocation>)
        ensures
            match invocation {
                Some(i) => interpreter_for(self.command@) is Some && i@ == interpreter_invocation(
                    interpreter_for(self.command@)->0,
                    windows,
                    self.command@,
                    arg_views(self.args@),
                ),
                None => interpreter_for(self.command@) is None,
            },
    {
        match Interpreter::for_file(self.command) {
            Some(interpreter) => {
                let mut args: Vec<String> = Vec::new();
                args.push(self.command.to_owned());
                let mut rest = self.copy_args();
                let ghost first = args@;
                let ghost others = rest@;
                args.append(&mut rest);
                assert(arg_views(args@) =~= seq![self.command@] + arg_views(self.args@)) by {
                    assert(args@ =~= first + others);
                    assert(arg_views(first + others) =~= arg_views(first) + arg_views(others));
                    assert(arg_views(first) =~= seq![self.command@]);
                }
                Some(Invocation { program: interpreter.program(windows).to_owned(), args })
            },
            None => None,
        }
    }

    /// Runs the program and watches it, one step at a time: from where the
    /// run stands and what the caller reports, to where it stands now and
    /// what the caller is to do. A run starts in `RunState::Created` with
    /// `RunEvent::Begin` and is over with `RunAction::Finish` or
    /// `RunAction::Fail`. `windows` says whether the interpreters go by
    /// their Windows names.
    pub fn run_and_monitor(&self, state: RunState, event: RunEvent, windows: bool) -> (next: (
        RunState,
        RunAction,
    ))
        ensures
            (next.0, next.1@) == next_step(
                self.command@,
                arg_views(self.args@),
                windows,
                state,
                event,
            ),
    {
        match (state, event) {
            (RunState::Created, RunEvent::Begin) => (
                RunState::Starting,
                RunAction::Spawn(self.direct()),
            ),
            (RunState::Starting, RunEvent::SpawnFailed) => match self.fallback(windows) {
                Some(invocation) => (RunState::StartingInterpreter, RunAction::Spawn(invocation)),
                None => (
                    RunState::Failed,
                    RunAction::Fail(Error::SpawnFailed { command: self.command.to_owned() }),
                ),
            },
            (RunState::StartingInterpreter, RunEvent::SpawnFailed) => (
                RunState::Failed,
                RunAction::Fail(Error::SpawnFailed { command: self.command.to_owned() }),
            ),
            (RunState::Starting, RunEvent::Spawned) => (
                RunState::Spawned { exit: None, peak: None },
                RunAction::Monitor,
            ),
            (RunState::StartingInterpreter, RunEvent::Spawned) => (
                RunState::Spawned { exit: None, peak: None },
                RunAction::Monitor,
            ),
            (RunState::Spawned { exit: None, peak }, RunEvent::ChildExited { code, wall_ms }) => {
                match peak {
                    Some(peak_memory) => (
                        RunState::Exited,
                        RunAction::Finish(ExitInfo { code, wall_ms, peak_memory }),
                    ),
                    None => (
                        RunState::Spawned { exit: Some(ChildExit { code, wall_ms }), peak: None },
                        RunAction::Wait,
                    ),
                }
            },
            (RunState::Spawned { exit, peak: None }, RunEvent::SamplerDone { peak_memory }) => {
                match exit {
                    Some(ChildExit { code, wall_ms }) => (
                        RunState::Exited,
                        RunAction::Finish(ExitInfo { code, wall_ms, peak_memory }),
                    ),
                    None => (
                        RunState::Spawned { exit: None, peak: Some(peak_memory) },
                        RunAction::Wait,
                    ),
                }
            },
            _ => (state, RunAction::Ignore),
        }
    }
}

/// The larger of the peak so far and a new sample.
pub open spec fn higher(peak: u64, memory: u64) -> u64 {
    if memory > peak {
        memory
    } else {
        peak
    }
}

/// The samples of a child's resident memory, reduced to the largest.
#[derive(Debug, Clone, Copy, PartialEq, Eq, Structural)]
pub struct Sampler {
    peak: u64,
}

impl Sampler {
    /// The largest sample so far.
    pub closed spec fn peak_so_far(&self) -> u64 {
        self.peak
    }

    /// A sampler that has seen nothing.
    pub fn new() -> (sampler: Sampler)
        ensures
            sampler.peak_so_far() == 0,
    {
        Sampler { peak: 0 }
    }

    /// Takes one look at the process table into account: the child's
    /// resident memory, or `None` where the child is no longer running.
    /// Says whether to look again after the sample interval.
    pub fn observe(&mut self, reading: Option<u64>) -> (again: bool)
        ensures
            again == reading is Some,
            final(self).peak_so_far() == match reading {
                Some(memory) => higher(old(self).peak_so_far(), memory),
                None => old(self).peak_so_far(),
            },
    {
        match reading {
            Some(memory) => {
                if memory > self.peak {
                    self.peak = memory;
                }
                true
            },
            None => false,
        }
    }

    /// The largest sample.
    pub fn peak(&self) -> (peak: u64)
        ensures
            peak == self.peak_so_far(),
    {
        self.peak
    }

    /// The report that ends the sampling.
    pub fn done(&self) -> (event: RunEvent)
        ensures
            event == (RunEvent::SamplerDone { peak_memory: self.peak_so_far() }),
    {
        RunEvent::SamplerDone { peak_memory: self.peak }
    }
}

/// The peak that a sampler holds after it took `samples`, one after the
/// other, having held `peak` before.
pub open spec fn observed(peak: u64, samples: Seq<u64>) -> u64
    decreases samples.len(),
{
    if samples.len() == 0 {
        peak
    } else {
        higher(observed(peak, samples.drop_last()), samples.last())
    }
}

/// A fresh sampler that took samples holds the largest of them: no sample
/// is larger than its peak, and its peak is one of the samples, or 0 where
/// there are none.
pub proof fn sampler_keeps_largest(samples: Seq<u64>)
    ensures
        forall|i: int| 0 <= i < samples.len() ==> samples[i] <= observed(0, samples),
        samples.len() == 0 ==> observed(0, samples) == 0,
        samples.len() > 0 ==> exists|i: int|
            0 <= i < samples.len() && samples[i] == observed(0, samples),
    decreases samples.len(),
{
    if samples.len() > 0 {
        let earlier = samples.drop_last();
        sampler_keeps_largest(earlier);
        assert forall|i: int| 0 <= i < samples.len() implies samples[i] <= observed(
            0,
            samples,
        ) by {
            if i < earlier.len() {
                assert(earlier[i] == samples[i]);
            }
        }
        if samples.last() > observed(0, earlier) || earlier.len() == 0 {
            assert(samples[samples.len() - 1] == observed(0, samples));
        } else {
            let i = choose|i: int| 0 <= i < earlier.len() && earlier[i] == observed(0, earlier);
            assert(samples[i] == observed(0, samples));
        }
    }
}

/// Taking samples in two turns is taking them in one.
pub proof fn observed_in_turns(peak: u64, first: Seq<u64>, second: Seq<u64>)
    ensures
        observed(observed(peak, first), second) == observed(peak, first + second),
    decreases second.len(),
{
    if second.len() == 0 {
        assert(first + second =~= first);
    } else {
        observed_in_turns(peak, first, second.drop_last());
        assert((first + second).drop_last() =~= first + second.drop_last());
        assert((first + second).last() == second.last());
    }
}

/// A run fails only when nothing could be started: the action is `Fail`
/// exactly when a start is reported as failed and either it was the start
/// of the interpreter, or it was the start of the program itself and the
/// file has no interpreter. The failure names the program.
pub proof fn fail_follows_failed_starts(
    command: Seq<char>,
    args: Seq<Seq<char>>,
    windows: bool,
    state: RunState,
    event: RunEvent,
)
    ensures
        ({
            let (after, action) = next_step(command, args, windows, state, event);
            &&& action is Fail <==> event == RunEvent::SpawnFailed && (state
                == RunState::StartingInterpreter || (state == RunState::Starting
                && interpreter_for(command) is None))
            &&& action is Fail ==> after == RunState::Failed && action == RunActionView::Fail(
                ErrorView::SpawnFailed { command },
            )
        }),
{
}

/// A run is finished only by the later of its two ends: the action is
/// `Finish` exactly when the child runs and either the child's exit is
/// reported with the sampler done, or the sampler's end is reported with
/// the child's exit known. The result then holds what both reported.
pub proof fn finish_joins_both_ends(
    command: Seq<char>,
    args: Seq<Seq<char>>,
    windows: bool,
    state: RunState,
    event: RunEvent,
)
    ensures
        ({
            let (after, action) = next_step(command, args, windows, state, event);
            &&& action is Finish <==> after == RunState::Exited && state != RunState::Exited
            &&& action is Finish <==> ({
                ||| exists|code: Option<i32>, wall_ms: u64, peak_memory: u64|
                    state == (RunState::Spawned { exit: None, peak: Some(peak_memory) }) && event
                        == (RunEvent::ChildExited { code, wall_ms }) && action
                        == RunActionView::Finish(ExitInfo { code, wall_ms, peak_memory })
                ||| exists|code: Option<i32>, wall_ms: u64, peak_memory: u64|
                    state == (RunState::Spawned {
                        exit: Some(ChildExit { code, wall_ms }),
                        peak: None,
                    }) && event == (RunEvent::SamplerDone { peak_memory }) && action
                        == RunActionView::Finish(ExitInfo { code, wall_ms, peak_memory })
            })
        }),
{
    let (after, action) = next_step(command, args, windows, state, event);
    match (state, event) {
        (
            RunState::Spawned { exit: None, peak: Some(peak_memory) },
            RunEvent::ChildExited { code, wall_ms },
        ) => {
            assert(state == (RunState::Spawned { exit: None, peak: Some(peak_memory) }) && event
                == (RunEvent::ChildExited { code, wall_ms }) && action == RunActionView::Finish(
                ExitInfo { code, wall_ms, peak_memory },
            ));
        },
        (
            RunState::Spawned { exit: Some(ChildExit { code, wall_ms }), peak: None },
            RunEvent::SamplerDone { peak_memory },
        ) => {
            assert(state == (RunState::Spawned {
                exit: Some(ChildExit { code, wall_ms }),
                peak: None,
            }) && event == (RunEvent::SamplerDone { peak_memory }) && action
                == RunActionView::Finish(ExitInfo { code, wall_ms, peak_memory }));
        },
        _ => {},
    }
}

} // verus!
