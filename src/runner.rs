//! One cell's run: the arguments of its configure and build steps, its build directory,
//! and the decisions between the steps.
//!
//! The decisions form a state machine: `advance` takes the current phase and what the
//! last action brought, and returns the next phase; `Phase::action` says what to do next.
//! The driver performs the actions (running the tools, reading their output, waiting) and
//! feeds back the events.
use vstd::prelude::*;
use crate::axes::AppConfig;
use crate::cells::{Cell, CellView};
use crate::text::{concatenate, decimal, has_infix, join_path, parse_progress, path_join, progress_of, to_decimal, views, contains_infix};

verus! {

/// Where a cell builds: `<root>/build/<SDK>/<type>/<toolchain>/<dialect>`.
pub open spec fn build_dir_of(root: Seq<char>, cell: CellView) -> Seq<char> {
    path_join(path_join(path_join(path_join(path_join(root, "build"@), cell.1), cell.0), cell.2), cell.3)
}

/// The build directory of `cell` under `root`.
pub fn build_dir(root: &String, cell: &Cell) -> (r: String)
    ensures
        r@ == build_dir_of(root@, cell@),
{
    let a = join_path(root.as_str(), "build");
    let b = join_path(a.as_str(), cell.ctk.as_str());
    let c = join_path(b.as_str(), cell.build_type.as_str());
    let d = join_path(c.as_str(), cell.compiler.as_str());
    join_path(d.as_str(), cell.dialect.as_str())
}

/// The switch that turns the configure step's support for dialect `d` on or off.
pub open spec fn dialect_switch(d: Seq<char>, cpp: Seq<char>) -> Seq<char> {
    "-DCUB_ENABLE_DIALECT_CPP"@ + d + if d == cpp {
        "=ON"@
    } else {
        "=OFF"@
    }
}

/// The arguments that name the compilers: an `nvhpc` toolchain compiles device code
/// itself; any other goes with the SDK's `nvcc`.
pub open spec fn compiler_args(compiler: Seq<char>, cxx: Seq<char>, ctk: Seq<char>) -> Seq<
    Seq<char>,
> {
    if has_infix(compiler, "nvhpc"@) {
        seq![
            "-DCMAKE_CUDA_COMPILER_FORCED=ON"@,
            "-DCMAKE_CUDA_COMPILER="@ + cxx,
            "-DCMAKE_CUDA_COMPILER_ID=NVCXX"@,
        ]
    } else {
        seq![
            "-DCMAKE_CUDA_COMPILER="@ + path_join(path_join(ctk, "bin"@), "nvcc"@),
            "-DCMAKE_CXX_COMPILER="@ + cxx,
        ]
    }
}

/// The configure step's arguments for a cell whose toolchain is at `cxx`, whose SDK is at
/// `ctk`, with the two source trees at `cub` and `thrust`.
pub open spec fn configure_args(
    dir: Seq<char>,
    cell: CellView,
    cxx: Seq<char>,
    ctk: Seq<char>,
    cub: Seq<char>,
    thrust: Seq<char>,
) -> Seq<Seq<char>> {
    seq![
        "-GNinja"@,
        "-B"@ + dir,
        "-DCMAKE_BUILD_TYPE="@ + cell.0,
        "-DCUB_DISABLE_ARCH_BY_DEFAULT=ON"@,
        "-DCUB_ENABLE_COMPUTE_80=ON"@,
        "-DCUB_IGNORE_DEPRECATED_CPP_DIALECT=ON"@,
        "-DCMAKE_EXPORT_COMPILE_COMMANDS=ON"@,
    ] + compiler_args(cell.2, cxx, ctk) + seq![
        dialect_switch("11"@, cell.3),
        dialect_switch("14"@, cell.3),
        dialect_switch("17"@, cell.3),
        "-DThrust_DIR="@ + thrust + "/thrust/cmake"@,
        "-DCUB_ENABLE_TESTS_WITH_RDC=OFF"@,
        cub,
    ]
}

/// The configuration has every path that the configure step of `cell` needs: its
/// toolchain, both source trees, and, unless the toolchain is `nvhpc`, its SDK.
pub open spec fn has_paths_for(config: &AppConfig, cell: CellView) -> bool {
    &&& config.compilers@.contains_key(cell.2)
    &&& config.src@.contains_key("cub"@)
    &&& config.src@.contains_key("thrust"@)
    &&& (has_infix(cell.2, "nvhpc"@) || config.ctks@.contains_key(cell.1))
}

fn dialect_switch_arg(d: &str, cpp: &String) -> (r: String)
    ensures
        r@ == dialect_switch(d@, cpp@),
{
    let mut s = concatenate("-DCUB_ENABLE_DIALECT_CPP", d);
    if String::from_str(d) == *cpp {
        s.append("=ON");
    } else {
        s.append("=OFF");
    }
    s
}

/// The arguments of the configure step of `cell`, which builds in `dir`; `None` when the
/// configuration lacks a path that they need.
pub fn configure_arguments(config: &AppConfig, cell: &Cell, dir: &String) -> (r: Option<
    Vec<String>,
>)
    ensures
        r is Some <==> has_paths_for(config, cell@),
        r is Some ==> views(r->0@) == configure_args(
            dir@,
            cell@,
            config.compilers@[cell.compiler@],
            config.ctks@[cell.ctk@],
            config.src@["cub"@],
            config.src@["thrust"@],
        ),
{
    let cub_key = String::from_str("cub");
    let thrust_key = String::from_str("thrust");
    let cxx = match config.compilers.get(&cell.compiler) {
        Some(p) => p,
        None => return None,
    };
    let cub = match config.src.get(&cub_key) {
        Some(p) => p,
        None => return None,
    };
    let thrust = match config.src.get(&thrust_key) {
        Some(p) => p,
        None => return None,
    };
    let mut args: Vec<String> = Vec::new();
    args.push(String::from_str("-GNinja"));
    args.push(concatenate("-B", dir.as_str()));
    args.push(concatenate("-DCMAKE_BUILD_TYPE=", cell.build_type.as_str()));
    args.push(String::from_str("-DCUB_DISABLE_ARCH_BY_DEFAULT=ON"));
    args.push(String::from_str("-DCUB_ENABLE_COMPUTE_80=ON"));
    args.push(String::from_str("-DCUB_IGNORE_DEPRECATED_CPP_DIALECT=ON"));
    args.push(String::from_str("-DCMAKE_EXPORT_COMPILE_COMMANDS=ON"));
    let ghost head = views(args@);
    let ghost ctk_path = config.ctks@[cell.ctk@];
    if contains_infix(cell.compiler.as_str(), "nvhpc") {
        args.push(String::from_str("-DCMAKE_CUDA_COMPILER_FORCED=ON"));
        args.push(concatenate("-DCMAKE_CUDA_COMPILER=", cxx.as_str()));
        args.push(String::from_str("-DCMAKE_CUDA_COMPILER_ID=NVCXX"));
    } else {
        let ctk = match config.ctks.get(&cell.ctk) {
            Some(p) => p,
            None => return None,
        };
        let bin = join_path(ctk.as_str(), "bin");
        let nvcc = join_path(bin.as_str(), "nvcc");
        args.push(concatenate("-DCMAKE_CUDA_COMPILER=", nvcc.as_str()));
        args.push(concatenate("-DCMAKE_CXX_COMPILER=", cxx.as_str()));
    }
    let ghost middle = views(args@);
    args.push(dialect_switch_arg("11", &cell.dialect));
    args.push(dialect_switch_arg("14", &cell.dialect));
    args.push(dialect_switch_arg("17", &cell.dialect));
    let mut thrust_dir = concatenate("-DThrust_DIR=", thrust.as_str());
    thrust_dir.append("/thrust/cmake");
    args.push(thrust_dir);
    args.push(String::from_str("-DCUB_ENABLE_TESTS_WITH_RDC=OFF"));
    args.push(cub.clone());
    proof {
        assert(middle =~= head + compiler_args(
            cell.compiler@,
            config.compilers@[cell.compiler@],
            ctk_path,
        ));
        assert(views(args@) =~= configure_args(
            dir@,
            cell@,
            config.compilers@[cell.compiler@],
            ctk_path,
            config.src@["cub"@],
            config.src@["thrust"@],
        ));
    }
    Some(args)
}

/// The build step's arguments: the directory, the number of jobs, and the target unless
/// it is the default one.
pub open spec fn build_args(dir: Seq<char>, jobs: nat, target: Seq<char>) -> Seq<Seq<char>> {
    let base = seq!["-C"@ + dir, "-j"@ + decimal(jobs)];
    if target.len() == 0 {
        base
    } else {
        base.push(target)
    }
}

/// The arguments of the build step of `cell`, which builds in `dir` with `jobs` jobs.
pub fn build_arguments(cell: &Cell, dir: &String, jobs: usize) -> (r: Vec<String>)
    ensures
        views(r@) == build_args(dir@, jobs as nat, cell.target@),
{
    let mut args: Vec<String> = Vec::new();
    args.push(concatenate("-C", dir.as_str()));
    let n = to_decimal(jobs as u64);
    args.push(concatenate("-j", n.as_str()));
    if cell.target.as_str().unicode_len() > 0 {
        args.push(cell.target.clone());
    }
    assert(views(args@) =~= build_args(dir@, jobs as nat, cell.target@));
    args
}

/// Why a cell failed.
#[derive(Clone, Copy, Debug, PartialEq, Eq, Structural)]
pub enum CellError {
    /// The configure step exited with a failure.
    ConfigureFailed,
    /// The build step could not start, or exited with a failure.
    BuildFailed,
    /// Reading the build step's output failed.
    StreamReadError,
}

/// Where a cell's run stands.
#[derive(Clone, Copy, Debug, PartialEq, Eq, Structural)]
pub enum Phase {
    /// The configure step runs.
    Configuring,
    /// The build step is to be started.
    Spawning,
    /// The next line of the build step's output is awaited.
    Reading,
    /// Whether the build step has exited is to be checked; `drained` once its output has
    /// ended.
    Polling { drained: bool },
    Succeeded,
    Failed(CellError),
}

/// What the driver does next.
#[derive(Clone, Copy, Debug, PartialEq, Eq, Structural)]
pub enum Action {
    /// Run the configure step to its end.
    RunConfigure,
    /// Start the build step with its output piped.
    SpawnBuild,
    /// Read one line of the build step's output.
    ReadLine,
    /// Check, without blocking, whether the build step has exited.
    Poll,
    /// Wait a moment, then check whether the build step has exited.
    PauseThenPoll,
    /// Nothing: the cell's outcome is known.
    Stop,
}

/// What the driver learned from the last action.
#[derive(Debug)]
pub enum Event {
    /// The configure step exited, successfully or not.
    Configured(bool),
    /// The build step started, or could not start.
    Spawned(bool),
    /// A line of the build step's output.
    Line(String),
    /// The build step's output has ended.
    EndOfOutput,
    /// Reading the build step's output failed.
    ReadFailed,
    /// The build step exited, successfully or not.
    Exited(bool),
    /// The build step still runs.
    Running,
    /// Checking on the build step failed.
    PollFailed,
}

pub open spec fn action_of(phase: Phase) -> Action {
    match phase {
        Phase::Configuring => Action::RunConfigure,
        Phase::Spawning => Action::SpawnBuild,
        Phase::Reading => Action::ReadLine,
        Phase::Polling { drained } => if drained {
            Action::PauseThenPoll
        } else {
            Action::Poll
        },
        Phase::Succeeded => Action::Stop,
        Phase::Failed(_) => Action::Stop,
    }
}

/// The phase after `event` in `phase`. An event that does not answer the phase's action
/// leaves the phase as it is.
pub open spec fn next_phase(phase: Phase, event: Event) -> Phase {
    match (phase, event) {
        (Phase::Configuring, Event::Configured(ok)) => if ok {
            Phase::Spawning
        } else {
            Phase::Failed(CellError::ConfigureFailed)
        },
        (Phase::Spawning, Event::Spawned(ok)) => if ok {
            Phase::Reading
        } else {
            Phase::Failed(CellError::BuildFailed)
        },
        (Phase::Reading, Event::Line(_)) => Phase::Polling { drained: false },
        (Phase::Reading, Event::EndOfOutput) => Phase::Polling { drained: true },
        (Phase::Reading, Event::ReadFailed) => Phase::Failed(CellError::StreamReadError),
        (Phase::Polling { .. }, Event::Exited(ok)) => if ok {
            Phase::Succeeded
        } else {
            Phase::Failed(CellError::BuildFailed)
        },
        (Phase::Polling { drained }, Event::Running) => if drained {
            Phase::Polling { drained: true }
        } else {
            Phase::Reading
        },
        (Phase::Polling { drained }, Event::PollFailed) => if drained {
            Phase::Polling { drained: true }
        } else {
            Phase::Reading
        },
        _ => phase,
    }
}

/// The progress that `event` reports in `phase`: that of a line of build output.
pub open spec fn progress_update(phase: Phase, event: Event) -> Option<(u64, u64)> {
    match (phase, event) {
        (Phase::Reading, Event::Line(line)) => progress_of(line@),
        _ => None,
    }
}

/// The phase that a run reaches from `phase` after the driver reported `events`, one after
/// the other.
pub open spec fn run_of(phase: Phase, events: Seq<Event>) -> Phase
    decreases events.len(),
{
    if events.len() == 0 {
        phase
    } else {
        run_of(next_phase(phase, events[0]), events.drop_first())
    }
}

/// `events` report, in this order, a successful configure step, a started build step, and
/// the build step's successful exit.
pub open spec fn reports_success(events: Seq<Event>) -> bool {
    exists|i: int, j: int, k: int|
        #![trigger events[i], events[j], events[k]]
        0 <= i < j < k < events.len() && events[i] == Event::Configured(true) && events[j]
            == Event::Spawned(true) && events[k] == Event::Exited(true)
}

/// What a run still has to be told, from `phase`, before it can succeed.
proof fn lemma_success_needs(phase: Phase, events: Seq<Event>)
    requires
        run_of(phase, events) == Phase::Succeeded,
    ensures
        !(phase is Failed),
        phase == Phase::Configuring ==> reports_success(events),
        phase == Phase::Spawning ==> exists|j: int, k: int|
            #![trigger events[j], events[k]]
            0 <= j < k < events.len() && events[j] == Event::Spawned(true) && events[k]
                == Event::Exited(true),
        (phase == Phase::Reading || phase is Polling) ==> exists|k: int|
            0 <= k < events.len() && #[trigger] events[k] == Event::Exited(true),
    decreases events.len(),
{
    if events.len() > 0 {
        let e = events[0];
        let rest = events.drop_first();
        let next = next_phase(phase, e);
        lemma_success_needs(next, rest);
        assert forall|m: int| 0 <= m < rest.len() implies #[trigger] rest[m] == events[m + 1] by {}
        if phase == Phase::Configuring {
            if next == Phase::Spawning {
                let (j, k) = choose|j: int, k: int|
                    #![trigger rest[j], rest[k]]
                    0 <= j < k < rest.len() && rest[j] == Event::Spawned(true) && rest[k]
                        == Event::Exited(true);
                assert(events[0] == Event::Configured(true));
                assert(events[j + 1] == Event::Spawned(true) && events[k + 1] == Event::Exited(true));
            } else {
                assert(next == Phase::Configuring);
                let (i, j, k) = choose|i: int, j: int, k: int|
                    #![trigger rest[i], rest[j], rest[k]]
                    0 <= i < j < k < rest.len() && rest[i] == Event::Configured(true) && rest[j]
                        == Event::Spawned(true) && rest[k] == Event::Exited(true);
                assert(events[i + 1] == Event::Configured(true) && events[j + 1] == Event::Spawned(
                    true,
                ) && events[k + 1] == Event::Exited(true));
            }
        } else if phase == Phase::Spawning {
            if next == Phase::Reading {
                let k = choose|k: int| 0 <= k < rest.len() && #[trigger] rest[k] == Event::Exited(true);
                assert(events[0] == Event::Spawned(true));
                assert(events[k + 1] == Event::Exited(true));
            } else {
                assert(next == Phase::Spawning);
                let (j, k) = choose|j: int, k: int|
                    #![trigger rest[j], rest[k]]
                    0 <= j < k < rest.len() && rest[j] == Event::Spawned(true) && rest[k]
                        == Event::Exited(true);
                assert(events[j + 1] == Event::Spawned(true) && events[k + 1] == Event::Exited(true));
            }
        } else if phase == Phase::Reading || phase is Polling {
            if next == Phase::Succeeded {
                assert(events[0] == Event::Exited(true));
            } else {
                let k = choose|k: int| 0 <= k < rest.len() && #[trigger] rest[k] == Event::Exited(true);
                assert(events[k + 1] == Event::Exited(true));
            }
        }
    }
}

/// A cell's run ends succeeded only when the driver reported a successful configure step,
/// then a started build step, then that build step's successful exit.
pub proof fn lemma_success_needs_configure_and_build(events: Seq<Event>)
    requires
        run_of(Phase::Configuring, events) == Phase::Succeeded,
    ensures
        reports_success(events),
{
    lemma_success_needs(Phase::Configuring, events);
}

/// A failed run stays failed, with the same cause, whatever is reported after.
pub proof fn lemma_failure_is_final(error: CellError, events: Seq<Event>)
    ensures
        run_of(Phase::Failed(error), events) == Phase::Failed(error),
    decreases events.len(),
{
    if events.len() > 0 {
        lemma_failure_is_final(error, events.drop_first());
    }
}

impl Phase {
    /// The phase in which every cell starts.
    pub fn start() -> (r: Phase)
        ensures
            r == Phase::Configuring,
    {
        Phase::Configuring
    }

    /// What the driver does next in this phase.
    pub fn action(&self) -> (r: Action)
        ensures
            r == action_of(*self),
    {
        match self {
            Phase::Configuring => Action::RunConfigure,
            Phase::Spawning => Action::SpawnBuild,
            Phase::Reading => Action::ReadLine,
            Phase::Polling { drained } => if *drained {
                Action::PauseThenPoll
            } else {
                Action::Poll
            },
            Phase::Succeeded => Action::Stop,
            Phase::Failed(_) => Action::Stop,
        }
    }

    /// The cell's outcome, once it is known.
    pub fn outcome(&self) -> (r: Option<Result<(), CellError>>)
        ensures
            r == match *self {
                Phase::Succeeded => Some(Ok::<(), CellError>(())),
                Phase::Failed(e) => Some(Err(e)),
                _ => None,
            },
    {
        match self {
            Phase::Succeeded => Some(Ok(())),
            Phase::Failed(e) => Some(Err(*e)),
            _ => None,
        }
    }
}

/// The next phase of a cell's run after `event`, and the progress `(current, total)` that
/// the event reports, if any. A cell succeeds only when, with its output being read, the
/// build step exits successfully.
pub fn advance(phase: Phase, event: Event) -> (r: (Phase, Option<(u64, u64)>))
    ensures
        r.0 == next_phase(phase, event),
        r.1 == progress_update(phase, event),
        r.0 == Phase::Succeeded ==> phase == Phase::Succeeded || (phase is Polling && event
            == Event::Exited(true)),
{
    match (phase, event) {
        (Phase::Configuring, Event::Configured(ok)) => if ok {
            (Phase::Spawning, None)
        } else {
            (Phase::Failed(CellError::ConfigureFailed), None)
        },
        (Phase::Spawning, Event::Spawned(ok)) => if ok {
            (Phase::Reading, None)
        } else {
            (Phase::Failed(CellError::BuildFailed), None)
        },
        (Phase::Reading, Event::Line(line)) => (
            Phase::Polling { drained: false },
            parse_progress(line.as_str()),
        ),
        (Phase::Reading, Event::EndOfOutput) => (Phase::Polling { drained: true }, None),
        (Phase::Reading, Event::ReadFailed) => (Phase::Failed(CellError::StreamReadError), None),
        (Phase::Polling { .. }, Event::Exited(ok)) => if ok {
            (Phase::Succeeded, None)
        } else {
            (Phase::Failed(CellError::BuildFailed), None)
        },
        (Phase::Polling { drained }, Event::Running) => if drained {
            (Phase::Polling { drained: true }, None)
        } else {
            (Phase::Reading, None)
        },
        (Phase::Polling { drained }, Event::PollFailed) => if drained {
            (Phase::Polling { drained: true }, None)
        } else {
            (Phase::Reading, None)
        },
        (p, _) => (p, None),
    }
}

} // verus!
