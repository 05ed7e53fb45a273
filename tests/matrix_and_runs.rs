use cccl_composer::axes::AppConfig;
use cccl_composer::cells::Cell;
use cccl_composer::matrix::{status_glyph, BuildResult};
use cccl_composer::runner::{
    advance, build_arguments, build_dir, configure_arguments, Action, CellError, Event, Phase,
};
use cccl_composer::sweep::{Selection, SetupError, Sweep};

fn s(x: &str) -> String {
    x.to_string()
}

fn strings(xs: &[&str]) -> Vec<String> {
    xs.iter().map(|x| x.to_string()).collect()
}

fn pairs(xs: &[(&str, &str)]) -> Vec<(String, String)> {
    xs.iter().map(|(a, b)| (a.to_string(), b.to_string())).collect()
}

fn sample_config() -> AppConfig {
    AppConfig::new(
        pairs(&[("cub", "/src/cub"), ("thrust", "/src/thrust")]),
        pairs(&[("gcc-12", "/usr/bin/g++-12"), ("nvhpc-22", "/opt/nvhpc/nvc++")]),
        pairs(&[("11.8", "/usr/local/cuda-11.8"), ("12.0", "/usr/local/cuda-12.0/")]),
    )
}

fn cell(build_type: &str, ctk: &str, compiler: &str, dialect: &str, target: &str) -> Cell {
    Cell {
        build_type: s(build_type),
        ctk: s(ctk),
        compiler: s(compiler),
        dialect: s(dialect),
        target: s(target),
    }
}

fn small_matrix() -> BuildResult {
    BuildResult::new(
        &strings(&["debug", "release"]),
        &strings(&["11.8"]),
        &strings(&["14", "17"]),
        &strings(&["gcc", "clang"]),
    )
}

const ALL_LEAVES: [(&str, &str, &str, &str); 8] = [
    ("debug", "11.8", "14", "gcc"),
    ("debug", "11.8", "14", "clang"),
    ("debug", "11.8", "17", "gcc"),
    ("debug", "11.8", "17", "clang"),
    ("release", "11.8", "14", "gcc"),
    ("release", "11.8", "14", "clang"),
    ("release", "11.8", "17", "gcc"),
    ("release", "11.8", "17", "clang"),
];

fn status_of(m: &BuildResult, leaf: (&str, &str, &str, &str)) -> bool {
    m.status(&s(leaf.0), &s(leaf.1), &s(leaf.2), &s(leaf.3))
}

fn mark(m: &mut BuildResult, leaf: (&str, &str, &str, &str)) {
    m.success(&s(leaf.0), &s(leaf.1), &s(leaf.2), &s(leaf.3));
}

#[test]
fn fresh_matrix_has_every_leaf_failed() {
    let m = small_matrix();
    for leaf in ALL_LEAVES {
        assert!(!status_of(&m, leaf));
    }
}

#[test]
fn success_sets_one_leaf_only() {
    let mut m = small_matrix();
    let chosen = ("release", "11.8", "14", "clang");
    mark(&mut m, chosen);
    for leaf in ALL_LEAVES {
        assert_eq!(status_of(&m, leaf), leaf == chosen);
    }
    mark(&mut m, chosen);
    assert!(status_of(&m, chosen));
}

#[test]
fn matrix_with_repeated_axis_label() {
    let mut m = BuildResult::new(
        &strings(&["debug"]),
        &strings(&["11.8", "11.8"]),
        &strings(&["17"]),
        &strings(&["gcc"]),
    );
    assert!(!status_of(&m, ("debug", "11.8", "17", "gcc")));
    mark(&mut m, ("debug", "11.8", "17", "gcc"));
    assert!(status_of(&m, ("debug", "11.8", "17", "gcc")));
}

#[test]
fn marking_many_cells_loses_no_update() {
    // more cells than a machine of 4 CPUs runs at once, completed out of order
    let mut m = small_matrix();
    let order = [5usize, 0, 7, 2, 6, 1, 4, 3];
    for (n, &i) in order.iter().enumerate() {
        mark(&mut m, ALL_LEAVES[i]);
        for (j, leaf) in ALL_LEAVES.iter().enumerate() {
            assert_eq!(status_of(&m, *leaf), order[..=n].contains(&j));
        }
    }
    for leaf in ALL_LEAVES {
        assert!(status_of(&m, leaf));
    }
}

#[test]
fn marking_order_does_not_change_the_result() {
    let mut a = small_matrix();
    let mut b = small_matrix();
    for i in [1usize, 4, 6] {
        mark(&mut a, ALL_LEAVES[i]);
    }
    for i in [6usize, 1, 4, 1] {
        mark(&mut b, ALL_LEAVES[i]);
    }
    for leaf in ALL_LEAVES {
        assert_eq!(status_of(&a, leaf), status_of(&b, leaf));
    }
}

#[test]
fn glyphs_for_outcomes() {
    assert_eq!(status_glyph(true), "✓");
    assert_eq!(status_glyph(false), "✗");
}

#[test]
fn compiler_rows_show_each_toolchain() {
    let mut m = small_matrix();
    mark(&mut m, ("debug", "11.8", "17", "clang"));
    let rows = m.compiler_rows(&s("debug"), &s("11.8"), &s("17"));
    assert_eq!(rows, vec![(s("gcc"), s("✗")), (s("clang"), s("✓"))]);
}

#[test]
fn build_directory_layout() {
    let c = cell("debug", "12.0", "gcc-12", "17", "");
    assert_eq!(build_dir(&s("/work"), &c), "/work/build/12.0/debug/gcc-12/17");
    assert_eq!(build_dir(&s("/work/"), &c), "/work/build/12.0/debug/gcc-12/17");
}

#[test]
fn configure_arguments_with_sdk_compiler() {
    let config = sample_config();
    let c = cell("release", "12.0", "gcc-12", "14", "");
    let args = configure_arguments(&config, &c, &s("/b")).unwrap();
    let expected = strings(&[
        "-GNinja",
        "-B/b",
        "-DCMAKE_BUILD_TYPE=release",
        "-DCUB_DISABLE_ARCH_BY_DEFAULT=ON",
        "-DCUB_ENABLE_COMPUTE_80=ON",
        "-DCUB_IGNORE_DEPRECATED_CPP_DIALECT=ON",
        "-DCMAKE_EXPORT_COMPILE_COMMANDS=ON",
        "-DCMAKE_CUDA_COMPILER=/usr/local/cuda-12.0/bin/nvcc",
        "-DCMAKE_CXX_COMPILER=/usr/bin/g++-12",
        "-DCUB_ENABLE_DIALECT_CPP11=OFF",
        "-DCUB_ENABLE_DIALECT_CPP14=ON",
        "-DCUB_ENABLE_DIALECT_CPP17=OFF",
        "-DThrust_DIR=/src/thrust/thrust/cmake",
        "-DCUB_ENABLE_TESTS_WITH_RDC=OFF",
        "/src/cub",
    ]);
    assert_eq!(args, expected);
}

#[test]
fn configure_arguments_with_nvhpc() {
    let config = sample_config();
    let c = cell("debug", "unknown-sdk", "nvhpc-22", "17", "");
    let args = configure_arguments(&config, &c, &s("/b")).unwrap();
    assert_eq!(args[7], "-DCMAKE_CUDA_COMPILER_FORCED=ON");
    assert_eq!(args[8], "-DCMAKE_CUDA_COMPILER=/opt/nvhpc/nvc++");
    assert_eq!(args[9], "-DCMAKE_CUDA_COMPILER_ID=NVCXX");
    assert_eq!(args[12], "-DCUB_ENABLE_DIALECT_CPP17=ON");
    assert_eq!(args.len(), 16);
}

#[test]
fn configure_arguments_need_every_path() {
    let config = sample_config();
    assert!(configure_arguments(&config, &cell("debug", "11.8", "icc", "17", ""), &s("/b")).is_none());
    assert!(configure_arguments(&config, &cell("debug", "10.2", "gcc-12", "17", ""), &s("/b")).is_none());
    let no_sources = AppConfig::new(
        pairs(&[("cub", "/src/cub")]),
        pairs(&[("gcc-12", "/usr/bin/g++-12")]),
        pairs(&[("11.8", "/cuda")]),
    );
    assert!(configure_arguments(&no_sources, &cell("debug", "11.8", "gcc-12", "17", ""), &s("/b")).is_none());
}

#[test]
fn build_arguments_with_and_without_target() {
    let plain = cell("debug", "11.8", "gcc-12", "17", "");
    assert_eq!(build_arguments(&plain, &s("/b"), 4), strings(&["-C/b", "-j4"]));
    let targeted = cell("debug", "11.8", "gcc-12", "17", "cub.cpp17.test.scan");
    assert_eq!(
        build_arguments(&targeted, &s("/b"), 16),
        strings(&["-C/b", "-j16", "cub.cpp17.test.scan"])
    );
}

#[test]
fn run_succeeds_through_build_exit() {
    let mut phase = Phase::start();
    assert_eq!(phase.action(), Action::RunConfigure);
    let (p, u) = advance(phase, Event::Configured(true));
    assert_eq!((p, u), (Phase::Spawning, None));
    phase = p;
    assert_eq!(phase.action(), Action::SpawnBuild);
    phase = advance(phase, Event::Spawned(true)).0;
    assert_eq!(phase.action(), Action::ReadLine);
    let (p, u) = advance(phase, Event::Line(s("[1/2] Building a.o")));
    assert_eq!((p, u), (Phase::Polling { drained: false }, Some((1, 2))));
    assert_eq!(p.action(), Action::Poll);
    phase = advance(p, Event::Running).0;
    assert_eq!(phase, Phase::Reading);
    let (p, u) = advance(phase, Event::Line(s("warning: unused variable")));
    assert_eq!(u, None);
    phase = advance(p, Event::PollFailed).0;
    assert_eq!(phase, Phase::Reading);
    phase = advance(phase, Event::EndOfOutput).0;
    assert_eq!(phase, Phase::Polling { drained: true });
    assert_eq!(phase.action(), Action::PauseThenPoll);
    phase = advance(phase, Event::Running).0;
    assert_eq!(phase, Phase::Polling { drained: true });
    phase = advance(phase, Event::Exited(true)).0;
    assert_eq!(phase, Phase::Succeeded);
    assert_eq!(phase.action(), Action::Stop);
    assert_eq!(phase.outcome(), Some(Ok(())));
}

#[test]
fn run_failures() {
    let failed_configure = advance(Phase::Configuring, Event::Configured(false)).0;
    assert_eq!(failed_configure.outcome(), Some(Err(CellError::ConfigureFailed)));
    let failed_spawn = advance(Phase::Spawning, Event::Spawned(false)).0;
    assert_eq!(failed_spawn.outcome(), Some(Err(CellError::BuildFailed)));
    let failed_read = advance(Phase::Reading, Event::ReadFailed).0;
    assert_eq!(failed_read.outcome(), Some(Err(CellError::StreamReadError)));
    let failed_build = advance(Phase::Polling { drained: false }, Event::Exited(false)).0;
    assert_eq!(failed_build.outcome(), Some(Err(CellError::BuildFailed)));
    assert_eq!(Phase::Reading.outcome(), None);
}

#[test]
fn unexpected_events_change_nothing() {
    assert_eq!(advance(Phase::Configuring, Event::Exited(true)).0, Phase::Configuring);
    assert_eq!(advance(Phase::Succeeded, Event::Configured(false)).0, Phase::Succeeded);
    assert_eq!(
        advance(Phase::Failed(CellError::BuildFailed), Event::Exited(true)).0,
        Phase::Failed(CellError::BuildFailed)
    );
    assert_eq!(advance(Phase::Polling { drained: false }, Event::Line(s("[1/2]"))), (Phase::Polling { drained: false }, None));
}

fn drive(script: Vec<Event>) -> Phase {
    let mut phase = Phase::start();
    for event in script {
        phase = advance(phase, event).0;
    }
    phase
}

#[test]
fn two_toolchain_sweep_end_to_end() {
    let config = sample_config();
    let selection = Selection {
        compilers: Some(strings(&["gcc-12", "nvhpc-22"])),
        types: Some(strings(&["debug"])),
        ctks: Some(strings(&["11.8"])),
        dialects: Some(strings(&["17"])),
        targets: None,
    };
    let sweep = Sweep::plan(&config, selection, 8).unwrap();
    assert_eq!(sweep.cells.len(), 2);
    assert_eq!((sweep.concurrency, sweep.threads_per_cell), (2, 4));
    let mut results = sweep.new_results();
    for c in &sweep.cells {
        let script = if c.compiler == "gcc-12" {
            vec![Event::Configured(false)]
        } else {
            vec![
                Event::Configured(true),
                Event::Spawned(true),
                Event::Line(s("[1/1] Linking")),
                Event::Exited(true),
            ]
        };
        if drive(script) == Phase::Succeeded {
            results.success(&c.build_type, &c.ctk, &c.dialect, &c.compiler);
        }
    }
    assert!(!results.status(&s("debug"), &s("11.8"), &s("17"), &s("gcc-12")));
    assert!(results.status(&s("debug"), &s("11.8"), &s("17"), &s("nvhpc-22")));
    let rows = results.compiler_rows(&s("debug"), &s("11.8"), &s("17"));
    assert_eq!(rows, vec![(s("gcc-12"), s("✗")), (s("nvhpc-22"), s("✓"))]);
}

#[test]
fn plan_with_defaults() {
    let config = sample_config();
    let selection = Selection { compilers: None, types: None, ctks: None, dialects: None, targets: None };
    let sweep = Sweep::plan(&config, selection, 4).unwrap();
    assert_eq!(sweep.cells.len(), 2 * 2 * 2 * 3);
    assert_eq!((sweep.concurrency, sweep.threads_per_cell), (4, 1));
    assert_eq!(sweep.targets.get(&s("14")), Some(&s("")));
}

#[test]
fn plan_rejects_an_empty_axis() {
    let config = sample_config();
    let selection = Selection {
        compilers: None,
        types: Some(Vec::new()),
        ctks: None,
        dialects: None,
        targets: None,
    };
    assert_eq!(Sweep::plan(&config, selection, 4).err(), Some(SetupError::EmptyAxis));
    let unconfigured = AppConfig::new(Vec::new(), Vec::new(), Vec::new());
    let selection = Selection { compilers: None, types: None, ctks: None, dialects: None, targets: None };
    assert_eq!(Sweep::plan(&unconfigured, selection, 4).err(), Some(SetupError::EmptyAxis));
}

#[test]
fn plan_rejects_too_many_cells() {
    let config = sample_config();
    let many: Vec<String> = (0..70_000).map(|i| i.to_string()).collect();
    let selection = Selection {
        compilers: Some(many.clone()),
        types: Some(many.clone()),
        ctks: Some(many.clone()),
        dialects: Some(many),
        targets: None,
    };
    assert_eq!(Sweep::plan(&config, selection, 4).err(), Some(SetupError::TooManyCells));
}
