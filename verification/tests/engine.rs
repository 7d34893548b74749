use weighing::engine::{
    elapsed_between, BenchmarkError, BenchmarkResult, BenchmarkingSetup, Case, Environment,
    Registry,
};
use weighing::model::{assignment_value, components_valid, Component, ParameterId};

/// The invocation a test case builds: just the number of assignment entries
/// it was handed.
struct Op(u32);

/// A deterministic environment double that counts every store and clock
/// interaction; the clock advances by one unit per reading.
struct CountingEnv {
    commits: u32,
    wipes: u32,
    ticks: u128,
    executed: u32,
    fail_execute: bool,
}

impl CountingEnv {
    fn new() -> CountingEnv {
        CountingEnv { commits: 0, wipes: 0, ticks: 0, executed: 0, fail_execute: false }
    }
}

impl Environment<Op> for CountingEnv {
    fn commit(&mut self) {
        self.commits += 1;
    }
    fn wipe(&mut self) {
        self.wipes += 1;
    }
    fn now(&mut self) -> u128 {
        self.ticks += 1;
        self.ticks
    }
    fn execute(&mut self, _invocation: Op) -> Result<(), &'static str> {
        if self.fail_execute {
            Err("dispatch failed")
        } else {
            self.executed += 1;
            Ok(())
        }
    }
}

/// A setup procedure that always succeeds.
struct OkSetup;

impl BenchmarkingSetup<Op, CountingEnv> for OkSetup {
    fn instance(
        &self,
        _env: &mut CountingEnv,
        assignment: &Vec<(ParameterId, u32)>,
    ) -> Result<Op, &'static str> {
        Ok(Op(assignment.len() as u32))
    }
}

/// A setup procedure that always fails.
struct FailSetup;

impl BenchmarkingSetup<Op, CountingEnv> for FailSetup {
    fn instance(
        &self,
        _env: &mut CountingEnv,
        _assignment: &Vec<(ParameterId, u32)>,
    ) -> Result<Op, &'static str> {
        Err("setup failed")
    }
}

fn component(id: u32, low: u32, high: u32) -> Component {
    Component { id: ParameterId(id), low, high }
}

fn assignments(results: &Vec<BenchmarkResult>) -> Vec<Vec<(u32, u32)>> {
    results
        .iter()
        .map(|r| r.assignment.iter().map(|(p, v)| (p.0, *v)).collect())
        .collect()
}

#[test]
fn component_declarations_are_validated() {
    assert!(components_valid(&vec![component(0, 0, 10), component(1, 5, 5)]));
    // an inverted range
    assert!(!components_valid(&vec![component(0, 5, 4)]));
    // a repeated identifier
    assert!(!components_valid(&vec![component(0, 0, 10), component(0, 0, 3)]));
}

#[test]
fn unknown_name_yields_unknown_benchmark_and_touches_nothing() {
    let reg: Registry<OkSetup> = Registry::new();
    let mut env = CountingEnv::new();
    let r = reg.run::<Op, _>(&mut env, "missing", 2, 1);
    assert_eq!(r, Err(BenchmarkError::UnknownBenchmark));
    assert_eq!(env.commits, 0);
    assert_eq!(env.wipes, 0);
    assert_eq!(env.ticks, 0);
    assert_eq!(env.executed, 0);
}

#[test]
fn two_component_midpoint_sweep() {
    let mut reg: Registry<OkSetup> = Registry::new();
    reg.register(
        "pair".to_owned(),
        Case::new(vec![component(0, 0, 10), component(1, 0, 10)], OkSetup),
    );
    let mut env = CountingEnv::new();
    let results = reg.run::<Op, _>(&mut env, "pair", 2, 1).unwrap();
    let rows = assignments(&results);
    assert_eq!(
        rows,
        vec![
            // sweeping component 0, component 1 frozen at its midpoint 5
            vec![(0, 0), (1, 5)],
            vec![(0, 5), (1, 5)],
            // sweeping component 1, component 0 frozen at its midpoint 5
            vec![(0, 5), (1, 0)],
            vec![(0, 5), (1, 5)],
        ]
    );
}

#[test]
fn row_count_is_num_steps_times_repeat() {
    let mut reg: Registry<OkSetup> = Registry::new();
    reg.register("single".to_owned(), Case::new(vec![component(7, 0, 10)], OkSetup));
    let mut env = CountingEnv::new();
    let results = reg.run::<Op, _>(&mut env, "single", 5, 3).unwrap();
    // step_size = 10 / 5 = 2, num_steps = 10 / 2 = 5, repeat = 3.
    assert_eq!(results.len(), 15);
    let rows = assignments(&results);
    let mut expected: Vec<Vec<(u32, u32)>> = Vec::new();
    for s in 0..5u32 {
        for _ in 0..3 {
            expected.push(vec![(7, 2 * s)]);
        }
    }
    assert_eq!(rows, expected);
    // The store is reset once up front and isolated around each of the runs.
    assert_eq!(env.commits, 1 + 15);
    assert_eq!(env.wipes, 1 + 15);
    assert_eq!(env.executed, 15);
}

#[test]
fn zero_width_range_runs_no_step() {
    let mut reg: Registry<OkSetup> = Registry::new();
    reg.register("flat".to_owned(), Case::new(vec![component(0, 7, 7)], OkSetup));
    let mut env = CountingEnv::new();
    let results = reg.run::<Op, _>(&mut env, "flat", 3, 2).unwrap();
    assert_eq!(results.len(), 0);
    assert_eq!(env.executed, 0);
}

#[test]
fn narrow_range_clamps_step_size_to_one() {
    let mut reg: Registry<OkSetup> = Registry::new();
    reg.register("narrow".to_owned(), Case::new(vec![component(0, 0, 3)], OkSetup));
    let mut env = CountingEnv::new();
    let results = reg.run::<Op, _>(&mut env, "narrow", 10, 1).unwrap();
    // 3 / 10 would be zero; the step size is clamped to one.
    let rows = assignments(&results);
    assert_eq!(rows, vec![vec![(0, 0)], vec![(0, 1)], vec![(0, 2)]]);
}

#[test]
fn identical_sweeps_produce_identical_assignments() {
    let mut reg: Registry<OkSetup> = Registry::new();
    reg.register(
        "pair".to_owned(),
        Case::new(vec![component(0, 0, 100), component(1, 3, 31)], OkSetup),
    );
    let mut env1 = CountingEnv::new();
    env1.ticks = 1000; // a different clock state must not matter
    let first = reg.run::<Op, _>(&mut env1, "pair", 7, 2).unwrap();
    let mut env2 = CountingEnv::new();
    let second = reg.run::<Op, _>(&mut env2, "pair", 7, 2).unwrap();
    assert_eq!(assignments(&first), assignments(&second));
}

#[test]
fn assignment_value_reads_the_declared_parameter() {
    let a = vec![(ParameterId(3), 7u32), (ParameterId(5), 9u32)];
    assert_eq!(assignment_value(&a, ParameterId(3)), Some(7));
    assert_eq!(assignment_value(&a, ParameterId(5)), Some(9));
    assert_eq!(assignment_value(&a, ParameterId(8)), None);
}

#[test]
fn elapsed_clamps_a_backward_clock_to_zero() {
    assert_eq!(elapsed_between(5, 9), 4);
    assert_eq!(elapsed_between(9, 5), 0);
    assert_eq!(elapsed_between(7, 7), 0);
}

#[test]
fn an_empty_sweep_succeeds_without_consulting_the_setup() {
    let mut reg: Registry<FailSetup> = Registry::new();
    reg.register(
        "flat".to_owned(),
        Case::new(vec![component(0, 7, 7), component(1, 2, 2)], FailSetup),
    );
    let mut env = CountingEnv::new();
    // Every component is zero-width: no instancer can run, so even a setup
    // that always fails cannot fail the sweep.
    let results = reg.run::<Op, _>(&mut env, "flat", 3, 2).unwrap();
    assert_eq!(results.len(), 0);
    assert_eq!(env.executed, 0);
}

#[test]
fn failing_setup_aborts_with_setup_failure() {
    let mut reg: Registry<FailSetup> = Registry::new();
    reg.register("doomed".to_owned(), Case::new(vec![component(0, 0, 10)], FailSetup));
    let mut env = CountingEnv::new();
    let r = reg.run::<Op, _>(&mut env, "doomed", 2, 1);
    // The sweep is discarded whole: an error, never a partial row list.
    assert_eq!(r, Err(BenchmarkError::SetupFailure("setup failed")));
    assert_eq!(env.executed, 0);
}

#[test]
fn failing_dispatch_aborts_with_dispatch_failure() {
    let mut reg: Registry<OkSetup> = Registry::new();
    reg.register("hot".to_owned(), Case::new(vec![component(0, 0, 10)], OkSetup));
    let mut env = CountingEnv::new();
    env.fail_execute = true;
    let r = reg.run::<Op, _>(&mut env, "hot", 2, 1);
    assert_eq!(r, Err(BenchmarkError::DispatchFailure("dispatch failed")));
}

#[test]
fn elapsed_covers_exactly_the_dispatch_window() {
    let mut reg: Registry<OkSetup> = Registry::new();
    reg.register("timed".to_owned(), Case::new(vec![component(0, 0, 4)], OkSetup));
    let mut env = CountingEnv::new();
    let results = reg.run::<Op, _>(&mut env, "timed", 2, 2).unwrap();
    // The clock ticks once per reading, and is read exactly twice per run,
    // immediately around the dispatch: every elapsed time is one unit.
    assert_eq!(results.len(), 4);
    for r in &results {
        assert_eq!(r.elapsed, 1);
    }
}

#[test]
fn lookup_selects_the_case_registered_under_the_name() {
    let mut reg: Registry<OkSetup> = Registry::new();
    reg.register("small".to_owned(), Case::new(vec![component(0, 0, 4)], OkSetup));
    reg.register("large".to_owned(), Case::new(vec![component(1, 0, 8)], OkSetup));
    let mut env = CountingEnv::new();
    let small = reg.run::<Op, _>(&mut env, "small", 2, 1).unwrap();
    let large = reg.run::<Op, _>(&mut env, "large", 2, 1).unwrap();
    assert_eq!(assignments(&small), vec![vec![(0, 0)], vec![(0, 2)]]);
    assert_eq!(assignments(&large), vec![vec![(1, 0)], vec![(1, 4)]]);
}
