//! The sweep executor: benchmark cases, the case registry, and the engine
//! that measures one named case over its declared parameter space.

use vstd::prelude::*;
use crate::model::{
    assignment_spec, build_assignment, component_rows, components_wf, lemma_sweep_rows_nonempty,
    num_steps, num_steps_spec, repeat_rows, rows_upto, steps_rows, sweep_rows, value_at,
    Component, ParameterId,
};

verus! {

/// Why a sweep ended without results.
#[derive(Clone, Copy, PartialEq, Eq, Debug)]
pub enum BenchmarkError {
    /// No case is registered under the requested name.
    UnknownBenchmark,
    /// An instancer or the build step failed while preparing an invocation;
    /// the whole sweep is discarded.
    SetupFailure(&'static str),
    /// The operation itself failed during timed execution; the whole sweep
    /// is discarded.
    DispatchFailure(&'static str),
}

/// One measured run: the assignment it ran under and the elapsed wall-clock
/// time the dispatcher took.
#[derive(Clone, PartialEq, Eq, Debug)]
pub struct BenchmarkResult {
    /// One value per declared component, in declaration order.
    pub assignment: Vec<(ParameterId, u32)>,
    /// Elapsed time of the dispatched execution, in clock units.
    pub elapsed: u128,
}

/// The assignment of each result, in execution order.
pub open spec fn assignments_of(rs: Seq<BenchmarkResult>) -> Seq<Seq<(ParameterId, u32)>> {
    rs.map_values(|r: BenchmarkResult| r.assignment@)
}

proof fn lemma_assignments_push(rs: Seq<BenchmarkResult>, r: BenchmarkResult)
    ensures
        assignments_of(rs.push(r)) == assignments_of(rs).push(r.assignment@),
{
    assert(assignments_of(rs.push(r)) =~= assignments_of(rs).push(r.assignment@));
}

/// The backing store, the clock and the dispatcher that a sweep drives.
/// These are external collaborators: the engine assumes nothing of them
/// beyond their signatures, and every result it returns holds whatever
/// they did.
pub trait Environment<I> {
    /// Flush pending writes and drop read caches.
    fn commit(&mut self);

    /// Restore the store to its clean baseline state.
    fn wipe(&mut self);

    /// Read the wall clock, in an arbitrary but fixed unit.
    fn now(&mut self) -> u128;

    /// Execute the invocation under its calling identity; a failure aborts
    /// the sweep.
    fn execute(&mut self, invocation: I) -> Result<(), &'static str>;
}

/// The setup side of one benchmark case, implemented by its declarer: given
/// one concrete value per declared component, it runs the pre-block, then
/// each referenced instancer in declaration order, and builds the invocation
/// to be timed. It may populate shared state through the environment, and it
/// may fail with a descriptive reason.
pub trait BenchmarkingSetup<I, E> {
    /// Materializes one invocation for the given assignment.
    fn instance(&self, env: &mut E, assignment: &Vec<(ParameterId, u32)>) -> Result<
        I,
        &'static str,
    >;
}

/// Folds the outcome of a case's instancing step into the sweep's error
/// taxonomy: any failure becomes a terminal `SetupFailure` carrying the
/// instancer's reason.
pub fn setup_outcome<I>(outcome: Result<I, &'static str>) -> (r: Result<I, BenchmarkError>)
    ensures
        r == match outcome {
            Ok(i) => Ok::<I, BenchmarkError>(i),
            Err(e) => Err::<I, BenchmarkError>(BenchmarkError::SetupFailure(e)),
        },
{
    match outcome {
        Ok(i) => Ok(i),
        Err(e) => Err(BenchmarkError::SetupFailure(e)),
    }
}

/// Folds the outcome of the timed execution into the sweep's error taxonomy:
/// any failure becomes a terminal `DispatchFailure` carrying the reason.
pub fn dispatch_outcome(outcome: Result<(), &'static str>) -> (r: Result<(), BenchmarkError>)
    ensures
        r == match outcome {
            Ok(u) => Ok::<(), BenchmarkError>(u),
            Err(e) => Err::<(), BenchmarkError>(BenchmarkError::DispatchFailure(e)),
        },
{
    match outcome {
        Ok(u) => Ok(u),
        Err(e) => Err(BenchmarkError::DispatchFailure(e)),
    }
}

/// The elapsed time between two clock readings: their difference, or zero
/// when the clock did not advance monotonically — a zero reading in place
/// of a panic.
pub fn elapsed_between(start: u128, finish: u128) -> (r: u128)
    ensures
        r == if finish >= start {
            finish - start
        } else {
            0
        },
{
    if finish >= start {
        finish - start
    } else {
        0
    }
}

/// One benchmark case: its declared components, in declaration order, and
/// its setup procedure.
pub struct Case<S> {
    components: Vec<Component>,
    setup: S,
}

impl<S> Case<S> {
    /// The declared parameter space, in declaration order.
    pub closed spec fn components_spec(&self) -> Seq<Component> {
        self.components@
    }

    /// A case is well formed when its component list is: no inverted range,
    /// no repeated identifier.
    pub open spec fn wf(&self) -> bool {
        components_wf(self.components_spec())
    }

    /// Declares a case. The component list is fixed for the case's lifetime.
    pub fn new(components: Vec<Component>, setup: S) -> (r: Case<S>)
        requires
            components_wf(components@),
        ensures
            r.components_spec() == components@,
            r.wf(),
    {
        Case { components, setup }
    }

    /// The declared components; pure, in declaration order.
    pub fn components(&self) -> (r: &Vec<Component>)
        ensures
            r@ == self.components_spec(),
    {
        &self.components
    }

    /// Materializes one invocation for the given assignment, through the
    /// case's setup procedure.
    pub fn instance<I, E>(&self, env: &mut E, assignment: &Vec<(ParameterId, u32)>) -> Result<
        I,
        &'static str,
    > where S: BenchmarkingSetup<I, E> {
        self.setup.instance(env, assignment)
    }
}

/// Maps each registered name to its benchmark case. Populated once, at
/// initialization, and read-only thereafter.
pub struct Registry<S> {
    entries: Vec<(String, Case<S>)>,
}

impl<S> Registry<S> {
    /// Whether some case is registered under `n`.
    pub closed spec fn contains_name(&self, n: Seq<char>) -> bool {
        exists|i: int|
            0 <= i < self.entries@.len() && (#[trigger] self.entries@[i]).0@ == n
    }

    /// The position of the case registered under `n`.
    pub closed spec fn index_of(&self, n: Seq<char>) -> int {
        choose|i: int| 0 <= i < self.entries@.len() && (#[trigger] self.entries@[i]).0@ == n
    }

    /// The components of the case registered under `n`.
    pub closed spec fn components_for(&self, n: Seq<char>) -> Seq<Component> {
        self.entries@[self.index_of(n)].1.components_spec()
    }

    /// Names are unique and every registered case is well formed.
    pub closed spec fn wf(&self) -> bool {
        &&& forall|i: int, j: int|
            0 <= i < j < self.entries@.len() ==> (#[trigger] self.entries@[i]).0@ != (
            #[trigger] self.entries@[j]).0@
        &&& forall|i: int| 0 <= i < self.entries@.len() ==> (#[trigger] self.entries@[i]).1.wf()
    }

    proof fn lemma_index_of(&self, n: Seq<char>, i: int)
        requires
            self.wf(),
            0 <= i < self.entries@.len(),
            self.entries@[i].0@ == n,
        ensures
            self.contains_name(n),
            self.index_of(n) == i,
    {
        assert(self.contains_name(n));
        let j = self.index_of(n);
        if j < i {
            assert(self.entries@[j].0@ != self.entries@[i].0@);
        } else if j > i {
            assert(self.entries@[i].0@ != self.entries@[j].0@);
        }
    }

    /// An empty registry.
    pub fn new() -> (r: Registry<S>)
        ensures
            r.wf(),
            forall|m: Seq<char>| !r.contains_name(m),
    {
        Registry { entries: Vec::new() }
    }

    /// Registers a case under a fresh name.
    pub fn register(&mut self, name: String, case: Case<S>)
        requires
            old(self).wf(),
            case.wf(),
            !old(self).contains_name(name@),
        ensures
            final(self).wf(),
            final(self).contains_name(name@),
            final(self).components_for(name@) == case.components_spec(),
            forall|m: Seq<char>|
                #[trigger] final(self).contains_name(m) <==> (old(self).contains_name(m) || m
                    == name@),
            forall|m: Seq<char>|
                old(self).contains_name(m) ==> #[trigger] final(self).components_for(m) == old(
                    self,
                ).components_for(m),
    {
        let ghost pre = *self;
        let ghost nm = name@;
        self.entries.push((name, case));
        proof {
            let len = pre.entries@.len();
            assert(self.entries@ == pre.entries@.push((name, case)));
            assert(self.entries@[len as int].0@ == nm);
            assert forall|i: int, j: int| 0 <= i < j < self.entries@.len() implies (
            self.entries@[i]).0@ != (self.entries@[j]).0@ by {
                if j < len {
                    assert(pre.entries@[i].0@ != pre.entries@[j].0@);
                } else {
                    assert(self.entries@[i] == pre.entries@[i]);
                    if self.entries@[i].0@ == nm {
                        assert(pre.contains_name(nm));
                    }
                }
            }
            assert forall|i: int| 0 <= i < self.entries@.len() implies (
            self.entries@[i]).1.wf() by {
                if i < len {
                    assert(pre.entries@[i].1.wf());
                }
            }
            self.lemma_index_of(nm, len as int);
            assert forall|m: Seq<char>|
                #[trigger] self.contains_name(m) <==> (pre.contains_name(m) || m == nm) by {
                if self.contains_name(m) {
                    let i = choose|i: int|
                        0 <= i < self.entries@.len() && (#[trigger] self.entries@[i]).0@ == m;
                    if i < len {
                        assert(pre.entries@[i].0@ == m);
                        assert(pre.contains_name(m));
                    }
                }
                if pre.contains_name(m) {
                    let i = choose|i: int|
                        0 <= i < pre.entries@.len() && (#[trigger] pre.entries@[i]).0@ == m;
                    assert(self.entries@[i].0@ == m);
                    assert(self.contains_name(m));
                }
            }
            assert forall|m: Seq<char>| pre.contains_name(m) implies #[trigger] self.components_for(
                m,
            ) == pre.components_for(m) by {
                let i = pre.index_of(m);
                assert(pre.entries@[i].0@ == m);
                assert(self.entries@[i].0@ == m);
                self.lemma_index_of(m, i);
            }
        }
    }

    /// Resolves a case by name; pure.
    pub fn lookup(&self, name: &str) -> (r: Option<&Case<S>>)
        requires
            self.wf(),
        ensures
            match r {
                Some(c) => self.contains_name(name@) && c.wf() && c.components_spec()
                    == self.components_for(name@),
                None => !self.contains_name(name@),
            },
    {
        let needle: String = name.to_owned();
        let n = self.entries.len();
        let mut i: usize = 0;
        while i < n
            invariant
                i <= n,
                n == self.entries@.len(),
                self.wf(),
                needle@ == name@,
                forall|j: int| 0 <= j < i ==> (#[trigger] self.entries@[j]).0@ != name@,
            decreases n - i,
        {
            let e = &self.entries[i];
            if e.0 == needle {
                proof {
                    self.lemma_index_of(name@, i as int);
                }
                return Some(&e.1);
            }
            i += 1;
        }
        None
    }

    /// Measures the case registered under `name` over its whole parameter
    /// space: each component is swept independently in declaration order,
    /// the others frozen at their midpoints; each visited value is prepared,
    /// dispatched and timed `repeat` times, the backing store isolated
    /// around every run. The rows come back in execution order, one per run,
    /// and their assignments are exactly `sweep_rows` of the case's
    /// components: a function of the inputs alone. An unknown name is
    /// reported before the backing store is touched; any setup or dispatch
    /// failure discards the sweep in place of a partial result list. A
    /// failure can only come out of the setup and dispatch calls, so a
    /// registered case whose sweep visits no value at all — every component
    /// zero-width — is owed success, with no rows.
    #[verifier::loop_isolation(false)]
    pub fn run<I, E>(&self, env: &mut E, name: &str, steps: u32, repeat: u32) -> (r: Result<
        Vec<BenchmarkResult>,
        BenchmarkError,
    >) where S: BenchmarkingSetup<I, E>, E: Environment<I>
        requires
            self.wf(),
            steps >= 1,
            repeat >= 1,
        ensures
            !self.contains_name(name@) <==> r == Err::<Vec<BenchmarkResult>, BenchmarkError>(
                BenchmarkError::UnknownBenchmark,
            ),
            !self.contains_name(name@) ==> *final(env) == *old(env),
            r matches Ok(results) ==> assignments_of(results@) == sweep_rows(
                self.components_for(name@),
                steps,
                repeat,
            ),
            self.contains_name(name@) && sweep_rows(self.components_for(name@), steps, repeat).len()
                == 0 ==> r is Ok,
    {
        let case = match self.lookup(name) {
            Some(c) => c,
            None => {
                return Err(BenchmarkError::UnknownBenchmark);
            },
        };
        // Reset the store to its clean baseline once, before any measurement.
        env.commit();
        env.wipe();
        let components = case.components();
        let ghost cs = components@;
        let mut results: Vec<BenchmarkResult> = Vec::new();
        let n = components.len();
        let mut t: usize = 0;
        while t < n
            invariant
                t <= n,
                assignments_of(results@) == rows_upto(cs, steps, repeat, t as int),
            decreases n - t,
        {
            let c = components[t];
            let ns = num_steps(&c, steps);
            let mut s: u32 = 0;
            proof {
                assert(assignments_of(results@) =~= rows_upto(cs, steps, repeat, t as int)
                    + steps_rows(cs, t as int, steps, repeat, 0));
            }
            while s < ns
                invariant
                    s <= ns,
                    assignments_of(results@) == rows_upto(cs, steps, repeat, t as int)
                        + steps_rows(cs, t as int, steps, repeat, s as int),
                decreases ns - s,
            {
                let v = value_at(&c, steps, s);
                let assignment = build_assignment(components, t, v);
                let ghost a = assignment_spec(cs, t as int, v);
                let mut k: u32 = 0;
                proof {
                    assert(assignments_of(results@) =~= rows_upto(cs, steps, repeat, t as int)
                        + steps_rows(cs, t as int, steps, repeat, s as int) + repeat_rows(a, 0));
                }
                while k < repeat
                    invariant
                        k <= repeat,
                        assignments_of(results@) == rows_upto(cs, steps, repeat, t as int)
                            + steps_rows(cs, t as int, steps, repeat, s as int) + repeat_rows(
                            a,
                            k as int,
                        ),
                    decreases repeat - k,
                {
                    // Build the invocation for this assignment; a failure is
                    // terminal for the whole sweep.
                    let invocation = match setup_outcome(case.instance(env, &assignment)) {
                        Ok(i) => i,
                        Err(err) => {
                            proof {
                                lemma_sweep_rows_nonempty(cs, steps, repeat, t as int);
                            }
                            return Err(err);
                        },
                    };
                    // Flush the store so the timed run pays the full
                    // cold-read cost.
                    env.commit();
                    let start = env.now();
                    match dispatch_outcome(env.execute(invocation)) {
                        Ok(_) => {},
                        Err(err) => {
                            proof {
                                lemma_sweep_rows_nonempty(cs, steps, repeat, t as int);
                            }
                            return Err(err);
                        },
                    }
                    let finish = env.now();
                    let elapsed = elapsed_between(start, finish);
                    let row = build_assignment(components, t, v);
                    let entry = BenchmarkResult { assignment: row, elapsed };
                    let ghost pre_results = results@;
                    let ghost ge = entry;
                    results.push(entry);
                    // Wipe the store back to its baseline before the next run.
                    env.wipe();
                    proof {
                        assert(results@ == pre_results.push(ge));
                        lemma_assignments_push(pre_results, ge);
                        assert(ge.assignment@ == a);
                        assert(repeat_rows(a, k as int + 1) == repeat_rows(a, k as int).push(a));
                        assert(assignments_of(results@) =~= rows_upto(cs, steps, repeat, t as int)
                            + steps_rows(cs, t as int, steps, repeat, s as int) + repeat_rows(
                            a,
                            k as int + 1,
                        ));
                    }
                    k += 1;
                }
                proof {
                    assert(steps_rows(cs, t as int, steps, repeat, s as int + 1) == steps_rows(
                        cs,
                        t as int,
                        steps,
                        repeat,
                        s as int,
                    ) + repeat_rows(a, repeat as int));
                    assert(assignments_of(results@) =~= rows_upto(cs, steps, repeat, t as int)
                        + steps_rows(cs, t as int, steps, repeat, s as int + 1));
                }
                s += 1;
            }
            proof {
                assert(component_rows(cs, t as int, steps, repeat) == steps_rows(
                    cs,
                    t as int,
                    steps,
                    repeat,
                    num_steps_spec(cs[t as int], steps),
                ));
                assert(rows_upto(cs, steps, repeat, t as int + 1) == rows_upto(
                    cs,
                    steps,
                    repeat,
                    t as int,
                ) + component_rows(cs, t as int, steps, repeat));
                assert(assignments_of(results@) == rows_upto(cs, steps, repeat, t as int + 1));
            }
            t += 1;
        }
        Ok(results)
    }
}

} // verus!
