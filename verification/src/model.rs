//! The mathematical model of a sweep: components, step sizes, assignments,
//! and the exact sequence of assignments a sweep produces.

use vstd::prelude::*;

verus! {

/// Identifies one complexity parameter within a benchmark case. Each case
/// draws its identifiers from its own closed set; two components of one case
/// never share an identifier.
#[derive(Clone, Copy, PartialEq, Eq, Structural, Debug)]
pub struct ParameterId(pub u32);

/// One declared complexity parameter: an identifier together with the
/// inclusive-exclusive range `[low, high)` its values are drawn from.
#[derive(Clone, Copy, PartialEq, Eq, Structural, Debug)]
pub struct Component {
    pub id: ParameterId,
    pub low: u32,
    pub high: u32,
}

impl Component {
    /// A component's range is never inverted.
    pub open spec fn wf(self) -> bool {
        self.low <= self.high
    }

    /// The reference point at which a component is frozen while another
    /// component is being swept: the midpoint of its range.
    pub open spec fn mid_spec(self) -> int {
        self.low + (self.high - self.low) / 2
    }

    /// The midpoint lies within the inclusive range `[low, high]`; it can
    /// equal `high` only for a zero-width range.
    pub proof fn lemma_mid_in_range(self)
        requires
            self.wf(),
        ensures
            self.low <= self.mid_spec() <= self.high,
    {
        let w = self.high - self.low;
        assert(0 <= w / 2 <= w) by (nonlinear_arith)
            requires w >= 0;
    }

    /// Executable midpoint computation.
    pub fn mid(&self) -> (r: u32)
        requires
            self.wf(),
        ensures
            r == self.mid_spec(),
    {
        proof {
            self.lemma_mid_in_range();
        }
        (self.high - self.low) / 2 + self.low
    }
}

/// Well-formed component list of one case: every range is well formed and
/// the identifiers are pairwise distinct.
pub open spec fn components_wf(cs: Seq<Component>) -> bool {
    &&& forall|i: int| 0 <= i < cs.len() ==> (#[trigger] cs[i]).wf()
    &&& forall|i: int, j: int| 0 <= i < j < cs.len() ==> cs[i].id != cs[j].id
}

/// Decides the case invariant over a declared component list: every range
/// well formed and the identifiers pairwise distinct. Unverified callers
/// (registration plumbing, test harnesses) can so validate a declaration
/// before handing it to `Case::new`.
#[verifier::loop_isolation(false)]
pub fn components_valid(cs: &Vec<Component>) -> (r: bool)
    ensures
        r == components_wf(cs@),
{
    let n = cs.len();
    let mut i: usize = 0;
    while i < n
        invariant
            i <= n,
            forall|p: int| 0 <= p < i ==> (#[trigger] cs@[p]).wf(),
            forall|p: int, q: int| 0 <= p < i && p < q < cs@.len() ==> cs@[p].id != cs@[q].id,
        decreases n - i,
    {
        let c = cs[i];
        if c.low > c.high {
            return false;
        }
        let mut j: usize = i + 1;
        while j < n
            invariant
                i < j <= n,
                forall|q: int| i < q < j ==> cs@[i as int].id != (#[trigger] cs@[q]).id,
            decreases n - j,
        {
            if cs[j].id == c.id {
                return false;
            }
            j += 1;
        }
        i += 1;
    }
    true
}

/// The width of one sweep step over `c` when `steps` steps are requested:
/// the range width divided by the requested step count, but never below one.
pub open spec fn step_size_spec(c: Component, steps: u32) -> int {
    let raw = (c.high - c.low) / (steps as int);
    if raw >= 1 {
        raw
    } else {
        1
    }
}

/// The number of values actually visited when sweeping `c`.
pub open spec fn num_steps_spec(c: Component, steps: u32) -> int {
    (c.high - c.low) / step_size_spec(c, steps)
}

/// The step width is always at least one, so the step count is computed by a
/// division whose divisor is never the literal zero.
pub proof fn lemma_step_size_at_least_one(c: Component, steps: u32)
    ensures
        step_size_spec(c, steps) >= 1,
{
}

/// A zero-width range is swept with step width one and visits no value at
/// all: its sweep contributes no row.
pub proof fn lemma_zero_width_range(c: Component, steps: u32)
    requires
        c.low == c.high,
        steps >= 1,
    ensures
        step_size_spec(c, steps) == 1,
        num_steps_spec(c, steps) == 0,
{
}

/// The value component `c` takes at sweep step `s`.
pub open spec fn value_spec(c: Component, steps: u32, s: int) -> int {
    c.low + step_size_spec(c, steps) * s
}

/// Every visited value lies in the declared range `[low, high)`.
pub proof fn lemma_value_in_range(c: Component, steps: u32, s: int)
    requires
        c.wf(),
        0 <= s < num_steps_spec(c, steps),
    ensures
        c.low <= value_spec(c, steps, s) < c.high,
{
    let w = c.high - c.low;
    let q = step_size_spec(c, steps);
    let n = num_steps_spec(c, steps);
    assert(q >= 1);
    assert(q * n <= w) by (nonlinear_arith)
        requires
            q >= 1,
            w >= 0,
            n == w / q;
    assert(q * s <= q * (n - 1)) by (nonlinear_arith)
        requires
            q >= 1,
            s <= n - 1;
    assert(q * (n - 1) == q * n - q) by (nonlinear_arith);
    assert(q * s >= 0) by (nonlinear_arith)
        requires
            q >= 1,
            s >= 0;
}

/// Executable step-width computation.
pub fn step_size(c: &Component, steps: u32) -> (r: u32)
    requires
        c.wf(),
        steps >= 1,
    ensures
        r == step_size_spec(*c, steps),
{
    let raw = (c.high - c.low) / steps;
    if raw >= 1 {
        raw
    } else {
        1
    }
}

/// Executable step-count computation.
pub fn num_steps(c: &Component, steps: u32) -> (r: u32)
    requires
        c.wf(),
        steps >= 1,
    ensures
        r == num_steps_spec(*c, steps),
{
    let q = step_size(c, steps);
    (c.high - c.low) / q
}

/// Executable computation of the value visited at step `s`.
pub fn value_at(c: &Component, steps: u32, s: u32) -> (r: u32)
    requires
        c.wf(),
        steps >= 1,
        s < num_steps_spec(*c, steps),
    ensures
        r == value_spec(*c, steps, s as int),
{
    proof {
        lemma_value_in_range(*c, steps, s as int);
    }
    let q = step_size(c, steps);
    c.low + q * s
}

/// One concrete value per component of a case: the assignment used to build
/// one invocation. Entry `j` names component `j` and carries its value.
pub open spec fn assignment_spec(cs: Seq<Component>, t: int, v: u32) -> Seq<(ParameterId, u32)> {
    Seq::new(cs.len(), |j: int| (cs[j].id, if j == t { v } else { cs[j].mid_spec() as u32 }))
}

/// Every assignment a sweep builds names each component exactly once, in
/// declaration order, and gives it a value within its inclusive range
/// `[low, high]`: the swept component stays below `high`, and a frozen
/// midpoint can reach `high` only over a zero-width range.
pub proof fn lemma_assignment_values_in_range(cs: Seq<Component>, t: int, steps: u32, s: int)
    requires
        components_wf(cs),
        0 <= t < cs.len(),
        steps >= 1,
        0 <= s < num_steps_spec(cs[t], steps),
    ensures
        ({
            let a = assignment_spec(cs, t, value_spec(cs[t], steps, s) as u32);
            &&& a.len() == cs.len()
            &&& forall|j: int|
                0 <= j < cs.len() ==> (#[trigger] a[j]).0 == cs[j].id && cs[j].low <= a[j].1
                    <= cs[j].high
        }),
{
    let a = assignment_spec(cs, t, value_spec(cs[t], steps, s) as u32);
    lemma_value_in_range(cs[t], steps, s);
    assert forall|j: int|
        0 <= j < cs.len() implies (#[trigger] a[j]).0 == cs[j].id && cs[j].low <= a[j].1
        <= cs[j].high by {
        if j != t {
            cs[j].lemma_mid_in_range();
        }
    }
}

/// Builds the assignment in which component `t` takes the value `v` and
/// every other component is frozen at its midpoint.
pub fn build_assignment(cs: &Vec<Component>, t: usize, v: u32) -> (r: Vec<(ParameterId, u32)>)
    requires
        components_wf(cs@),
        t < cs@.len(),
    ensures
        r@ == assignment_spec(cs@, t as int, v),
{
    let mut r: Vec<(ParameterId, u32)> = Vec::new();
    let n = cs.len();
    let mut j: usize = 0;
    while j < n
        invariant
            j <= n,
            n == cs@.len(),
            components_wf(cs@),
            t < cs@.len(),
            r@ == assignment_spec(cs@, t as int, v).take(j as int),
        decreases n - j,
    {
        let c = cs[j];
        proof {
            c.lemma_mid_in_range();
        }
        let value = if j == t {
            v
        } else {
            c.mid()
        };
        r.push((c.id, value));
        proof {
            assert(r@ =~= assignment_spec(cs@, t as int, v).take(j + 1));
        }
        j += 1;
    }
    proof {
        assert(assignment_spec(cs@, t as int, v).take(n as int) =~= assignment_spec(
            cs@,
            t as int,
            v,
        ));
    }
    r
}

/// Whether the assignment names the parameter `id`.
pub open spec fn assignment_has(a: Seq<(ParameterId, u32)>, id: ParameterId) -> bool {
    exists|i: int| 0 <= i < a.len() && (#[trigger] a[i]).0 == id
}

/// Reads the value a parameter takes in an assignment: the first entry
/// under `id`, or nothing when the assignment does not name the parameter —
/// the missing-parameter case a case's setup procedure must treat as fatal.
#[verifier::loop_isolation(false)]
pub fn assignment_value(a: &Vec<(ParameterId, u32)>, id: ParameterId) -> (r: Option<u32>)
    ensures
        r is Some <==> assignment_has(a@, id),
        r matches Some(v) ==> (exists|i: int|
            {
                &&& 0 <= i < a@.len()
                &&& (#[trigger] a@[i]) == (id, v)
                &&& forall|j: int| 0 <= j < i ==> (#[trigger] a@[j]).0 != id
            }),
{
    let n = a.len();
    let mut i: usize = 0;
    while i < n
        invariant
            i <= n,
            forall|j: int| 0 <= j < i ==> (#[trigger] a@[j]).0 != id,
        decreases n - i,
    {
        let e = a[i];
        if e.0 == id {
            return Some(e.1);
        }
        i += 1;
    }
    None
}

/// The rows contributed by repeating one assignment `k` times.
pub open spec fn repeat_rows(a: Seq<(ParameterId, u32)>, k: int) -> Seq<Seq<(ParameterId, u32)>>
    decreases k,
{
    if k <= 0 {
        Seq::empty()
    } else {
        repeat_rows(a, k - 1).push(a)
    }
}

/// Every row of `repeat_rows` is the one repeated assignment.
pub proof fn lemma_repeat_rows(a: Seq<(ParameterId, u32)>, k: int)
    requires
        k >= 0,
    ensures
        repeat_rows(a, k).len() == k,
        forall|i: int| 0 <= i < k ==> repeat_rows(a, k)[i] == a,
    decreases k,
{
    if k > 0 {
        lemma_repeat_rows(a, k - 1);
    }
}

/// The rows contributed by the first `s` sweep steps of component `t`,
/// each step repeated `repeat` times, in ascending step order.
pub open spec fn steps_rows(cs: Seq<Component>, t: int, steps: u32, repeat: u32, s: int) -> Seq<
    Seq<(ParameterId, u32)>,
>
    decreases s,
{
    if s <= 0 {
        Seq::empty()
    } else {
        steps_rows(cs, t, steps, repeat, s - 1) + repeat_rows(
            assignment_spec(cs, t, value_spec(cs[t], steps, s - 1) as u32),
            repeat as int,
        )
    }
}

/// Each of the first `s` sweep steps contributes exactly `repeat` rows.
pub proof fn lemma_steps_rows_len(cs: Seq<Component>, t: int, steps: u32, repeat: u32, s: int)
    requires
        s >= 0,
    ensures
        steps_rows(cs, t, steps, repeat, s).len() == s * repeat,
    decreases s,
{
    if s > 0 {
        let a = assignment_spec(cs, t, value_spec(cs[t], steps, s - 1) as u32);
        lemma_steps_rows_len(cs, t, steps, repeat, s - 1);
        lemma_repeat_rows(a, repeat as int);
        assert(steps_rows(cs, t, steps, repeat, s) == steps_rows(cs, t, steps, repeat, s - 1)
            + repeat_rows(a, repeat as int));
        assert(steps_rows(cs, t, steps, repeat, s).len() == (s - 1) * repeat + repeat);
        assert((s - 1) * repeat + repeat == s * repeat) by (nonlinear_arith);
        assert(steps_rows(cs, t, steps, repeat, s).len() == s * repeat);
    } else {
        assert(s * repeat == 0) by (nonlinear_arith)
            requires
                s == 0;
        assert(steps_rows(cs, t, steps, repeat, s).len() == s * repeat);
    }
}

/// The complete sequence of rows contributed by sweeping component `t`.
pub open spec fn component_rows(cs: Seq<Component>, t: int, steps: u32, repeat: u32) -> Seq<
    Seq<(ParameterId, u32)>,
> {
    steps_rows(cs, t, steps, repeat, num_steps_spec(cs[t], steps))
}

/// A well-formed component is swept over a non-negative number of steps.
pub proof fn lemma_num_steps_nonneg(c: Component, steps: u32)
    requires
        c.wf(),
    ensures
        num_steps_spec(c, steps) >= 0,
{
    let w = c.high - c.low;
    let q = step_size_spec(c, steps);
    assert(w / q >= 0) by (nonlinear_arith)
        requires
            w >= 0,
            q >= 1;
}

/// The sweep over one component yields exactly `num_steps * repeat` rows.
pub proof fn lemma_component_rows_len(cs: Seq<Component>, t: int, steps: u32, repeat: u32)
    requires
        0 <= t < cs.len(),
        cs[t].wf(),
        steps >= 1,
    ensures
        component_rows(cs, t, steps, repeat).len() == num_steps_spec(cs[t], steps) * repeat,
{
    lemma_num_steps_nonneg(cs[t], steps);
    lemma_steps_rows_len(cs, t, steps, repeat, num_steps_spec(cs[t], steps));
}

/// The rows contributed by the first `t` components of a case, in
/// declaration order.
pub open spec fn rows_upto(cs: Seq<Component>, steps: u32, repeat: u32, t: int) -> Seq<
    Seq<(ParameterId, u32)>,
>
    decreases t,
{
    if t <= 0 {
        Seq::empty()
    } else {
        rows_upto(cs, steps, repeat, t - 1) + component_rows(cs, t - 1, steps, repeat)
    }
}

/// The complete, ordered sequence of assignments one sweep produces: for each
/// component in declaration order, each visited value in ascending order,
/// each value repeated `repeat` times.
pub open spec fn sweep_rows(cs: Seq<Component>, steps: u32, repeat: u32) -> Seq<
    Seq<(ParameterId, u32)>,
> {
    rows_upto(cs, steps, repeat, cs.len() as int)
}

proof fn lemma_rows_upto_contains_component(
    cs: Seq<Component>,
    steps: u32,
    repeat: u32,
    t: int,
    j: int,
)
    requires
        0 <= t < j <= cs.len(),
    ensures
        rows_upto(cs, steps, repeat, j).len() >= component_rows(cs, t, steps, repeat).len(),
    decreases j,
{
    if j > t + 1 {
        lemma_rows_upto_contains_component(cs, steps, repeat, t, j - 1);
    }
}

/// A sweep yields at least one row whenever some component of the case is
/// visited at least once: only a case whose every component sweep is empty
/// can come back with no rows at all.
pub proof fn lemma_sweep_rows_nonempty(cs: Seq<Component>, steps: u32, repeat: u32, t: int)
    requires
        components_wf(cs),
        steps >= 1,
        repeat >= 1,
        0 <= t < cs.len(),
        num_steps_spec(cs[t], steps) >= 1,
    ensures
        sweep_rows(cs, steps, repeat).len() >= 1,
{
    assert(cs[t].wf());
    lemma_component_rows_len(cs, t, steps, repeat);
    assert(num_steps_spec(cs[t], steps) * repeat >= 1) by (nonlinear_arith)
        requires
            num_steps_spec(cs[t], steps) >= 1,
            repeat >= 1;
    lemma_rows_upto_contains_component(cs, steps, repeat, t, cs.len() as int);
}

/// A sweep's assignment sequence is a function of the declared components,
/// the step count and the repeat count alone: two runs over the same inputs
/// produce identical assignment sequences, row for row.
pub proof fn lemma_sweep_deterministic(
    cs: Seq<Component>,
    steps: u32,
    repeat: u32,
    r1: Seq<Seq<(ParameterId, u32)>>,
    r2: Seq<Seq<(ParameterId, u32)>>,
)
    requires
        r1 == sweep_rows(cs, steps, repeat),
        r2 == sweep_rows(cs, steps, repeat),
    ensures
        r1 == r2,
{
}

} // verus!
