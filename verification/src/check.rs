//! `bdd check` and `bdd log`: which steps this machine validates, what it
//! adopts as done, and how each step and exercise is shown.
use vstd::prelude::*;
use crate::commands::runs_on;
use crate::flow::{
    closed, first_open_from, current_exercise, done, exercise_list, first_open, first_undone, last_done, last_done_index,
    next_step, opt_int,
};
use crate::model::{Role, Step, distinct_in_order, exercises, step_exs};
use crate::state::{State, StateView, with_item};

verus! {

/// What `bdd check` does with a step's validation on this machine.
#[derive(Clone, Copy, PartialEq, Eq, Debug, Structural)]
pub enum Probe {
    /// Not this machine's step, or an observational one: nothing to validate.
    Skip,
    /// It passed before: the recorded result stands.
    Cached,
    /// Run its validation.
    Run,
}

/// Whether the step is validated here: it runs on `role` and has a validation.
pub open spec fn validated_here(s: Step, role: Role) -> bool {
    s.roles@.contains(role) && s.validate@.len() > 0
}

pub open spec fn probe_of(s: Step, st: StateView, role: Role) -> Probe {
    if !validated_here(s, role) {
        Probe::Skip
    } else if st.checked.contains(s.spec_id()) {
        Probe::Cached
    } else {
        Probe::Run
    }
}

/// For each step, whether `bdd check` runs its validation.
pub fn check_plan(steps: &[Step], st: &State, role: Role) -> (r: Vec<Probe>)
    ensures
        r@.len() == steps@.len(),
        forall|i: int| 0 <= i < steps@.len() ==> #[trigger] r@[i] == probe_of(steps@[i], st@, role),
{
    let mut out: Vec<Probe> = Vec::new();
    let mut i: usize = 0;
    while i < steps.len()
        invariant
            i <= steps@.len(),
            out@.len() == i,
            forall|j: int| 0 <= j < i ==> #[trigger] out@[j] == probe_of(steps@[j], st@, role),
        decreases steps@.len() - i,
    {
        let s = &steps[i];
        let p = if !(s.for_role(role) && s.validate.unicode_len() > 0) {
            Probe::Skip
        } else {
            let id = s.id();
            if st.has_checked(id.as_str()) {
                Probe::Cached
            } else {
                Probe::Run
            }
        };
        out.push(p);
        i = i + 1;
    }
    out
}

/// The state after `bdd check` went through the first `n` steps, with the
/// validation outcomes `results`; and which of them passed, and which passed
/// by a recorded earlier result.
pub open spec fn adopt_upto(
    steps: Seq<Step>,
    role: Role,
    results: Seq<bool>,
    st: StateView,
    n: nat,
) -> (StateView, Seq<bool>, Seq<bool>)
    decreases n,
{
    if n == 0 {
        (st, Seq::empty(), Seq::empty())
    } else {
        let (s, p, c) = adopt_upto(steps, role, results, st, (n - 1) as nat);
        let step = steps[n - 1];
        let id = step.spec_id();
        if !validated_here(step, role) {
            (s, p.push(false), c.push(false))
        } else if s.checked.contains(id) {
            (StateView { ran: with_item(s.ran, id), ..s }, p.push(true), c.push(true))
        } else if results[n - 1] {
            (
                StateView { ran: with_item(s.ran, id), checked: with_item(s.checked, id), ..s },
                p.push(true),
                c.push(false),
            )
        } else {
            (s, p.push(false), c.push(false))
        }
    }
}

/// The outcome of `bdd check`'s validations.
pub struct Adoption {
    /// Per step: its validation passed (now or before).
    pub passed: Vec<bool>,
    /// Per step: it passed by a recorded earlier result.
    pub cached: Vec<bool>,
}

/// Adopts as done every step of this machine whose validation passes
/// (`results[i]` is the outcome of step `i`'s validation, where it was run),
/// and records the validations that passed.
pub fn check_adopt(steps: &[Step], st: &mut State, role: Role, results: &Vec<bool>) -> (r: Adoption)
    requires
        results@.len() == steps@.len(),
    ensures
        (final(st)@, r.passed@, r.cached@) == adopt_upto(
            steps@,
            role,
            results@,
            old(st)@,
            steps@.len(),
        ),
        forall|x: Seq<char>|
            #[trigger] final(st)@.checked.contains(x) ==> old(st)@.checked.contains(x) || exists|
                i: int,
            |
                0 <= i < steps@.len() && validated_here(#[trigger] steps@[i], role) && results@[i]
                    && steps@[i].spec_id() == x,
        forall|i: int|
            0 <= i < steps@.len() && validated_here(steps@[i], role) && #[trigger] results@[i]
                ==> r.passed@[i] && final(st)@.checked.contains(steps@[i].spec_id())
                && final(st)@.ran.contains(steps@[i].spec_id()),
        forall|x: Seq<char>|
            #[trigger] final(st)@.ran.contains(x) ==> old(st)@.ran.contains(x) || (exists|i: int|
                0 <= i < steps@.len() && validated_here(#[trigger] steps@[i], role)
                    && steps@[i].spec_id() == x) && final(st)@.checked.contains(x),
{
    let mut passed: Vec<bool> = Vec::new();
    let mut cached: Vec<bool> = Vec::new();
    let mut i: usize = 0;
    let ghost st0 = st@;
    while i < steps.len()
        invariant
            i <= steps@.len(),
            results@.len() == steps@.len(),
            (st@, passed@, cached@) == adopt_upto(steps@, role, results@, st0, i as nat),
        decreases steps@.len() - i,
    {
        let s = &steps[i];
        if !(s.for_role(role) && s.validate.unicode_len() > 0) {
            passed.push(false);
            cached.push(false);
        } else {
            let id = s.id();
            if st.has_checked(id.as_str()) {
                st.mark_ran(id.as_str());
                passed.push(true);
                cached.push(true);
            } else if results[i] {
                st.mark_checked(id.as_str());
                st.mark_ran(id.as_str());
                passed.push(true);
                cached.push(false);
            } else {
                passed.push(false);
                cached.push(false);
            }
        }
        i = i + 1;
    }
    proof {
        lemma_check_records_only_passes(steps@, role, results@, st0, steps@.len());
        lemma_check_adopts_passed(steps@, role, results@, st0, steps@.len());
        assert forall|x: Seq<char>| #[trigger] st@.ran.contains(x) && !st0.ran.contains(x)
            implies st@.checked.contains(x) by {
            if st0.checked.contains(x) {
                assert(st@.checked.contains(x));
            } else {
                let i = choose|i: int|
                    0 <= i < steps@.len() && validated_here(#[trigger] steps@[i], role) && results@[i]
                        && steps@[i].spec_id() == x;
                assert(passed@[i]);
            }
        }
    }
    Adoption { passed, cached }
}

/// How `bdd check` shows one step.
#[derive(Clone, Copy, PartialEq, Eq, Debug, Structural)]
pub enum StepMark {
    /// Another machine's step, done there.
    DoneElsewhere,
    /// Another machine's step, not done.
    NotApplicable,
    /// Observational step of this machine, done.
    Done,
    /// Its validation passed now.
    Passed,
    /// Its validation passed before.
    PassedCached,
    /// Optional step of this machine, not done: shown apart, never asked for.
    Optional,
    /// Not done, though a later step is: the order was broken.
    BrokenOrder,
    /// The next step to do, here.
    DoNow,
    NotStarted,
}

/// Whether step `i` counts as done on this machine: its validation passed,
/// or, being observational, it was run.
pub open spec fn done_here(steps: Seq<Step>, st: StateView, passed: Seq<bool>, i: int) -> bool {
    passed[i] || (steps[i].validate@.len() == 0 && done(st, steps[i]))
}

/// Whether step `i` lies before the last done step.
pub open spec fn before_last_done(steps: Seq<Step>, st: StateView, i: int) -> bool {
    match last_done(steps, st) {
        Some(li) => i < li,
        None => false,
    }
}

pub open spec fn step_mark(
    steps: Seq<Step>,
    st: StateView,
    role: Role,
    passed: Seq<bool>,
    cached: Seq<bool>,
    i: int,
) -> StepMark {
    let s = steps[i];
    if !s.roles@.contains(role) {
        if done(st, s) {
            StepMark::DoneElsewhere
        } else {
            StepMark::NotApplicable
        }
    } else if done_here(steps, st, passed, i) {
        if s.validate@.len() == 0 {
            StepMark::Done
        } else if cached[i] {
            StepMark::PassedCached
        } else {
            StepMark::Passed
        }
    } else if s.optional {
        StepMark::Optional
    } else if before_last_done(steps, st, i) {
        StepMark::BrokenOrder
    } else if first_undone(steps, st) == Some(i) {
        StepMark::DoNow
    } else {
        StepMark::NotStarted
    }
}

/// A step of this machine, not optional, that is not done, before a step that is.
pub open spec fn problem_at(steps: Seq<Step>, st: StateView, role: Role, passed: Seq<bool>, i: int) -> bool {
    steps[i].roles@.contains(role) && !steps[i].optional && !done_here(steps, st, passed, i)
        && before_last_done(
        steps,
        st,
        i,
    )
}

/// Whether exercise `ex` has such a step.
pub open spec fn ex_problem(
    steps: Seq<Step>,
    st: StateView,
    role: Role,
    passed: Seq<bool>,
    ex: u8,
) -> bool {
    exists|i: int| 0 <= i < steps.len() && (#[trigger] steps[i]).ex == ex && problem_at(steps, st, role, passed, i)
}

/// How `bdd check` shows an exercise.
#[derive(Clone, Copy, PartialEq, Eq, Debug, Structural)]
pub enum RowKind {
    /// Step by step.
    Expanded,
    /// One line: all is well.
    AllGood,
    /// One line: not started.
    Future,
}

pub open spec fn row_kind(
    steps: Seq<Step>,
    st: StateView,
    role: Role,
    passed: Seq<bool>,
    ex: u8,
) -> RowKind {
    if first_open(steps, st) == Some(ex) || ex_problem(steps, st, role, passed, ex) {
        RowKind::Expanded
    } else if (match first_open(steps, st) {
        Some(c) => ex < c,
        None => true,
    }) {
        RowKind::AllGood
    } else {
        RowKind::Future
    }
}

/// The last line of `bdd check`.
#[derive(Clone, Copy, PartialEq, Eq, Debug, Structural)]
pub enum Summary {
    /// A step is done after one that is not.
    BrokenOrder,
    /// Every step is done.
    AllDone,
    /// The next step (by index) runs here.
    NextHere(usize),
    /// The next step runs on another machine.
    NextElsewhere(usize),
}

pub open spec fn summary_of(
    steps: Seq<Step>,
    st: StateView,
    role: Role,
    passed: Seq<bool>,
) -> Summary {
    if exists|i: int| 0 <= i < steps.len() && #[trigger] problem_at(steps, st, role, passed, i) {
        Summary::BrokenOrder
    } else {
        match first_undone(steps, st) {
            None => Summary::AllDone,
            Some(n) => if steps[n].roles@.contains(role) {
                Summary::NextHere(n as usize)
            } else {
                Summary::NextElsewhere(n as usize)
            },
        }
    }
}

/// What `bdd check` shows.
pub struct CheckReport {
    /// Per step.
    pub marks: Vec<StepMark>,
    /// Per exercise, in order.
    pub rows: Vec<(u8, RowKind)>,
    pub summary: Summary,
}

/// What `bdd check` shows, from the state after the adoption and the
/// validations that passed.
pub fn check_report(
    steps: &[Step],
    st: &State,
    role: Role,
    passed: &Vec<bool>,
    cached: &Vec<bool>,
) -> (r: CheckReport)
    requires
        passed@.len() == steps@.len(),
        cached@.len() == steps@.len(),
    ensures
        r.marks@.len() == steps@.len(),
        forall|i: int|
            0 <= i < steps@.len() ==> #[trigger] r.marks@[i] == step_mark(
                steps@,
                st@,
                role,
                passed@,
                cached@,
                i,
            ),
        r.rows@.len() == exercise_list(steps@).len(),
        forall|k: int|
            0 <= k < r.rows@.len() ==> #[trigger] r.rows@[k] == (
                exercise_list(steps@)[k],
                row_kind(steps@, st@, role, passed@, exercise_list(steps@)[k]),
            ),
        r.summary == summary_of(steps@, st@, role, passed@),
        in_exercise_order(steps@) ==> forall|k: int|
            #![trigger r.rows@[k]]
            0 <= k < r.rows@.len() && !ex_problem(steps@, st@, role, passed@, exercise_list(steps@)[k])
                ==> ((forall|j: int|
                0 <= j <= k ==> closed(steps@, st@, #[trigger] exercise_list(steps@)[j]))
                ==> r.rows@[k].1 == RowKind::AllGood) && ((exists|j: int|
                0 <= j < k && !closed(steps@, st@, #[trigger] exercise_list(steps@)[j]))
                ==> r.rows@[k].1 == RowKind::Future),
{
    let next = next_step(steps, st);
    let last = last_done_index(steps, st);
    let cur = current_exercise(steps, st);
    // Marks and problems, step by step.
    let mut marks: Vec<StepMark> = Vec::new();
    let mut problems: Vec<bool> = Vec::new();
    let mut i: usize = 0;
    while i < steps.len()
        invariant
            i <= steps@.len(),
            passed@.len() == steps@.len(),
            cached@.len() == steps@.len(),
            opt_int(next) == first_undone(steps@, st@),
            opt_int(last) == last_done(steps@, st@),
            marks@.len() == i,
            problems@.len() == i,
            forall|j: int|
                0 <= j < i ==> #[trigger] marks@[j] == step_mark(
                    steps@,
                    st@,
                    role,
                    passed@,
                    cached@,
                    j,
                ),
            forall|j: int|
                0 <= j < i ==> #[trigger] problems@[j] == problem_at(steps@, st@, role, passed@, j),
        decreases steps@.len() - i,
    {
        let s = &steps[i];
        let id = s.id();
        let ran = st.has_ran(id.as_str());
        let observational = s.validate.unicode_len() == 0;
        let is_done = passed[i] || (observational && ran);
        let before_last = match last {
            Some(li) => i < li,
            None => false,
        };
        let mine = s.for_role(role);
        let m = if !mine {
            if ran {
                StepMark::DoneElsewhere
            } else {
                StepMark::NotApplicable
            }
        } else if is_done {
            if observational {
                StepMark::Done
            } else if cached[i] {
                StepMark::PassedCached
            } else {
                StepMark::Passed
            }
        } else if s.optional {
            StepMark::Optional
        } else if before_last {
            StepMark::BrokenOrder
        } else if next == Some(i) {
            StepMark::DoNow
        } else {
            StepMark::NotStarted
        };
        marks.push(m);
        problems.push(mine && !s.optional && !is_done && before_last);
        i = i + 1;
    }
    // Rows, exercise by exercise.
    let exs = exercises(steps);
    let mut rows: Vec<(u8, RowKind)> = Vec::new();
    let mut k: usize = 0;
    while k < exs.len()
        invariant
            k <= exs@.len(),
            exs@ == exercise_list(steps@),
            cur == first_open(steps@, st@),
            problems@.len() == steps@.len(),
            forall|j: int|
                0 <= j < steps@.len() ==> #[trigger] problems@[j] == problem_at(
                    steps@,
                    st@,
                    role,
                    passed@,
                    j,
                ),
            rows@.len() == k,
            forall|j: int|
                0 <= j < k ==> #[trigger] rows@[j] == (
                    exs@[j],
                    row_kind(steps@, st@, role, passed@, exs@[j]),
                ),
        decreases exs@.len() - k,
    {
        let ex = exs[k];
        let mut problem = false;
        let mut j: usize = 0;
        while j < steps.len()
            invariant
                j <= steps@.len(),
                problems@.len() == steps@.len(),
                forall|q: int|
                    0 <= q < steps@.len() ==> #[trigger] problems@[q] == problem_at(
                        steps@,
                        st@,
                        role,
                        passed@,
                        q,
                    ),
                problem == exists|q: int|
                    0 <= q < j && (#[trigger] steps@[q]).ex == ex && problem_at(
                        steps@,
                        st@,
                        role,
                        passed@,
                        q,
                    ),
            decreases steps@.len() - j,
        {
            if steps[j].ex == ex && problems[j] {
                problem = true;
            }
            j = j + 1;
        }
        let kind = if cur == Some(ex) || problem {
            RowKind::Expanded
        } else if (match cur {
            Some(c) => ex < c,
            None => true,
        }) {
            RowKind::AllGood
        } else {
            RowKind::Future
        };
        rows.push((ex, kind));
        k = k + 1;
    }
    // The summary.
    let mut broken = false;
    let mut q: usize = 0;
    while q < steps.len()
        invariant
            q <= steps@.len(),
            problems@.len() == steps@.len(),
            forall|j: int|
                0 <= j < steps@.len() ==> #[trigger] problems@[j] == problem_at(
                    steps@,
                    st@,
                    role,
                    passed@,
                    j,
                ),
            broken == exists|j: int| 0 <= j < q && #[trigger] problem_at(steps@, st@, role, passed@, j),
        decreases steps@.len() - q,
    {
        if problems[q] {
            broken = true;
        }
        q = q + 1;
    }
    let summary = if broken {
        Summary::BrokenOrder
    } else {
        match next {
            None => Summary::AllDone,
            Some(n) => if steps[n].for_role(role) {
                Summary::NextHere(n)
            } else {
                Summary::NextElsewhere(n)
            },
        }
    };
    proof {
        if in_exercise_order(steps@) {
            assert forall|k: int|
                0 <= k < rows@.len() && !ex_problem(
                    steps@,
                    st@,
                    role,
                    passed@,
                    exercise_list(steps@)[k],
                ) implies ((forall|j: int|
                0 <= j <= k ==> closed(steps@, st@, #[trigger] exercise_list(steps@)[j]))
                ==> rows@[k].1 == RowKind::AllGood) && ((exists|j: int|
                0 <= j < k && !closed(steps@, st@, #[trigger] exercise_list(steps@)[j]))
                ==> rows@[k].1 == RowKind::Future) by {
                lemma_rows_follow_first_open(steps@, st@, role, passed@, k);
            }
        }
    }
    CheckReport { marks, rows, summary }
}

/// How `bdd log` shows one step.
#[derive(Clone, Copy, PartialEq, Eq, Debug, Structural)]
pub enum LogMark {
    Done,
    /// Optional step, not done: shown apart, never asked for.
    Optional,
    /// The next step, on this machine.
    NextHere,
    /// The next step, on another machine.
    NextElsewhere,
    /// Does not run on this machine.
    NotHere,
    /// Assumed done: a later step is done.
    AssumedDone,
    NotDone,
}

pub open spec fn log_mark(steps: Seq<Step>, st: StateView, role: Option<Role>, i: int) -> LogMark {
    let s = steps[i];
    if done(st, s) {
        LogMark::Done
    } else if s.optional {
        LogMark::Optional
    } else if first_undone(steps, st) == Some(i) {
        if runs_on(s, role) {
            LogMark::NextHere
        } else {
            LogMark::NextElsewhere
        }
    } else if role is Some && !runs_on(s, role) {
        LogMark::NotHere
    } else if before_last_done(steps, st, i) {
        LogMark::AssumedDone
    } else {
        LogMark::NotDone
    }
}

/// How `bdd log` shows each step.
pub fn log_marks(steps: &[Step], st: &State, role: Option<Role>) -> (r: Vec<LogMark>)
    ensures
        r@.len() == steps@.len(),
        forall|i: int| 0 <= i < steps@.len() ==> #[trigger] r@[i] == log_mark(steps@, st@, role, i),
{
    let next = next_step(steps, st);
    let last = last_done_index(steps, st);
    let mut out: Vec<LogMark> = Vec::new();
    let mut i: usize = 0;
    while i < steps.len()
        invariant
            i <= steps@.len(),
            opt_int(next) == first_undone(steps@, st@),
            opt_int(last) == last_done(steps@, st@),
            out@.len() == i,
            forall|j: int| 0 <= j < i ==> #[trigger] out@[j] == log_mark(steps@, st@, role, j),
        decreases steps@.len() - i,
    {
        let s = &steps[i];
        let id = s.id();
        let here = match role {
            Some(r) => s.for_role(r),
            None => false,
        };
        let m = if st.has_ran(id.as_str()) {
            LogMark::Done
        } else if s.optional {
            LogMark::Optional
        } else if next == Some(i) {
            if here {
                LogMark::NextHere
            } else {
                LogMark::NextElsewhere
            }
        } else if role.is_some() && !here {
            LogMark::NotHere
        } else if (match last {
            Some(li) => li > i,
            None => false,
        }) {
            LogMark::AssumedDone
        } else {
            LogMark::NotDone
        };
        out.push(m);
        i = i + 1;
    }
    out
}


// ------------------------------------------------------------------ laws

proof fn lemma_with_item_keeps(v: Seq<Seq<char>>, id: Seq<char>, x: Seq<char>)
    ensures
        with_item(v, id).contains(id),
        v.contains(x) ==> with_item(v, id).contains(x),
{
    if !v.contains(id) {
        assert(with_item(v, id)[v.len() as int] == id);
        if v.contains(x) {
            let k = choose|k: int| 0 <= k < v.len() && v[k] == x;
            assert(with_item(v, id)[k] == x);
        }
    }
}

/// `bdd check` adopts as done every step whose validation passed, and
/// forgets none of what was done or validated before; a step passes only if
/// this machine validates it.
pub proof fn lemma_check_adopts_passed(
    steps: Seq<Step>,
    role: Role,
    results: Seq<bool>,
    st: StateView,
    n: nat,
)
    requires
        n <= steps.len(),
        n <= results.len(),
    ensures
        adopt_upto(steps, role, results, st, n).1.len() == n,
        adopt_upto(steps, role, results, st, n).2.len() == n,
        forall|i: int|
            0 <= i < n && #[trigger] adopt_upto(steps, role, results, st, n).1[i] ==> validated_here(
                steps[i],
                role,
            ) && adopt_upto(steps, role, results, st, n).0.ran.contains(steps[i].spec_id())
                && adopt_upto(steps, role, results, st, n).0.checked.contains(steps[i].spec_id()),
        forall|x: Seq<char>|
            #![trigger st.ran.contains(x)]
            st.ran.contains(x) ==> adopt_upto(steps, role, results, st, n).0.ran.contains(x),
        forall|x: Seq<char>|
            #![trigger st.checked.contains(x)]
            st.checked.contains(x) ==> adopt_upto(steps, role, results, st, n).0.checked.contains(x),
    decreases n,
{
    if n > 0 {
        let m = (n - 1) as nat;
        lemma_check_adopts_passed(steps, role, results, st, m);
        let (s, p, c) = adopt_upto(steps, role, results, st, m);
        let (s2, p2, c2) = adopt_upto(steps, role, results, st, n);
        let step = steps[m as int];
        let id = step.spec_id();
        assert forall|x: Seq<char>| s.ran.contains(x) implies s2.ran.contains(x) by {
            lemma_with_item_keeps(s.ran, id, x);
        }
        assert forall|x: Seq<char>| s.checked.contains(x) implies s2.checked.contains(x) by {
            lemma_with_item_keeps(s.checked, id, x);
        }
        lemma_with_item_keeps(s.ran, id, id);
        lemma_with_item_keeps(s.checked, id, id);
        assert forall|i: int|
            0 <= i < n && #[trigger] p2[i] implies validated_here(steps[i], role) && s2.ran.contains(
                steps[i].spec_id(),
            ) && s2.checked.contains(steps[i].spec_id()) by {
            if i < m {
                assert(p2[i] == p[i]);
                assert(s.ran.contains(steps[i].spec_id()));
                assert(s.checked.contains(steps[i].spec_id()));
            }
        }
        assert forall|x: Seq<char>| #![trigger st.ran.contains(x)] st.ran.contains(x) implies s2.ran.contains(x) by {
            assert(s.ran.contains(x));
        }
        assert forall|x: Seq<char>| #![trigger st.checked.contains(x)] st.checked.contains(x) implies s2.checked.contains(x) by {
            assert(s.checked.contains(x));
        }
    }
}

proof fn lemma_with_item_only(v: Seq<Seq<char>>, id: Seq<char>, x: Seq<char>)
    ensures
        with_item(v, id).contains(x) ==> v.contains(x) || x == id,
{
    if with_item(v, id).contains(x) && !v.contains(x) {
        let k = choose|k: int| 0 <= k < with_item(v, id).len() && with_item(v, id)[k] == x;
        if k < v.len() {
            assert(v[k] == x);
        }
    }
}

/// A validation result that `bdd check` records as passed was recorded before
/// or passed now, on a step that this machine validates; so does every step
/// it adopts as done that was not done before. Every step validated here whose
/// validation passed now is recorded as passed, and the role, the validated
/// exercises and the introduction flag stay as they were.
pub proof fn lemma_check_records_only_passes(
    steps: Seq<Step>,
    role: Role,
    results: Seq<bool>,
    st: StateView,
    n: nat,
)
    requires
        n <= steps.len(),
        n <= results.len(),
    ensures
        forall|x: Seq<char>|
            #![trigger adopt_upto(steps, role, results, st, n).0.checked.contains(x)]
            adopt_upto(steps, role, results, st, n).0.checked.contains(x) ==> st.checked.contains(x)
                || exists|i: int|
                0 <= i < n && validated_here(#[trigger] steps[i], role) && results[i]
                    && steps[i].spec_id() == x,
        forall|x: Seq<char>|
            #![trigger adopt_upto(steps, role, results, st, n).0.ran.contains(x)]
            adopt_upto(steps, role, results, st, n).0.ran.contains(x) ==> st.ran.contains(x) || (
            exists|i: int|
                0 <= i < n && validated_here(#[trigger] steps[i], role) && steps[i].spec_id() == x)
                && (st.checked.contains(x) || exists|i: int|
                0 <= i < n && validated_here(#[trigger] steps[i], role) && results[i]
                    && steps[i].spec_id() == x),
        forall|i: int|
            0 <= i < n && validated_here(steps[i], role) && #[trigger] results[i]
                ==> adopt_upto(steps, role, results, st, n).1[i],
        forall|i: int|
            0 <= i < n && !validated_here(#[trigger] steps[i], role)
                ==> !adopt_upto(steps, role, results, st, n).1[i],
        adopt_upto(steps, role, results, st, n).0.user_role == st.user_role,
        adopt_upto(steps, role, results, st, n).0.validated == st.validated,
        adopt_upto(steps, role, results, st, n).0.seen_intro == st.seen_intro,
    decreases n,
{
    lemma_check_adopts_passed(steps, role, results, st, n);
    if n > 0 {
        let m = (n - 1) as nat;
        lemma_check_records_only_passes(steps, role, results, st, m);
        lemma_check_adopts_passed(steps, role, results, st, m);
        let (s, p, c) = adopt_upto(steps, role, results, st, m);
        let (s2, p2, c2) = adopt_upto(steps, role, results, st, n);
        let step = steps[m as int];
        let id = step.spec_id();
        assert forall|x: Seq<char>| #[trigger] s2.checked.contains(x) implies st.checked.contains(x)
            || exists|i: int|
            0 <= i < n && validated_here(#[trigger] steps[i], role) && results[i]
                && steps[i].spec_id() == x by {
            lemma_with_item_only(s.checked, id, x);
            if s.checked.contains(x) {
                if !st.checked.contains(x) {
                    let i = choose|i: int|
                        0 <= i < m && validated_here(#[trigger] steps[i], role) && results[i]
                            && steps[i].spec_id() == x;
                    assert(0 <= i < n && validated_here(steps[i], role) && results[i]);
                }
            } else {
                assert(x == id);
                assert(validated_here(steps[m as int], role) && results[m as int]);
            }
        }
        assert forall|x: Seq<char>| #[trigger] s2.ran.contains(x) implies st.ran.contains(x) || (
        exists|i: int|
            0 <= i < n && validated_here(#[trigger] steps[i], role) && steps[i].spec_id() == x) && (
        st.checked.contains(x) || exists|i: int|
            0 <= i < n && validated_here(#[trigger] steps[i], role) && results[i]
                && steps[i].spec_id() == x) by {
            lemma_with_item_only(s.ran, id, x);
            if s.ran.contains(x) {
                if !st.ran.contains(x) {
                    let i = choose|i: int|
                        0 <= i < m && validated_here(#[trigger] steps[i], role) && steps[i].spec_id()
                            == x;
                    assert(0 <= i < n && validated_here(steps[i], role));
                    if !st.checked.contains(x) {
                        let j = choose|j: int|
                            0 <= j < m && validated_here(#[trigger] steps[j], role) && results[j]
                                && steps[j].spec_id() == x;
                        assert(0 <= j < n && validated_here(steps[j], role) && results[j]);
                    }
                }
            } else {
                assert(x == id);
                assert(validated_here(steps[m as int], role));
                if !s.checked.contains(id) {
                    assert(results[m as int]);
                } else if !st.checked.contains(x) {
                    let j = choose|j: int|
                        0 <= j < m && validated_here(#[trigger] steps[j], role) && results[j]
                            && steps[j].spec_id() == x;
                    assert(0 <= j < n && validated_here(steps[j], role) && results[j]);
                }
            }
        }
        assert forall|i: int|
            0 <= i < n && validated_here(steps[i], role) && #[trigger] results[i] implies p2[i] by {
            if i < m {
                assert(p2[i] == p[i]);
            }
        }
        assert forall|i: int| 0 <= i < n && !validated_here(#[trigger] steps[i], role) implies !p2[i] by {
            if i < m {
                assert(p2[i] == p[i]);
            }
        }
    }
}

/// The steps come in the order of their exercises.
pub open spec fn in_exercise_order(steps: Seq<Step>) -> bool {
    forall|i: int, j: int| 0 <= i <= j < steps.len() ==> #[trigger] steps[i].ex <= #[trigger] steps[j].ex
}

/// Numbers in order give their distinct values in increasing order, the
/// last of them being the last number.
proof fn lemma_distinct_increasing(exs: Seq<u8>)
    requires
        forall|i: int, j: int| 0 <= i <= j < exs.len() ==> #[trigger] exs[i] <= #[trigger] exs[j],
    ensures
        forall|a: int, b: int|
            0 <= a < b < distinct_in_order(exs).len() ==> #[trigger] distinct_in_order(exs)[a]
                < #[trigger] distinct_in_order(exs)[b],
        exs.len() > 0 ==> distinct_in_order(exs).len() > 0 && distinct_in_order(exs).last()
            == exs.last(),
    decreases exs.len(),
{
    if exs.len() > 0 {
        let d = exs.drop_last();
        assert forall|i: int, j: int| 0 <= i <= j < d.len() implies #[trigger] d[i] <= #[trigger] d[j] by {
            assert(exs[i] <= exs[j]);
        }
        lemma_distinct_increasing(d);
        crate::model::lemma_exercises_distinct_complete(d);
        let r = distinct_in_order(d);
        let x = exs.last();
        assert(exs[exs.len() - 1] == x);
        if r.contains(x) {
            let k = choose|k: int| 0 <= k < r.len() && r[k] == x;
            assert(d.len() > 0);
            assert(r.last() == d.last());
            assert(d[d.len() - 1] == d.last());
            assert(d.last() <= x);
            if k < r.len() - 1 {
                assert(r[k] < r[r.len() - 1]);
            }
            assert(r.last() == x);
        } else {
            let q = r.push(x);
            if d.len() > 0 {
                assert(d[d.len() - 1] == d.last());
                assert(r.last() <= x);
                assert(r[r.len() - 1] == r.last());
                assert(r.last() != x);
            }
            assert forall|a: int, b: int| 0 <= a < b < q.len() implies #[trigger] q[a] < #[trigger] q[b] by {
                if b < r.len() {
                    assert(q[a] == r[a] && q[b] == r[b]);
                } else {
                    assert(q[a] == r[a]);
                    if a < r.len() - 1 {
                        assert(r[a] < r[r.len() - 1]);
                    }
                }
            }
        }
    }
}

/// The first open exercise from position `k` on: the first not closed there,
/// all before it (from `k`) being closed; none when all are closed.
proof fn lemma_first_open_from_at(steps: Seq<Step>, st: StateView, exs: Seq<u8>, k: nat)
    ensures
        match first_open_from(steps, st, exs, k) {
            Some(x) => exists|m: int|
                k <= m < exs.len() && #[trigger] exs[m] == x && !closed(steps, st, x) && forall|
                    j: int,
                | k <= j < m ==> closed(steps, st, #[trigger] exs[j]),
            None => forall|j: int| k <= j < exs.len() ==> closed(steps, st, #[trigger] exs[j]),
        },
    decreases exs.len() - k,
{
    if k < exs.len() && closed(steps, st, exs[k as int]) {
        lemma_first_open_from_at(steps, st, exs, k + 1);
        match first_open_from(steps, st, exs, k + 1) {
            Some(x) => {
                let m = choose|m: int|
                    k + 1 <= m < exs.len() && #[trigger] exs[m] == x && !closed(steps, st, x)
                        && forall|j: int| k + 1 <= j < m ==> closed(steps, st, #[trigger] exs[j]);
                assert(exs[m] == x);
            },
            None => {},
        }
    } else if k < exs.len() {
        assert(exs[k as int] == exs[k as int]);
    }
}

/// For steps in the order of their exercises, an exercise without a problem
/// shows as all good when it and every exercise before it are closed, and as
/// not started when an exercise before it is still open.
pub proof fn lemma_rows_follow_first_open(
    steps: Seq<Step>,
    st: StateView,
    role: Role,
    passed: Seq<bool>,
    k: int,
)
    requires
        in_exercise_order(steps),
        0 <= k < exercise_list(steps).len(),
        !ex_problem(steps, st, role, passed, exercise_list(steps)[k]),
    ensures
        (forall|j: int| 0 <= j <= k ==> closed(steps, st, #[trigger] exercise_list(steps)[j]))
            ==> row_kind(steps, st, role, passed, exercise_list(steps)[k]) == RowKind::AllGood,
        (exists|j: int| 0 <= j < k && !closed(steps, st, #[trigger] exercise_list(steps)[j]))
            ==> row_kind(steps, st, role, passed, exercise_list(steps)[k]) == RowKind::Future,
{
    let exs = step_exs(steps);
    let list = exercise_list(steps);
    assert forall|i: int, j: int| 0 <= i <= j < exs.len() implies #[trigger] exs[i] <= #[trigger] exs[j] by {
        assert(exs[i] == steps[i].ex && exs[j] == steps[j].ex);
    }
    lemma_distinct_increasing(exs);
    lemma_first_open_from_at(steps, st, list, 0);
    let ex = list[k];
    match first_open(steps, st) {
        Some(x) => {
            let m = choose|m: int|
                0 <= m < list.len() && #[trigger] list[m] == x && !closed(steps, st, x) && forall|
                    j: int,
                | 0 <= j < m ==> closed(steps, st, #[trigger] list[j]);
            assert(list[m] == x);
            if forall|j: int| 0 <= j <= k ==> closed(steps, st, #[trigger] list[j]) {
                if m <= k {
                    assert(closed(steps, st, list[m]));
                }
                assert(ex < x);
            }
            if exists|j: int| 0 <= j < k && !closed(steps, st, #[trigger] list[j]) {
                let j = choose|j: int| 0 <= j < k && !closed(steps, st, #[trigger] list[j]);
                if m > j {
                    assert(closed(steps, st, list[j]));
                }
                assert(x < ex);
            }
        },
        None => {
            if exists|j: int| 0 <= j < k && !closed(steps, st, #[trigger] list[j]) {
                let j = choose|j: int| 0 <= j < k && !closed(steps, st, #[trigger] list[j]);
                assert(closed(steps, st, list[j]));
            }
        },
    }
}

/// The steps of the manifest come in the order of their exercises, so the
/// law above holds of the rows that `bdd check` shows for them.
pub proof fn lemma_manifest_in_exercise_order(steps: Seq<Step>)
    requires
        steps.len() == crate::model::manifest_view().len(),
        forall|i: int| 0 <= i < steps.len() ==> #[trigger] steps[i]@ == crate::model::manifest_view()[i],
    ensures
        in_exercise_order(steps),
{
    let m = crate::model::manifest_view();
    assert forall|i: int| 0 <= i < steps.len() implies #[trigger] steps[i].ex == m[i].ex by {
        assert(steps[i]@.ex == m[i].ex);
    }
    assert forall|i: int, j: int| 0 <= i <= j < steps.len() implies #[trigger] steps[i].ex
        <= #[trigger] steps[j].ex by {
        assert(steps[i].ex == m[i].ex && steps[j].ex == m[j].ex);
    }
}

} // verus!
