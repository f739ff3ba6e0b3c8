//! Where the student is: which step comes next, which exercise is current,
//! and what each command decides from the steps, the state and the role.
use vstd::prelude::*;
use crate::model::{Role, Step, distinct_in_order, exercises, step_exs};
use crate::state::{State, StateView};
use crate::text::{all_digits, dec, split, split_on, u8_to_string};

verus! {

/// Whether `s` has the shape `X.Y` of a step identifier: two non-empty runs
/// of ASCII digits around a single dot.
pub open spec fn is_step_id_text(s: Seq<char>) -> bool {
    let p = split_on(s, '.');
    &&& p.len() == 2
    &&& p[0].len() > 0
    &&& all_digits(p[0])
    &&& p[1].len() > 0
    &&& all_digits(p[1])
}

fn only_digits(s: &str) -> (b: bool)
    ensures
        b == all_digits(s@),
{
    let n = s.unicode_len();
    let mut i: usize = 0;
    while i < n
        invariant
            n == s@.len(),
            i <= n,
            forall|k: int| 0 <= k < i ==> crate::text::is_digit(#[trigger] s@[k]),
        decreases n - i,
    {
        let c = s.get_char(i);
        if !('0' <= c && c <= '9') {
            assert(!crate::text::is_digit(s@[i as int]));
            return false;
        }
        i = i + 1;
    }
    true
}

/// Whether `s` is a step identifier such as `3.1`.
pub fn is_step_id(s: &str) -> (b: bool)
    ensures
        b == is_step_id_text(s@),
{
    let p = split(s, '.');
    if p.len() != 2 {
        return false;
    }
    let a = p[0].as_str();
    let b = p[1].as_str();
    a.unicode_len() > 0 && only_digits(a) && b.unicode_len() > 0 && only_digits(b)
}

/// Whether the step was done (on this machine or marked with `bdd ok`).
pub open spec fn done(st: StateView, s: Step) -> bool {
    st.ran.contains(s.spec_id())
}

/// Whether the step is still owed: it is not optional and not done. An
/// optional step is never asked for by `next`.
pub open spec fn owed(st: StateView, s: Step) -> bool {
    !s.optional && !done(st, s)
}

/// Whether the step counts as progress: it is not optional and it was done.
pub open spec fn progressed(st: StateView, s: Step) -> bool {
    !s.optional && done(st, s)
}

/// The index of the first step, from index `i` on, that is still owed.
pub open spec fn first_undone_from(steps: Seq<Step>, st: StateView, i: nat) -> Option<int>
    decreases steps.len() - i,
{
    if i >= steps.len() {
        None
    } else if owed(st, steps[i as int]) {
        Some(i as int)
    } else {
        first_undone_from(steps, st, i + 1)
    }
}

/// The index of the first step still owed (optional steps are passed over).
pub open spec fn first_undone(steps: Seq<Step>, st: StateView) -> Option<int> {
    first_undone_from(steps, st, 0)
}

/// The index of the last step, below index `n`, that is done and not optional.
pub open spec fn last_done_below(steps: Seq<Step>, st: StateView, n: nat) -> Option<int>
    decreases n,
{
    if n == 0 {
        None
    } else if n <= steps.len() && progressed(st, steps[n - 1]) {
        Some(n - 1)
    } else {
        last_done_below(steps, st, (n - 1) as nat)
    }
}

/// The index of the last step, not optional, that is done.
pub open spec fn last_done(steps: Seq<Step>, st: StateView) -> Option<int> {
    last_done_below(steps, st, steps.len())
}

pub open spec fn opt_int(r: Option<usize>) -> Option<int> {
    match r {
        Some(i) => Some(i as int),
        None => None,
    }
}

/// The index of the last step, not optional, that is done.
pub fn last_done_index(steps: &[Step], st: &State) -> (r: Option<usize>)
    ensures
        opt_int(r) == last_done(steps@, st@),
        match r {
            Some(i) => i < steps@.len() && progressed(st@, steps@[i as int]) && forall|j: int|
                i < j < steps@.len() ==> !progressed(st@, #[trigger] steps@[j]),
            None => forall|j: int| 0 <= j < steps@.len() ==> !progressed(st@, #[trigger] steps@[j]),
        },
{
    let mut k: usize = steps.len();
    while k > 0
        invariant
            k <= steps@.len(),
            last_done(steps@, st@) == last_done_below(steps@, st@, k as nat),
            forall|j: int| k <= j < steps@.len() ==> !progressed(st@, #[trigger] steps@[j]),
        decreases k,
    {
        let id = steps[k - 1].id();
        if !steps[k - 1].optional && st.has_ran(id.as_str()) {
            return Some(k - 1);
        }
        k = k - 1;
    }
    None
}

/// The index of the next step to do: the first one, not optional, not done
/// yet (an optional step is not asked for).
pub fn next_step(steps: &[Step], st: &State) -> (r: Option<usize>)
    ensures
        match r {
            Some(i) => i < steps@.len() && !steps@[i as int].optional && !done(
                st@,
                steps@[i as int],
            ) && forall|j: int| 0 <= j < i ==> !owed(st@, #[trigger] steps@[j]),
            None => forall|j: int| 0 <= j < steps@.len() ==> !owed(st@, #[trigger] steps@[j]),
        },
        opt_int(r) == first_undone(steps@, st@),
{
    let mut i: usize = 0;
    while i < steps.len()
        invariant
            i <= steps@.len(),
            forall|j: int| 0 <= j < i ==> !owed(st@, #[trigger] steps@[j]),
            first_undone(steps@, st@) == first_undone_from(steps@, st@, i as nat),
        decreases steps@.len() - i,
    {
        let id = steps[i].id();
        if !steps[i].optional && !st.has_ran(id.as_str()) {
            return Some(i);
        }
        i = i + 1;
    }
    None
}

/// Whether every step of exercise `ex` that is not optional was done.
pub open spec fn all_done_in(steps: Seq<Step>, st: StateView, ex: u8) -> bool {
    forall|i: int| 0 <= i < steps.len() && (#[trigger] steps[i]).ex == ex ==> !owed(st, steps[i])
}

/// Whether the evidence of exercise `ex` was printed.
pub open spec fn validated(st: StateView, ex: u8) -> bool {
    st.validated.contains(dec(ex as nat))
}

/// Whether exercise `ex` is closed: all its steps done (but the optional
/// ones) and its evidence printed.
pub open spec fn closed(steps: Seq<Step>, st: StateView, ex: u8) -> bool {
    all_done_in(steps, st, ex) && validated(st, ex)
}

/// Whether some step of exercise `ex` was done.
pub open spec fn touched(steps: Seq<Step>, st: StateView, ex: u8) -> bool {
    exists|i: int| 0 <= i < steps.len() && (#[trigger] steps[i]).ex == ex && done(st, steps[i])
}

/// The exercises in order.
pub open spec fn exercise_list(steps: Seq<Step>) -> Seq<u8> {
    distinct_in_order(step_exs(steps))
}

/// Whether every step of exercise `ex`, but the optional ones, was done.
pub fn all_ran_ex(steps: &[Step], st: &State, ex: u8) -> (b: bool)
    ensures
        b == all_done_in(steps@, st@, ex),
{
    let mut i: usize = 0;
    while i < steps.len()
        invariant
            i <= steps@.len(),
            forall|j: int|
                0 <= j < i && (#[trigger] steps@[j]).ex == ex ==> !owed(st@, steps@[j]),
        decreases steps@.len() - i,
    {
        if steps[i].ex == ex && !steps[i].optional {
            let id = steps[i].id();
            if !st.has_ran(id.as_str()) {
                return false;
            }
        }
        i = i + 1;
    }
    true
}

/// Whether the evidence of exercise `ex` was printed.
pub fn ex_validated(st: &State, ex: u8) -> (b: bool)
    ensures
        b == validated(st@, ex),
{
    let e = u8_to_string(ex);
    let mut i: usize = 0;
    while i < st.validated.len()
        invariant
            i <= st.validated.len(),
            e@ == dec(ex as nat),
            forall|j: int| 0 <= j < i ==> st@.validated[j] != e@,
        decreases st.validated.len() - i,
    {
        if crate::text::str_eq(st.validated[i].as_str(), e.as_str()) {
            assert(st@.validated[i as int] == e@);
            return true;
        }
        i = i + 1;
    }
    false
}

/// Whether some step of exercise `ex` was done.
fn any_ran_ex(steps: &[Step], st: &State, ex: u8) -> (b: bool)
    ensures
        b == touched(steps@, st@, ex),
{
    let mut i: usize = 0;
    while i < steps.len()
        invariant
            i <= steps@.len(),
            forall|j: int|
                0 <= j < i && (#[trigger] steps@[j]).ex == ex ==> !done(st@, steps@[j]),
        decreases steps@.len() - i,
    {
        if steps[i].ex == ex {
            let id = steps[i].id();
            if st.has_ran(id.as_str()) {
                return true;
            }
        }
        i = i + 1;
    }
    false
}

/// The last exercise of `exs`, below index `k`, with a step done.
pub open spec fn last_touched_below(steps: Seq<Step>, st: StateView, exs: Seq<u8>, k: nat) -> Option<
    u8,
>
    decreases k,
{
    if k == 0 {
        None
    } else if k <= exs.len() && touched(steps, st, exs[k - 1]) {
        Some(exs[k - 1])
    } else {
        last_touched_below(steps, st, exs, (k - 1) as nat)
    }
}

/// The last exercise with a step done.
pub open spec fn last_touched(steps: Seq<Step>, st: StateView) -> Option<u8> {
    last_touched_below(steps, st, exercise_list(steps), exercise_list(steps).len())
}

/// The last exercise with at least one step done: the one just done, or
/// being done.
pub fn last_ran_exercise(steps: &[Step], st: &State) -> (r: Option<u8>)
    ensures
        match r {
            Some(x) => exists|k: int|
                0 <= k < exercise_list(steps@).len() && exercise_list(steps@)[k] == x && touched(
                    steps@,
                    st@,
                    x,
                ) && forall|j: int|
                    k < j < exercise_list(steps@).len() ==> !touched(
                        steps@,
                        st@,
                        #[trigger] exercise_list(steps@)[j],
                    ),
            None => forall|j: int|
                0 <= j < exercise_list(steps@).len() ==> !touched(
                    steps@,
                    st@,
                    #[trigger] exercise_list(steps@)[j],
                ),
        },
        r == last_touched(steps@, st@),
{
    let exs = exercises(steps);
    let mut k: usize = exs.len();
    while k > 0
        invariant
            k <= exs@.len(),
            exs@ == exercise_list(steps@),
            last_touched(steps@, st@) == last_touched_below(steps@, st@, exs@, k as nat),
            forall|j: int| k <= j < exs@.len() ==> !touched(steps@, st@, #[trigger] exs@[j]),
        decreases k,
    {
        if any_ran_ex(steps, st, exs[k - 1]) {
            return Some(exs[k - 1]);
        }
        k = k - 1;
    }
    None
}

/// The first exercise of `exs`, from index `k` on, that is not closed.
pub open spec fn first_open_from(steps: Seq<Step>, st: StateView, exs: Seq<u8>, k: nat) -> Option<
    u8,
>
    decreases exs.len() - k,
{
    if k >= exs.len() {
        None
    } else if !closed(steps, st, exs[k as int]) {
        Some(exs[k as int])
    } else {
        first_open_from(steps, st, exs, k + 1)
    }
}

/// The first exercise that is not closed yet.
pub open spec fn first_open(steps: Seq<Step>, st: StateView) -> Option<u8> {
    first_open_from(steps, st, exercise_list(steps), 0)
}

/// The first exercise that is not closed yet.
pub fn current_exercise(steps: &[Step], st: &State) -> (r: Option<u8>)
    ensures
        match r {
            Some(x) => exists|k: int|
                0 <= k < exercise_list(steps@).len() && exercise_list(steps@)[k] == x && !closed(
                    steps@,
                    st@,
                    x,
                ) && forall|j: int|
                    0 <= j < k ==> closed(steps@, st@, #[trigger] exercise_list(steps@)[j]),
            None => forall|j: int|
                0 <= j < exercise_list(steps@).len() ==> closed(
                    steps@,
                    st@,
                    #[trigger] exercise_list(steps@)[j],
                ),
        },
        r == first_open(steps@, st@),
{
    let exs = exercises(steps);
    let mut k: usize = 0;
    while k < exs.len()
        invariant
            k <= exs@.len(),
            exs@ == exercise_list(steps@),
            first_open(steps@, st@) == first_open_from(steps@, st@, exs@, k as nat),
            forall|j: int| 0 <= j < k ==> closed(steps@, st@, #[trigger] exs@[j]),
        decreases exs@.len() - k,
    {
        let ex = exs[k];
        if !(all_ran_ex(steps, st, ex) && ex_validated(st, ex)) {
            return Some(ex);
        }
        k = k + 1;
    }
    None
}

/// The index of the first step of exercise `ex`, from index `i` on, still owed.
pub open spec fn first_pending_from(steps: Seq<Step>, st: StateView, ex: u8, i: nat) -> Option<int>
    decreases steps.len() - i,
{
    if i >= steps.len() {
        None
    } else if steps[i as int].ex == ex && owed(st, steps[i as int]) {
        Some(i as int)
    } else {
        first_pending_from(steps, st, ex, i + 1)
    }
}

/// The index of the first step of exercise `ex` still owed (optional steps
/// are passed over).
pub open spec fn first_pending(steps: Seq<Step>, st: StateView, ex: u8) -> Option<int> {
    first_pending_from(steps, st, ex, 0)
}

/// The index of the first step of exercise `ex`, not optional, not done yet.
pub fn first_pending_in_ex(steps: &[Step], st: &State, ex: u8) -> (r: Option<usize>)
    ensures
        match r {
            Some(i) => i < steps@.len() && steps@[i as int].ex == ex && !steps@[i as int].optional
                && !done(st@, steps@[i as int]) && forall|j: int|
                0 <= j < i ==> !((#[trigger] steps@[j]).ex == ex && owed(st@, steps@[j])),
            None => forall|j: int|
                0 <= j < steps@.len() ==> !((#[trigger] steps@[j]).ex == ex && owed(
                    st@,
                    steps@[j],
                )),
        },
        opt_int(r) == first_pending(steps@, st@, ex),
{
    let mut i: usize = 0;
    while i < steps.len()
        invariant
            i <= steps@.len(),
            first_pending(steps@, st@, ex) == first_pending_from(steps@, st@, ex, i as nat),
            forall|j: int|
                0 <= j < i ==> !((#[trigger] steps@[j]).ex == ex && owed(st@, steps@[j])),
        decreases steps@.len() - i,
    {
        if steps[i].ex == ex && !steps[i].optional {
            let id = steps[i].id();
            if !st.has_ran(id.as_str()) {
                return Some(i);
            }
        }
        i = i + 1;
    }
    None
}


// ------------------------------------------------------------------ laws

proof fn lemma_first_undone_from(steps: Seq<Step>, st: StateView, k: nat)
    ensures
        match first_undone_from(steps, st, k) {
            Some(j) => k <= j < steps.len() && owed(st, steps[j]) && forall|m: int|
                k <= m < j ==> !owed(st, #[trigger] steps[m]),
            None => forall|m: int| k <= m < steps.len() ==> !owed(st, #[trigger] steps[m]),
        },
    decreases steps.len() - k,
{
    if k < steps.len() {
        lemma_first_undone_from(steps, st, k + 1);
    }
}

/// Once the next step is done, the next one is a later step (or none is
/// left): recording a step never makes an earlier one pending again.
/// The next step is never an optional one (see `first_undone`).
pub proof fn lemma_next_advances(steps: Seq<Step>, st: StateView, i: int)
    requires
        first_undone(steps, st) == Some(i),
    ensures
        match first_undone(
            steps,
            StateView { ran: crate::state::with_item(st.ran, steps[i].spec_id()), ..st },
        ) {
            Some(j) => j > i,
            None => true,
        },
{
    let st2 = StateView { ran: crate::state::with_item(st.ran, steps[i].spec_id()), ..st };
    lemma_first_undone_from(steps, st, 0);
    lemma_first_undone_from(steps, st2, 0);
    assert forall|m: int| 0 <= m <= i implies !owed(st2, #[trigger] steps[m]) by {
        if m < i {
            assert(!owed(st, steps[m]));
            if !steps[m].optional {
                assert(st.ran.contains(steps[m].spec_id()));
                let k = choose|k: int| 0 <= k < st.ran.len() && st.ran[k] == steps[m].spec_id();
                if !st.ran.contains(steps[i].spec_id()) {
                    assert(st2.ran[k] == st.ran[k]);
                }
            }
        } else {
            if !st.ran.contains(steps[i].spec_id()) {
                assert(st2.ran[st.ran.len() as int] == steps[i].spec_id());
            }
        }
    }
    if let Some(j) = first_undone(steps, st2) {
        if j <= i {
            assert(!owed(st2, steps[j]));
        }
    }
}


proof fn lemma_first_pending_from(steps: Seq<Step>, st: StateView, ex: u8, k: nat)
    ensures
        first_pending_from(steps, st, ex, k) matches Some(j) ==> k <= j < steps.len()
            && steps[j].ex == ex && owed(st, steps[j]),
    decreases steps.len() - k,
{
    if k < steps.len() {
        lemma_first_pending_from(steps, st, ex, k + 1);
    }
}

/// `next` never asks for an optional step, neither over all steps nor
/// within an exercise; and an exercise is closed without its optional steps
/// once the others are done and its evidence printed.
pub proof fn lemma_optional_never_asked(steps: Seq<Step>, st: StateView, ex: u8)
    ensures
        first_undone(steps, st) matches Some(i) ==> !steps[i].optional,
        first_pending(steps, st, ex) matches Some(i) ==> !steps[i].optional,
        (forall|i: int|
            0 <= i < steps.len() && (#[trigger] steps[i]).ex == ex && !steps[i].optional ==> done(
                st,
                steps[i],
            )) && validated(st, ex) ==> closed(steps, st, ex),
{
    lemma_first_undone_from(steps, st, 0);
    lemma_first_pending_from(steps, st, ex, 0);
}

} // verus!
