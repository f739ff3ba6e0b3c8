//! What each command of `bdd` decides. The caller prints the outcome, runs
//! the scripts and saves the state.
use vstd::prelude::*;
use crate::flow::{
    current_exercise, done, first_open, first_pending, first_pending_in_ex, first_undone,
    is_step_id, is_step_id_text, next_step,
};
use crate::model::{lemma_dec_shape, role_answer, step_id, Role, Step};
use crate::state::{State, StateView, with_item};
use crate::text::{all_digits, dec, lemma_split_nonempty, split_on, str_eq, trim, trimmed};

verus! {

/// The command that the first argument names.
#[derive(Clone, Copy, PartialEq, Eq, Debug, Structural)]
pub enum Command {
    Usage,
    Version,
    Log,
    Next,
    MarkOk,
    Check,
    Validate,
    Run,
    Upgrade,
    Id,
    Inject,
    /// `X.Y`: run that step.
    RunStep,
    Unknown,
}

pub open spec fn command_spec(c: Seq<char>) -> Command {
    if c == ""@ || c == "help"@ || c == "-h"@ || c == "--help"@ {
        Command::Usage
    } else if c == "--version"@ || c == "-V"@ {
        Command::Version
    } else if c == "log"@ {
        Command::Log
    } else if c == "next"@ {
        Command::Next
    } else if c == "ok"@ {
        Command::MarkOk
    } else if c == "check"@ {
        Command::Check
    } else if c == "validate"@ || c == "validar"@ {
        Command::Validate
    } else if c == "run"@ {
        Command::Run
    } else if c == "upgrade"@ || c == "update"@ {
        Command::Upgrade
    } else if c == "id"@ {
        Command::Id
    } else if c == "inject"@ {
        Command::Inject
    } else if is_step_id_text(c) {
        Command::RunStep
    } else {
        Command::Unknown
    }
}

/// The command named by the first argument ("" when there is none).
pub fn command_of(cmd: &str) -> (r: Command)
    ensures
        r == command_spec(cmd@),
{
    if str_eq(cmd, "") || str_eq(cmd, "help") || str_eq(cmd, "-h") || str_eq(cmd, "--help") {
        Command::Usage
    } else if str_eq(cmd, "--version") || str_eq(cmd, "-V") {
        Command::Version
    } else if str_eq(cmd, "log") {
        Command::Log
    } else if str_eq(cmd, "next") {
        Command::Next
    } else if str_eq(cmd, "ok") {
        Command::MarkOk
    } else if str_eq(cmd, "check") {
        Command::Check
    } else if str_eq(cmd, "validate") || str_eq(cmd, "validar") {
        Command::Validate
    } else if str_eq(cmd, "run") {
        Command::Run
    } else if str_eq(cmd, "upgrade") || str_eq(cmd, "update") {
        Command::Upgrade
    } else if str_eq(cmd, "id") {
        Command::Id
    } else if str_eq(cmd, "inject") {
        Command::Inject
    } else if is_step_id(cmd) {
        Command::RunStep
    } else {
        Command::Unknown
    }
}

/// Whether the step runs on the machine with role `role` (never, when the
/// role is unknown).
pub open spec fn runs_on(s: Step, role: Option<Role>) -> bool {
    match role {
        Some(r) => s.roles@.contains(r),
        None => false,
    }
}

fn step_runs_on(s: &Step, role: Option<Role>) -> (b: bool)
    ensures
        b == runs_on(*s, role),
{
    match role {
        Some(r) => s.for_role(r),
        None => false,
    }
}

/// What to tell after a step was done.
#[derive(Clone, Copy, PartialEq, Eq, Debug, Structural)]
pub enum AfterRun {
    AllDone,
    /// The next step (by index) runs on this machine.
    NextHere(usize),
    /// The next step runs on another machine.
    NextElsewhere(usize),
}

pub open spec fn after_run_spec(steps: Seq<Step>, st: StateView, role: Option<Role>) -> AfterRun {
    match first_undone(steps, st) {
        None => AfterRun::AllDone,
        Some(i) => if runs_on(steps[i], role) {
            AfterRun::NextHere(i as usize)
        } else {
            AfterRun::NextElsewhere(i as usize)
        },
    }
}

/// The hint after a step was done: the next step, here or elsewhere.
pub fn hint_after_run(steps: &[Step], st: &State, role: Option<Role>) -> (r: AfterRun)
    ensures
        r == after_run_spec(steps@, st@, role),
{
    match next_step(steps, st) {
        None => AfterRun::AllDone,
        Some(i) => if step_runs_on(&steps[i], role) {
            AfterRun::NextHere(i)
        } else {
            AfterRun::NextElsewhere(i)
        },
    }
}

/// What `bdd next` shows.
#[derive(Clone, Copy, PartialEq, Eq, Debug, Structural)]
pub enum NextAdvice {
    /// Every exercise is done and validated.
    AllClosed,
    /// The next step (by index) runs on this machine.
    Here(usize),
    /// The next step runs on another machine (or this machine's role is unknown).
    Elsewhere(usize),
    /// All steps of the exercise are done; its evidence is still to be printed.
    NeedsEvidence(u8),
}

pub open spec fn next_advice_spec(steps: Seq<Step>, st: StateView, role: Option<Role>) -> NextAdvice {
    match first_open(steps, st) {
        None => NextAdvice::AllClosed,
        Some(ex) => match first_pending(steps, st, ex) {
            Some(i) => if runs_on(steps[i], role) {
                NextAdvice::Here(i as usize)
            } else {
                NextAdvice::Elsewhere(i as usize)
            },
            None => NextAdvice::NeedsEvidence(ex),
        },
    }
}

/// What `bdd next` shows: the next thing to do in the current exercise.
pub fn next_advice(steps: &[Step], st: &State, role: Option<Role>) -> (r: NextAdvice)
    ensures
        r == next_advice_spec(steps@, st@, role),
{
    let cur = current_exercise(steps, st);
    assert(cur == first_open(steps@, st@));
    match cur {
        None => NextAdvice::AllClosed,
        Some(ex) => {
            let p = first_pending_in_ex(steps, st, ex);
            assert(crate::flow::opt_int(p) == first_pending(steps@, st@, ex));
            match p {
                Some(i) => {
                    if step_runs_on(&steps[i], role) {
                        NextAdvice::Here(i)
                    } else {
                        NextAdvice::Elsewhere(i)
                    }
                },
                None => NextAdvice::NeedsEvidence(ex),
            }
        },
    }
}

/// What `bdd ok` did.
#[derive(Clone, Copy, PartialEq, Eq, Debug, Structural)]
pub enum OkOutcome {
    NothingPending,
    /// The next step runs on this machine: it is not marked.
    Mine(usize),
    /// The next step (of another machine) was marked as done.
    Marked(usize),
}

/// `bdd ok`: marks the next step as done when it belongs to another machine.
pub fn ok_step(steps: &[Step], st: &mut State, role: Role) -> (r: OkOutcome)
    ensures
        match first_undone(steps@, old(st)@) {
            None => r == OkOutcome::NothingPending && final(st)@ == old(st)@,
            Some(i) => if steps@[i].roles@.contains(role) {
                r == OkOutcome::Mine(i as usize) && final(st)@ == old(st)@
            } else {
                r == OkOutcome::Marked(i as usize) && final(st)@ == (StateView {
                    ran: with_item(old(st)@.ran, steps@[i].spec_id()),
                    ..old(st)@
                })
            },
        },
{
    match next_step(steps, st) {
        None => OkOutcome::NothingPending,
        Some(i) => {
            if steps[i].for_role(role) {
                OkOutcome::Mine(i)
            } else {
                let id = steps[i].id();
                st.mark_ran(id.as_str());
                OkOutcome::Marked(i)
            }
        },
    }
}

/// The index of the first step, from index `i` on, whose identifier is `id`.
pub open spec fn find_from(steps: Seq<Step>, id: Seq<char>, i: nat) -> Option<int>
    decreases steps.len() - i,
{
    if i >= steps.len() {
        None
    } else if steps[i as int].spec_id() == id {
        Some(i as int)
    } else {
        find_from(steps, id, i + 1)
    }
}

/// The index of the first step whose identifier is `id`.
pub fn find_index(steps: &[Step], id: &str) -> (r: Option<usize>)
    ensures
        crate::flow::opt_int(r) == find_from(steps@, id@, 0),
        r matches Some(i) ==> i < steps@.len(),
{
    let mut i: usize = 0;
    while i < steps.len()
        invariant
            i <= steps@.len(),
            find_from(steps@, id@, 0) == find_from(steps@, id@, i as nat),
        decreases steps@.len() - i,
    {
        let sid = steps[i].id();
        if str_eq(sid.as_str(), id) {
            return Some(i);
        }
        i = i + 1;
    }
    None
}

/// What `bdd X.Y` does.
#[derive(Clone, Copy, PartialEq, Eq, Debug, Structural)]
pub enum RunTarget {
    /// There is no such step.
    NoSuchStep,
    /// This machine's role is unknown.
    NoRole,
    /// The step (by index) runs on another machine.
    OtherMachine(usize),
    /// Run the step (by index) here.
    Go(usize),
}

pub open spec fn run_target_spec(steps: Seq<Step>, id: Seq<char>, role: Option<Role>) -> RunTarget {
    match find_from(steps, id, 0) {
        None => RunTarget::NoSuchStep,
        Some(i) => match role {
            None => RunTarget::NoRole,
            Some(r) => if steps[i].roles@.contains(r) {
                RunTarget::Go(i as usize)
            } else {
                RunTarget::OtherMachine(i as usize)
            },
        },
    }
}

/// `bdd X.Y`: whether the step exists and runs on this machine.
pub fn run_target(steps: &[Step], id: &str, role: Option<Role>) -> (r: RunTarget)
    ensures
        r == run_target_spec(steps@, id@, role),
{
    match find_index(steps, id) {
        None => RunTarget::NoSuchStep,
        Some(i) => match role {
            None => RunTarget::NoRole,
            Some(r) => if steps[i].for_role(r) {
                RunTarget::Go(i)
            } else {
                RunTarget::OtherMachine(i)
            },
        },
    }
}

/// What `bdd run` does.
#[derive(Clone, Copy, PartialEq, Eq, Debug, Structural)]
pub enum RunNext {
    /// Every exercise is done and validated.
    AllClosed,
    /// Run the step (by index) here.
    Go(usize),
    /// The next step runs on another machine.
    OtherMachine(usize),
    /// The current exercise's steps are all done: print its evidence.
    Validate,
}

pub open spec fn run_next_spec(steps: Seq<Step>, st: StateView, role: Role) -> RunNext {
    match first_open(steps, st) {
        None => RunNext::AllClosed,
        Some(ex) => match first_pending(steps, st, ex) {
            Some(i) => if steps[i].roles@.contains(role) {
                RunNext::Go(i as usize)
            } else {
                RunNext::OtherMachine(i as usize)
            },
            None => RunNext::Validate,
        },
    }
}

/// `bdd run`: the next step of the current exercise, if it is this machine's.
pub fn run_next(steps: &[Step], st: &State, role: Role) -> (r: RunNext)
    ensures
        r == run_next_spec(steps@, st@, role),
{
    match current_exercise(steps, st) {
        None => RunNext::AllClosed,
        Some(ex) => match first_pending_in_ex(steps, st, ex) {
            Some(i) => if steps[i].for_role(role) {
                RunNext::Go(i)
            } else {
                RunNext::OtherMachine(i)
            },
            None => RunNext::Validate,
        },
    }
}

/// Whether to show the first-run introduction; showing it is recorded.
pub fn show_intro(st: &mut State) -> (shown: bool)
    ensures
        shown == !old(st)@.seen_intro,
        final(st)@ == (StateView { seen_intro: true, ..old(st)@ }),
{
    if !st.seen_intro {
        st.seen_intro = true;
        true
    } else {
        false
    }
}


/// The answer typed to the question of `bdd id`.
#[derive(Clone, Copy, PartialEq, Eq, Debug, Structural)]
pub enum IdAnswer {
    /// Nothing typed: nothing changes.
    Cancel,
    Chosen(Role),
    Invalid,
}

pub open spec fn id_answer_spec(line: Seq<char>) -> IdAnswer {
    if trimmed(line).len() == 0 {
        IdAnswer::Cancel
    } else {
        match role_answer(trimmed(line)) {
            Some(r) => IdAnswer::Chosen(r),
            None => IdAnswer::Invalid,
        }
    }
}

/// Reads the answer to "which machine is this": empty cancels, else a role
/// (`1`/`2`/`3` or its code) or an invalid answer.
pub fn id_answer(line: &str) -> (r: IdAnswer)
    ensures
        r == id_answer_spec(line@),
{
    let sel = trim(line);
    if sel.unicode_len() == 0 {
        return IdAnswer::Cancel;
    }
    match Role::from_str(sel) {
        Some(r) => IdAnswer::Chosen(r),
        None => IdAnswer::Invalid,
    }
}

/// Whether the version that the downloaded binary reports (`bdd <version>`,
/// around whitespace) is this one.
pub open spec fn is_current(reported: Seq<char>, version: Seq<char>) -> bool {
    trimmed(reported) == "bdd "@ + version
}

/// Whether the downloaded binary is this same version.
pub fn up_to_date(reported: &str, version: &str) -> (b: bool)
    ensures
        b == is_current(reported@, version@),
{
    let mut expected = "bdd ".to_string();
    expected.append(version);
    str_eq(trim(reported), expected.as_str())
}


// ------------------------------------------------------------------ laws

proof fn lemma_split_append(s: Seq<char>, y: Seq<char>, sep: char)
    requires
        !y.contains(sep),
    ensures
        split_on(s + y, sep) == split_on(s, sep).update(
            split_on(s, sep).len() - 1,
            split_on(s, sep).last() + y,
        ),
    decreases y.len(),
{
    lemma_split_nonempty(s, sep);
    let r = split_on(s, sep);
    if y.len() == 0 {
        assert(s + y =~= s);
        assert(r.last() + y =~= r.last());
        assert(r.update(r.len() - 1, r.last() + y) =~= r);
    } else {
        let y0 = y.drop_last();
        let c = y.last();
        assert(!y0.contains(sep)) by {
            if y0.contains(sep) {
                let k = choose|k: int| 0 <= k < y0.len() && y0[k] == sep;
                assert(y[k] == sep);
            }
        }
        assert(c != sep) by {
            assert(y[y.len() - 1] == c);
        }
        lemma_split_append(s, y0, sep);
        assert((s + y).drop_last() =~= s + y0);
        assert((s + y).last() == c);
        let r0 = split_on(s + y0, sep);
        assert(r0 == r.update(r.len() - 1, r.last() + y0));
        assert(split_on(s + y, sep) == r0.update(r0.len() - 1, r0.last().push(c)));
        assert(r0.last() == r.last() + y0);
        assert((r.last() + y0).push(c) =~= r.last() + y);
        assert(split_on(s + y, sep) =~= r.update(r.len() - 1, r.last() + y));
    }
}

proof fn lemma_digits_no_dot(d: Seq<char>)
    requires
        forall|i: int| 0 <= i < d.len() ==> crate::text::is_digit(#[trigger] d[i]),
    ensures
        !d.contains('.'),
        all_digits(d),
{
    if d.contains('.') {
        let k = choose|k: int| 0 <= k < d.len() && d[k] == '.';
        assert(crate::text::is_digit(d[k]));
    }
}

/// Every step identifier `X.Y` is taken as the command that runs step `Y` of
/// exercise `X`.
pub proof fn lemma_step_ids_run(ex: u8, st: u8)
    ensures
        is_step_id_text(step_id(ex, st)),
        command_spec(step_id(ex, st)) == Command::RunStep,
{
    let a = dec(ex as nat);
    let b = dec(st as nat);
    lemma_dec_shape(ex as nat);
    lemma_dec_shape(st as nat);
    lemma_digits_no_dot(a);
    lemma_digits_no_dot(b);
    let e = Seq::<char>::empty();
    lemma_split_append(e, a, '.');
    assert(e + a =~= a);
    assert(split_on(e, '.') == seq![e]);
    assert(split_on(a, '.') =~= seq![a]);
    let ad = a + seq!['.'];
    assert(ad.drop_last() =~= a);
    assert(split_on(ad, '.') =~= seq![a, e]);
    lemma_split_append(ad, b, '.');
    assert(ad + b =~= step_id(ex, st));
    assert(split_on(step_id(ex, st), '.') =~= seq![a, b]);
    let id = step_id(ex, st);
    assert(crate::text::is_digit(id[0]));
    reveal_strlit("");
    reveal_strlit("help");
    reveal_strlit("-h");
    reveal_strlit("--help");
    reveal_strlit("--version");
    reveal_strlit("-V");
    reveal_strlit("log");
    reveal_strlit("next");
    reveal_strlit("ok");
    reveal_strlit("check");
    reveal_strlit("validate");
    reveal_strlit("validar");
    reveal_strlit("run");
    reveal_strlit("upgrade");
    reveal_strlit("update");
    reveal_strlit("id");
    reveal_strlit("inject");
}

} // verus!
