use bdd::check::{
    check_adopt, check_plan, check_report, log_marks, LogMark, Probe, RowKind, StepMark, Summary,
};
use bdd::model::{manifest, Role};
use bdd::state::State;

#[test]
fn check_plan_runs_this_machines_validations() {
    let m = manifest();
    let mut st = State::new();
    st.mark_checked("2.1");
    let plan = check_plan(&m, &st, Role::Mgm);
    assert_eq!(plan.len(), m.len());
    assert_eq!(plan[0], Probe::Cached); // 2.1
    assert_eq!(plan[1], Probe::Run); // 2.2
    assert_eq!(plan[2], Probe::Run); // 3.1, MGM
    assert_eq!(plan[3], Probe::Skip); // 3.2, data nodes
    assert_eq!(plan[17], Probe::Skip); // 4.11, observational
}

#[test]
fn check_adopts_what_passes() {
    let m = manifest();
    let mut st = State::new();
    st.mark_checked("2.1");
    let mut results = vec![false; m.len()];
    results[2] = true; // 3.1 passes
    results[3] = true; // 3.2 is not MGM's: ignored
    let a = check_adopt(&m, &mut st, Role::Mgm, &results);
    assert!(a.passed[0] && a.cached[0]);
    assert!(!a.passed[1]);
    assert!(a.passed[2] && !a.cached[2]);
    assert!(!a.passed[3]);
    assert!(st.has_ran("2.1"));
    assert!(!st.has_ran("2.2"));
    assert!(st.has_ran("3.1"));
    assert!(st.has_checked("3.1"));
    assert!(!st.has_ran("3.2"));
}

#[test]
fn check_report_finds_broken_order() {
    let m = manifest();
    let mut st = State::new();
    st.mark_checked("2.1");
    let mut results = vec![false; m.len()];
    results[2] = true;
    let a = check_adopt(&m, &mut st, Role::Mgm, &results);
    let r = check_report(&m, &st, Role::Mgm, &a.passed, &a.cached);
    assert_eq!(r.marks[0], StepMark::PassedCached);
    assert_eq!(r.marks[1], StepMark::BrokenOrder);
    assert_eq!(r.marks[2], StepMark::Passed);
    assert_eq!(r.marks[3], StepMark::NotApplicable);
    assert_eq!(r.summary, Summary::BrokenOrder);
    assert_eq!(r.rows[0], (2, RowKind::Expanded));
    assert_eq!(r.rows[1], (3, RowKind::Future));
    assert_eq!(r.rows[2], (4, RowKind::Future));
}

#[test]
fn check_report_without_problems() {
    let m = manifest();
    let mut st = State::new();
    let mut results = vec![false; m.len()];
    results[0] = true;
    results[1] = true;
    let a = check_adopt(&m, &mut st, Role::N1, &results);
    let r = check_report(&m, &st, Role::N1, &a.passed, &a.cached);
    assert_eq!(r.marks[0], StepMark::Passed);
    assert_eq!(r.marks[1], StepMark::Passed);
    assert_eq!(r.marks[2], StepMark::NotApplicable);
    assert_eq!(r.marks[3], StepMark::NotStarted);
    assert_eq!(r.summary, Summary::NextElsewhere(2));
    assert_eq!(r.rows[0], (2, RowKind::Expanded));
    assert_eq!(r.rows[1], (3, RowKind::Future));
}

#[test]
fn log_marks_each_step() {
    let m = manifest();
    let mut st = State::new();
    st.mark_ran("2.1");
    st.mark_ran("3.1");
    let marks = log_marks(&m, &st, Some(Role::N1));
    assert_eq!(marks[0], LogMark::Done);
    assert_eq!(marks[1], LogMark::NextHere);
    assert_eq!(marks[2], LogMark::Done);
    assert_eq!(marks[3], LogMark::NotDone);
    assert_eq!(marks[4], LogMark::NotHere);
    let none = log_marks(&m, &st, None);
    assert_eq!(none[1], LogMark::NextElsewhere);
    assert_eq!(none[4], LogMark::NotDone);
    let mut later = State::new();
    later.mark_ran("3.2");
    let l = log_marks(&m, &later, Some(Role::Mgm));
    assert_eq!(l[0], LogMark::NextHere);
    assert_eq!(l[1], LogMark::AssumedDone);
    assert_eq!(l[2], LogMark::AssumedDone);
    assert_eq!(l[3], LogMark::Done);
    assert_eq!(l[4], LogMark::NotDone);
    assert_eq!(l[5], LogMark::NotHere);
}

#[test]
fn optional_step_is_shown_apart() {
    let m = manifest();
    let mut st = State::new();
    for s in &m {
        if s.ex <= 5 {
            st.mark_ran(&s.id());
        }
    }
    let marks = log_marks(&m, &st, Some(Role::Mgm));
    assert_eq!(marks[20], LogMark::Optional);
    assert_eq!(marks[21], LogMark::NextHere);
    let results: Vec<bool> = (0..m.len()).map(|i| i < 20).collect();
    let a = check_adopt(&m, &mut st, Role::Mgm, &results);
    let r = check_report(&m, &st, Role::Mgm, &a.passed, &a.cached);
    assert_eq!(r.marks[20], StepMark::Optional);
    assert_eq!(r.marks[21], StepMark::DoNow);
    assert_eq!(r.summary, Summary::NextHere(21));
    let mut later = State::new();
    later.mark_ran("8.1");
    let l = log_marks(&m, &later, Some(Role::Mgm));
    assert_eq!(l[20], LogMark::Optional);
    assert_eq!(l[19], LogMark::NotHere);
    assert_eq!(l[0], LogMark::NextHere);
}
