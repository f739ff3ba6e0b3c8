use bdd::commands::{
    command_of, hint_after_run, id_answer, next_advice, ok_step, run_next, run_target,
    show_intro, up_to_date, AfterRun, Command, IdAnswer, NextAdvice, OkOutcome, RunNext,
    RunTarget,
};
use bdd::model::{manifest, Role};
use bdd::state::State;

#[test]
fn commands_by_name() {
    assert_eq!(command_of(""), Command::Usage);
    assert_eq!(command_of("help"), Command::Usage);
    assert_eq!(command_of("-h"), Command::Usage);
    assert_eq!(command_of("--help"), Command::Usage);
    assert_eq!(command_of("--version"), Command::Version);
    assert_eq!(command_of("-V"), Command::Version);
    assert_eq!(command_of("log"), Command::Log);
    assert_eq!(command_of("next"), Command::Next);
    assert_eq!(command_of("ok"), Command::MarkOk);
    assert_eq!(command_of("check"), Command::Check);
    assert_eq!(command_of("validate"), Command::Validate);
    assert_eq!(command_of("validar"), Command::Validate);
    assert_eq!(command_of("run"), Command::Run);
    assert_eq!(command_of("upgrade"), Command::Upgrade);
    assert_eq!(command_of("update"), Command::Upgrade);
    assert_eq!(command_of("id"), Command::Id);
    assert_eq!(command_of("inject"), Command::Inject);
    assert_eq!(command_of("3.1"), Command::RunStep);
    assert_eq!(command_of("Log"), Command::Unknown);
    assert_eq!(command_of("3.1x"), Command::Unknown);
}

#[test]
fn every_step_id_is_a_run_command() {
    for s in manifest() {
        assert_eq!(command_of(&s.id()), Command::RunStep);
    }
}

#[test]
fn run_target_checks_step_and_machine() {
    let m = manifest();
    assert_eq!(run_target(&m, "3.1", Some(Role::Mgm)), RunTarget::Go(2));
    assert_eq!(run_target(&m, "3.1", Some(Role::N1)), RunTarget::OtherMachine(2));
    assert_eq!(run_target(&m, "3.1", None), RunTarget::NoRole);
    assert_eq!(run_target(&m, "9.1", Some(Role::Mgm)), RunTarget::NoSuchStep);
}

#[test]
fn ok_marks_only_other_machines_steps() {
    let m = manifest();
    let mut st = State::new();
    st.mark_ran("2.1");
    st.mark_ran("2.2");
    // 3.1 runs on MGM.
    assert_eq!(ok_step(&m, &mut st, Role::Mgm), OkOutcome::Mine(2));
    assert!(!st.has_ran("3.1"));
    assert_eq!(ok_step(&m, &mut st, Role::N1), OkOutcome::Marked(2));
    assert!(st.has_ran("3.1"));
    let mut all = State::new();
    for s in &m {
        all.mark_ran(&s.id());
    }
    assert_eq!(ok_step(&m, &mut all, Role::N1), OkOutcome::NothingPending);
}

#[test]
fn hint_after_a_step() {
    let m = manifest();
    let mut st = State::new();
    st.mark_ran("2.1");
    assert_eq!(hint_after_run(&m, &st, Some(Role::N1)), AfterRun::NextHere(1));
    st.mark_ran("2.2");
    assert_eq!(hint_after_run(&m, &st, Some(Role::N1)), AfterRun::NextElsewhere(2));
    assert_eq!(hint_after_run(&m, &st, None), AfterRun::NextElsewhere(2));
    let mut all = State::new();
    for s in &m {
        all.mark_ran(&s.id());
    }
    assert_eq!(hint_after_run(&m, &all, Some(Role::N1)), AfterRun::AllDone);
}

#[test]
fn next_advice_follows_the_current_exercise() {
    let m = manifest();
    let mut st = State::new();
    assert_eq!(next_advice(&m, &st, Some(Role::Mgm)), NextAdvice::Here(0));
    st.mark_ran("2.1");
    st.mark_ran("2.2");
    assert_eq!(next_advice(&m, &st, Some(Role::Mgm)), NextAdvice::NeedsEvidence(2));
    st.validated.push("2".to_string());
    assert_eq!(next_advice(&m, &st, Some(Role::Mgm)), NextAdvice::Here(2));
    assert_eq!(next_advice(&m, &st, Some(Role::N2)), NextAdvice::Elsewhere(2));
}

#[test]
fn run_next_follows_the_current_exercise() {
    let m = manifest();
    let mut st = State::new();
    assert_eq!(run_next(&m, &st, Role::N1), RunNext::Go(0));
    st.mark_ran("2.1");
    st.mark_ran("2.2");
    assert_eq!(run_next(&m, &st, Role::N1), RunNext::Validate);
    st.validated.push("2".to_string());
    assert_eq!(run_next(&m, &st, Role::N1), RunNext::OtherMachine(2));
    let mut all = State::new();
    for s in &m {
        all.mark_ran(&s.id());
    }
    for ex in ["2", "3", "4", "5", "8"] {
        all.validated.push(ex.to_string());
    }
    assert_eq!(run_next(&m, &all, Role::N1), RunNext::AllClosed);
    assert_eq!(next_advice(&m, &all, Some(Role::N1)), NextAdvice::AllClosed);
}

#[test]
fn intro_is_shown_once() {
    let mut st = State::new();
    assert!(show_intro(&mut st));
    assert!(st.seen_intro);
    assert!(!show_intro(&mut st));
}

#[test]
fn id_answers() {
    assert_eq!(id_answer("\n"), IdAnswer::Cancel);
    assert_eq!(id_answer(""), IdAnswer::Cancel);
    assert_eq!(id_answer("2\n"), IdAnswer::Chosen(Role::N1));
    assert_eq!(id_answer(" MGM "), IdAnswer::Chosen(Role::Mgm));
    assert_eq!(id_answer("n2"), IdAnswer::Chosen(Role::N2));
    assert_eq!(id_answer("7"), IdAnswer::Invalid);
}

#[test]
fn version_comparison() {
    assert!(up_to_date("bdd 0.3.1\n", "0.3.1"));
    assert!(!up_to_date("bdd 0.3.2\n", "0.3.1"));
    assert!(!up_to_date("", "0.3.1"));
}
