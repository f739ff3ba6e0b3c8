use bdd::flow::{
    all_ran_ex, current_exercise, ex_validated, first_pending_in_ex, is_step_id, last_done_index,
    last_ran_exercise, next_step,
};
use bdd::model::manifest;
use bdd::state::State;

#[test]
fn step_id_shape() {
    assert!(is_step_id("3.1"));
    assert!(is_step_id("4.10"));
    assert!(is_step_id("03.1"));
    assert!(!is_step_id("3."));
    assert!(!is_step_id(".1"));
    assert!(!is_step_id("3.1.2"));
    assert!(!is_step_id("3,1"));
    assert!(!is_step_id("a.1"));
    assert!(!is_step_id("log"));
    assert!(!is_step_id(""));
}

#[test]
fn every_step_id_has_the_step_shape() {
    for s in manifest() {
        assert!(is_step_id(&s.id()));
    }
}

#[test]
fn next_step_is_the_first_not_done() {
    let m = manifest();
    let mut st = State::new();
    assert_eq!(next_step(&m, &st), Some(0));
    st.mark_ran("2.1");
    assert_eq!(next_step(&m, &st), Some(1));
    st.mark_ran("3.1");
    assert_eq!(next_step(&m, &st), Some(1));
    assert_eq!(last_done_index(&m, &st), Some(2));
    assert_eq!(last_done_index(&m, &State::new()), None);
}

#[test]
fn next_step_advances_when_the_next_is_done() {
    let m = manifest();
    let mut st = State::new();
    let mut prev: Option<usize> = None;
    while let Some(i) = next_step(&m, &st) {
        if let Some(p) = prev {
            assert!(i > p);
        }
        st.mark_ran(&m[i].id());
        prev = Some(i);
    }
    assert_eq!(prev, Some(m.len() - 1));
}

#[test]
fn exercises_close_when_done_and_validated() {
    let m = manifest();
    let mut st = State::new();
    assert_eq!(current_exercise(&m, &st), Some(2));
    st.mark_ran("2.1");
    st.mark_ran("2.2");
    assert!(all_ran_ex(&m, &st, 2));
    assert!(!all_ran_ex(&m, &st, 3));
    assert_eq!(current_exercise(&m, &st), Some(2));
    assert_eq!(first_pending_in_ex(&m, &st, 2), None);
    st.validated.push("2".to_string());
    assert!(ex_validated(&st, 2));
    assert!(!ex_validated(&st, 3));
    assert_eq!(current_exercise(&m, &st), Some(3));
    assert_eq!(first_pending_in_ex(&m, &st, 3), Some(2));
}

#[test]
fn last_exercise_with_a_step_done() {
    let m = manifest();
    let mut st = State::new();
    assert_eq!(last_ran_exercise(&m, &st), None);
    st.mark_ran("2.1");
    assert_eq!(last_ran_exercise(&m, &st), Some(2));
    st.mark_ran("4.3");
    assert_eq!(last_ran_exercise(&m, &st), Some(4));
}

fn through_ex05() -> State {
    let m = manifest();
    let mut st = State::new();
    for s in &m {
        if s.ex <= 5 {
            st.mark_ran(&s.id());
        }
    }
    st
}

#[test]
fn next_passes_over_the_optional_step() {
    let m = manifest();
    assert!(m[20].optional);
    let mut st = through_ex05();
    assert_eq!(next_step(&m, &st), Some(21));
    assert_eq!(m[21].id(), "8.1");
    for ex in ["2", "3", "4", "5"] {
        st.validated.push(ex.to_string());
    }
    assert_eq!(current_exercise(&m, &st), Some(8));
    assert_eq!(first_pending_in_ex(&m, &st, 8), Some(21));
    for s in &m {
        if s.ex == 8 && !s.optional {
            st.mark_ran(&s.id());
        }
    }
    assert!(all_ran_ex(&m, &st, 8));
    assert_eq!(next_step(&m, &st), None);
    st.validated.push("8".to_string());
    assert_eq!(current_exercise(&m, &st), None);
}

#[test]
fn optional_step_is_not_progress() {
    let m = manifest();
    let mut st = State::new();
    st.mark_ran("8.0");
    assert_eq!(last_done_index(&m, &st), None);
    assert_eq!(last_ran_exercise(&m, &st), Some(8));
}
