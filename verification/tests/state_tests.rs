use bdd::model::Role;
use bdd::state::{split_csv, State};

#[test]
fn new_state_is_empty() {
    let st = State::new();
    assert_eq!(st.user_role, None);
    assert!(st.ran.is_empty());
    assert!(st.checked.is_empty());
    assert!(st.validated.is_empty());
    assert!(!st.seen_intro);
}

#[test]
fn marking_records_once() {
    let mut st = State::new();
    assert!(st.mark_ran("3.1"));
    assert!(!st.mark_ran("3.1"));
    assert!(st.has_ran("3.1"));
    assert!(!st.has_ran("3.2"));
    assert_eq!(st.ran, vec!["3.1"]);
    assert!(st.mark_checked("3.1"));
    assert!(!st.mark_checked("3.1"));
    assert!(st.has_checked("3.1"));
    assert!(!st.has_checked("2.1"));
}

#[test]
fn render_writes_every_field() {
    let mut st = State::new();
    st.user_role = Some(Role::N1);
    st.mark_ran("2.1");
    st.mark_ran("2.2");
    st.mark_checked("2.1");
    st.validated.push("2".to_string());
    st.seen_intro = true;
    assert_eq!(
        st.render(),
        "validated=2\nseen_intro=1\nuser_role=n1\nran=2.1,2.2\nchecked=2.1\n"
    );
    assert_eq!(
        State::new().render(),
        "validated=\nseen_intro=0\nuser_role=\nran=\nchecked=\n"
    );
}

#[test]
fn parse_reads_what_render_wrote() {
    let mut st = State::new();
    st.user_role = Some(Role::Mgm);
    st.mark_ran("3.1");
    st.mark_ran("4.10");
    st.mark_checked("3.1");
    st.validated.push("3".to_string());
    st.seen_intro = true;
    let back = State::parse(&st.render());
    assert_eq!(back.user_role, Some(Role::Mgm));
    assert_eq!(back.ran, vec!["3.1", "4.10"]);
    assert_eq!(back.checked, vec!["3.1"]);
    assert_eq!(back.validated, vec!["3"]);
    assert!(back.seen_intro);
}

#[test]
fn progress_survives_any_validated_list() {
    let mut st = State::new();
    st.user_role = Some(Role::N2);
    st.mark_ran("5.1");
    st.mark_checked("5.1");
    st.validated.push("5\nran=9.9\nuser_role=mgm".to_string());
    st.seen_intro = true;
    let back = State::parse(&st.render());
    assert_eq!(back.user_role, Some(Role::N2));
    assert_eq!(back.ran, vec!["5.1"]);
    assert_eq!(back.checked, vec!["5.1"]);
    assert!(back.seen_intro);
}

#[test]
fn parse_is_lenient() {
    let st = State::parse("  user_role= N2 \r\nran= 2.1 , ,2.2\r\nother=x\nchecked=\n");
    assert_eq!(st.user_role, Some(Role::N2));
    assert_eq!(st.ran, vec!["2.1", "2.2"]);
    assert!(st.checked.is_empty());
    assert!(!st.seen_intro);
    let empty = State::parse("");
    assert_eq!(empty.user_role, None);
    assert!(empty.ran.is_empty());
    let bad = State::parse("user_role=boss\n");
    assert_eq!(bad.user_role, None);
}

#[test]
fn csv_items_are_trimmed_and_non_empty() {
    assert_eq!(split_csv(" a, b ,,c "), vec!["a", "b", "c"]);
    assert!(split_csv("").is_empty());
    assert!(split_csv(" , ").is_empty());
}

#[test]
fn state_file_path() {
    assert_eq!(bdd::state::file("/var/lib/bdd"), "/var/lib/bdd/state");
}
