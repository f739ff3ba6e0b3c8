use bdd::cands::{Cand, Probed};
use bdd::creds::{ColLabel, Cred};
use bdd::creds_screen::{CredsOutcome, CredsScreen};
use bdd::keys::Key;
use bdd::model::Role;
use bdd::panel::{visible_len, FG_BRIGHT, FG_NORM, PW, SR};
use bdd::select_screen::{
    log_body, probe_log_line, PickOutcome, RolePicker, Sel, SelectOutcome, SelectScreen, LROWS,
};

fn type_text(s: &mut CredsScreen, t: &str) {
    for c in t.chars() {
        s.prepare();
        assert!(s.is_ready());
        assert!(matches!(s.on_key(Key::Char(c)), CredsOutcome::Continue));
    }
}

fn key(s: &mut CredsScreen, k: Key) -> CredsOutcome {
    s.prepare();
    assert!(s.is_ready());
    s.on_key(k)
}

#[test]
fn credentials_screen_types_and_confirms() {
    let mut s = CredsScreen::new();
    assert_eq!(s.cols.len(), 1);
    assert_eq!((s.row, s.col), (1, 0));
    type_text(&mut s, "ana");
    assert!(matches!(key(&mut s, Key::Tab), CredsOutcome::Continue));
    type_text(&mut s, "pw");
    s.prepare();
    // A second, empty column appeared once the first was filled.
    assert_eq!(s.cols.len(), 2);
    match key(&mut s, Key::Enter) {
        CredsOutcome::Confirm(v) => {
            assert_eq!(v.len(), 1);
            assert_eq!(v[0].user, "ana");
            assert_eq!(v[0].pass, "pw");
            assert_eq!(v[0].label, ColLabel::Any);
        },
        _ => panic!("expected the credentials"),
    }
}

#[test]
fn credentials_screen_edits_fields() {
    let mut s = CredsScreen::new();
    type_text(&mut s, "abcdefghijklmnop");
    assert_eq!(s.cols[0].user, "abcdefghijkl");
    key(&mut s, Key::Backspace);
    assert_eq!(s.cols[0].user, "abcdefghijk");
    key(&mut s, Key::Ctrl('x'));
    assert_eq!(s.cols[0].user, "abcdefghijk");
    key(&mut s, Key::Ctrl('u'));
    assert_eq!(s.cols[0].user, "");
    key(&mut s, Key::Backspace);
    assert_eq!(s.cols[0].user, "");
}

#[test]
fn credentials_screen_cycles_labels_and_cancels() {
    let mut s = CredsScreen::new();
    type_text(&mut s, "a");
    key(&mut s, Key::Up);
    assert_eq!((s.row, s.col), (0, 0));
    key(&mut s, Key::Enter);
    assert_eq!(s.cols[0].label, ColLabel::Mgm);
    key(&mut s, Key::Enter);
    assert_eq!(s.cols[0].label, ColLabel::N1);
    assert!(matches!(key(&mut s, Key::Esc), CredsOutcome::Cancel));
}

#[test]
fn credentials_screen_buttons() {
    let mut s = CredsScreen::new();
    type_text(&mut s, "a");
    key(&mut s, Key::Down);
    key(&mut s, Key::Down);
    assert_eq!((s.row, s.col), (3, 0));
    key(&mut s, Key::Right);
    assert_eq!((s.row, s.col), (3, 1));
    assert!(matches!(key(&mut s, Key::Enter), CredsOutcome::Cancel));
}

#[test]
fn credentials_screen_keeps_at_most_three_columns() {
    let mut s = CredsScreen::new();
    for name in ["a", "b", "c"] {
        type_text(&mut s, name);
        key(&mut s, Key::Tab);
        key(&mut s, Key::Tab);
        key(&mut s, Key::Tab);
    }
    s.prepare();
    assert_eq!(s.cols.len(), 3);
    assert!(s.cols.iter().all(|c| c.filled()));
    let l: Vec<ColLabel> = s.cols.iter().map(|c| c.label).collect();
    // With three filled columns "Any" is no longer offered.
    assert_eq!(l, vec![ColLabel::N2, ColLabel::Mgm, ColLabel::N1]);
}

#[test]
fn credentials_body() {
    let mut s = CredsScreen::new();
    s.prepare();
    let b = s.body();
    assert_eq!(b.len(), 13);
    assert_eq!(b[0], "");
    assert!(b[3].contains(" user "));
    assert!(b[6].contains("senha "));
    assert!(b[3].contains("\u{25b6} "));
    assert!(b[12].contains("Ctrl+U limpa o campo"));
}

fn cred(label: ColLabel, user: &str) -> Cred {
    Cred { label, user: user.to_string(), pass: "pw".to_string() }
}

fn cand(ip: &str, suggest: Option<Role>, access: bool) -> Cand {
    Cand {
        ip: ip.to_string(),
        host: String::new(),
        intern: String::new(),
        suggest,
        working: if access { vec![cred(ColLabel::Any, "u")] } else { Vec::new() },
        role: None,
    }
}

fn skey(s: &mut SelectScreen, k: Key) -> SelectOutcome {
    s.prepare();
    assert!(s.is_ready());
    s.on_key(k)
}

#[test]
fn selection_screen_starts_sorted_with_suggested_roles() {
    let s = SelectScreen::new(vec![
        cand("192.168.0.30", None, false),
        cand("192.168.0.21", Some(Role::N2), true),
        cand("192.168.0.20", Some(Role::Mgm), true),
        cand("192.168.0.22", Some(Role::N2), true),
    ]);
    let ips: Vec<&str> = s.cands.iter().map(|c| c.ip.as_str()).collect();
    assert_eq!(ips, vec!["192.168.0.20", "192.168.0.21", "192.168.0.22", "192.168.0.30"]);
    let roles: Vec<Option<Role>> = s.cands.iter().map(|c| c.role).collect();
    assert_eq!(roles, vec![Some(Role::Mgm), Some(Role::N2), None, None]);
    assert_eq!(s.focus, Sel::List);
    assert_eq!((s.li, s.top), (0, 0));
}

#[test]
fn selection_screen_picks_roles_and_adds_machines() {
    let mut s = SelectScreen::new(vec![
        cand("192.168.0.21", Some(Role::N2), true),
        cand("192.168.0.20", Some(Role::Mgm), true),
    ]);
    assert!(matches!(skey(&mut s, Key::Up), SelectOutcome::Continue));
    assert_eq!(s.li, 1);
    assert!(matches!(skey(&mut s, Key::Down), SelectOutcome::Continue));
    assert_eq!(s.focus, Sel::AddIp);
    assert!(matches!(skey(&mut s, Key::Up), SelectOutcome::Continue));
    assert_eq!(s.focus, Sel::List);
    skey(&mut s, Key::Up);
    assert_eq!(s.li, 0);
    assert!(matches!(skey(&mut s, Key::Enter), SelectOutcome::PickRole));
    let mut p = RolePicker::new(&s.cands, s.li);
    assert_eq!(p.opts, vec![Some(Role::Mgm), Some(Role::N1), None]);
    assert_eq!(p.sel, 0);
    assert_eq!(p.on_key(Key::Down), PickOutcome::Continue);
    assert_eq!(p.on_key(Key::Enter), PickOutcome::Done(Some(Role::N1)));
    s.set_picked(Some(Role::N1));
    assert_eq!(s.cands[0].role, Some(Role::N1));
    skey(&mut s, Key::Tab);
    assert_eq!(s.focus, Sel::AddIp);
    for c in "192.168.0.40 ".chars() {
        skey(&mut s, Key::Char(c));
    }
    assert_eq!(s.add_ip, "192.168.0.40");
    skey(&mut s, Key::Tab);
    assert_eq!(s.focus, Sel::AddRole);
    match skey(&mut s, Key::Enter) {
        SelectOutcome::Probe(r) => {
            assert_eq!(r, Role::Mgm);
            let mut pr = Probed::new();
            pr.record(&cred(ColLabel::Any, "u"), Some("H:vm3\nI:10.0.0.3\n"));
            s.add_probed(pr, r);
        },
        _ => panic!("expected a probe"),
    }
    assert_eq!(s.add_ip, "");
    assert_eq!(s.cands.len(), 3);
    assert_eq!(s.cands[2].ip, "192.168.0.40");
    assert_eq!(s.cands[2].role, Some(Role::Mgm));
    s.prepare();
    // Every role is taken now: the boxes to add a machine are gone.
    assert_eq!(s.focus, Sel::List);
    skey(&mut s, Key::Tab);
    assert_eq!(s.focus, Sel::Enter);
    match skey(&mut s, Key::Enter) {
        SelectOutcome::Confirm(v) => {
            assert_eq!(v.len(), 3);
            assert_eq!((v[0].0, v[0].1.as_str()), (Role::N1, "192.168.0.20"));
            assert_eq!((v[2].0, v[2].1.as_str()), (Role::Mgm, "192.168.0.40"));
        },
        _ => panic!("expected the list"),
    }
}

#[test]
fn selection_screen_add_role_cycles_and_cancel_button() {
    let mut s = SelectScreen::new(vec![cand("192.168.0.20", Some(Role::Mgm), true)]);
    skey(&mut s, Key::Tab);
    skey(&mut s, Key::Char('1'));
    skey(&mut s, Key::Tab);
    assert_eq!(s.focus, Sel::AddRole);
    skey(&mut s, Key::Right);
    assert_eq!(s.add_role, Some(Role::N2));
    skey(&mut s, Key::Left);
    assert_eq!(s.add_role, Some(Role::N1));
    skey(&mut s, Key::Tab);
    assert_eq!(s.focus, Sel::Enter);
    skey(&mut s, Key::Tab);
    assert_eq!(s.focus, Sel::Esc);
    assert!(matches!(skey(&mut s, Key::Enter), SelectOutcome::Cancel));
    assert!(matches!(skey(&mut s, Key::Esc), SelectOutcome::Cancel));
}

#[test]
fn selection_screen_scrolls() {
    let v: Vec<Cand> = (1..=9).map(|i| cand(&format!("192.168.0.{}", i), None, true)).collect();
    let mut s = SelectScreen::new(v);
    for _ in 0..7 {
        skey(&mut s, Key::Down);
    }
    s.prepare();
    assert_eq!(s.li, 7);
    assert_eq!(s.top, 7 + 1 - LROWS);
    let b = s.body();
    assert_eq!(b.len(), 1 + LROWS + 3 + 3 + 1);
    assert!(b[LROWS].contains("192.168.0.8"));
    skey(&mut s, Key::Up);
    skey(&mut s, Key::Up);
    skey(&mut s, Key::Up);
    s.prepare();
    assert_eq!((s.li, s.top), (4, 2));
}

#[test]
fn selection_body_lines() {
    let mut c = cand("192.168.0.20", Some(Role::N1), true);
    c.host = "n1".to_string();
    c.intern = "192.168.1.2".to_string();
    let mut s = SelectScreen::new(vec![c, cand("192.168.0.9", None, false)]);
    s.prepare();
    let b = s.body();
    assert!(b[0].contains("hostname"));
    assert!(b[1].contains("192.168.0.20  n1            192.168.1.2     [N1]"));
    assert!(b[2].contains("192.168.0.9   login falhou (sem acesso)"));
    assert_eq!(visible_len(&b[1]), PW);
    assert!(b[b.len() - 1].contains("Enter define a fun\u{e7}\u{e3}o"));
}

#[test]
fn role_picker_keeps_the_role_on_escape() {
    let mut s = SelectScreen::new(vec![cand("192.168.0.20", Some(Role::N1), true)]);
    s.prepare();
    let mut p = RolePicker::new(&s.cands, 0);
    assert_eq!(p.opts, vec![Some(Role::Mgm), Some(Role::N1), Some(Role::N2), None]);
    assert_eq!(p.sel, 1);
    p.on_key(Key::Up);
    p.on_key(Key::Up);
    assert_eq!(p.sel, 0);
    for _ in 0..6 {
        p.on_key(Key::Down);
    }
    assert_eq!(p.sel, 3);
    assert_eq!(p.on_key(Key::Esc), PickOutcome::Done(Some(Role::N1)));
    let b = p.body();
    assert_eq!(b.len(), 6);
    assert!(b[5].contains("(remover)"));
    assert!(b[5].contains("\u{25b6} "));
}

#[test]
fn search_log() {
    let log: Vec<String> = (0..15).map(|i| format!("l{}", i)).collect();
    let b = log_body(&log);
    assert_eq!(b.len(), 2 + 12);
    assert_eq!(b[1], "");
    assert_eq!(b[2], format!("{}{}{}", FG_NORM, format!("l3{}", " ".repeat(PW - 2)), SR));
    assert!(b[0].starts_with(FG_BRIGHT));
    let mut p = Probed::new();
    assert_eq!(probe_log_line("192.168.0.5", &p), "  192.168.0.5: sem acesso");
    p.record(&cred(ColLabel::Any, "u"), Some("H:N2\nI:\n"));
    assert_eq!(probe_log_line("192.168.0.5", &p), "  192.168.0.5: acesso ok (N2)");
}

#[test]
fn selection_screen_a_adds_and_f2_confirms() {
    let mut s = SelectScreen::new(vec![cand("192.168.0.20", Some(Role::Mgm), true)]);
    skey(&mut s, Key::Char('a'));
    assert_eq!(s.focus, Sel::AddIp);
    skey(&mut s, Key::Char('a'));
    assert_eq!(s.add_ip, "a");
    match skey(&mut s, Key::F2) {
        SelectOutcome::Confirm(v) => {
            assert_eq!(v.len(), 1);
            assert_eq!((v[0].0, v[0].1.as_str()), (Role::Mgm, "192.168.0.20"));
        },
        _ => panic!("expected the list"),
    }
}
