use bdd::creds::{
    collect, compact_cols, cycle_label, labels_used_by_others, move2, normalize_labels,
    options_for, tab_next, tab_prev, ColLabel, Cred,
};
use bdd::model::Role;

fn cred(label: ColLabel, user: &str, pass: &str) -> Cred {
    Cred { label, user: user.to_string(), pass: pass.to_string() }
}

fn labels(cols: &[Cred]) -> Vec<ColLabel> {
    cols.iter().map(|c| c.label).collect()
}

#[test]
fn column_labels() {
    assert_eq!(ColLabel::Any.text(), "Any");
    assert_eq!(ColLabel::Mgm.text(), "MGM");
    assert_eq!(ColLabel::N2.text(), "N2");
    assert_eq!(ColLabel::Any.role(), None);
    assert_eq!(ColLabel::N1.role(), Some(Role::N1));
}

#[test]
fn filled_columns() {
    assert!(!Cred::blank().filled());
    assert!(cred(ColLabel::Any, "a", "").filled());
    assert!(cred(ColLabel::Any, "", "p").filled());
}

#[test]
fn compaction_keeps_filled_and_one_empty() {
    let mut cols = vec![cred(ColLabel::Mgm, "a", "1"), Cred::blank(), cred(ColLabel::N1, "b", "")];
    compact_cols(&mut cols);
    assert_eq!(cols.len(), 3);
    assert_eq!(cols[0].user, "a");
    assert_eq!(cols[1].user, "b");
    assert!(!cols[2].filled());
    assert_eq!(cols[2].label, ColLabel::Any);
    let mut full = vec![cred(ColLabel::Any, "a", ""), cred(ColLabel::N1, "b", ""), cred(ColLabel::N2, "c", "")];
    compact_cols(&mut full);
    assert_eq!(full.len(), 3);
    assert!(full.iter().all(|c| c.filled()));
    let mut none: Vec<Cred> = vec![Cred::blank(), Cred::blank()];
    compact_cols(&mut none);
    assert_eq!(none.len(), 1);
}

#[test]
fn label_options_skip_labels_of_other_filled_columns() {
    let cols = vec![cred(ColLabel::Mgm, "a", ""), cred(ColLabel::N1, "", "")];
    assert_eq!(labels_used_by_others(&cols, 1), vec![ColLabel::Mgm]);
    assert!(labels_used_by_others(&cols, 0).is_empty());
    assert_eq!(options_for(&cols, 1), vec![ColLabel::Any, ColLabel::N1, ColLabel::N2]);
    let three = vec![cred(ColLabel::Any, "a", ""), cred(ColLabel::N1, "b", ""), cred(ColLabel::N2, "c", "")];
    assert_eq!(options_for(&three, 1), vec![ColLabel::Mgm, ColLabel::N1]);
}

#[test]
fn normalization_makes_filled_labels_distinct() {
    let mut cols = vec![cred(ColLabel::Mgm, "a", ""), cred(ColLabel::Mgm, "b", ""), Cred::blank()];
    normalize_labels(&mut cols);
    assert_eq!(labels(&cols), vec![ColLabel::Any, ColLabel::Mgm, ColLabel::N1]);
    let mut ok = vec![cred(ColLabel::N1, "a", ""), Cred::blank()];
    normalize_labels(&mut ok);
    assert_eq!(labels(&ok), vec![ColLabel::N1, ColLabel::Any]);
}

#[test]
fn cycling_goes_through_the_free_labels() {
    let mut cols = vec![cred(ColLabel::Any, "a", ""), cred(ColLabel::N1, "b", "")];
    cycle_label(&mut cols, 0);
    assert_eq!(cols[0].label, ColLabel::Mgm);
    cycle_label(&mut cols, 0);
    assert_eq!(cols[0].label, ColLabel::N2);
    cycle_label(&mut cols, 0);
    assert_eq!(cols[0].label, ColLabel::Any);
    assert_eq!(cols[1].label, ColLabel::N1);
}

#[test]
fn collect_keeps_columns_with_a_user() {
    let cols = vec![cred(ColLabel::Mgm, "a", "1"), cred(ColLabel::Any, "", "2"), Cred::blank()];
    let c = collect(&cols);
    assert_eq!(c.len(), 1);
    assert_eq!(c[0].user, "a");
    assert_eq!(c[0].pass, "1");
    assert_eq!(c[0].label, ColLabel::Mgm);
}

#[test]
fn tab_walks_the_grid_and_back() {
    let (mut row, mut col) = (1usize, 0usize);
    let mut path = Vec::new();
    for _ in 0..8 {
        tab_next(&mut row, &mut col, 2);
        path.push((row, col));
    }
    assert_eq!(path, vec![(2, 0), (0, 1), (1, 1), (2, 1), (3, 0), (3, 1), (0, 0), (1, 0)]);
    for _ in 0..8 {
        tab_prev(&mut row, &mut col, 2);
    }
    assert_eq!((row, col), (1, 0));
}

#[test]
fn tab_then_back_tab_returns_everywhere() {
    for ncols in 1..=3usize {
        for row in 0..=3usize {
            let maxc = if row == 3 { 2 } else { ncols };
            for col in 0..maxc {
                let (mut r, mut c) = (row, col);
                tab_next(&mut r, &mut c, ncols);
                tab_prev(&mut r, &mut c, ncols);
                assert_eq!((r, c), (row, col));
                tab_prev(&mut r, &mut c, ncols);
                tab_next(&mut r, &mut c, ncols);
                assert_eq!((r, c), (row, col));
            }
        }
    }
}

#[test]
fn arrows_stay_on_the_grid() {
    let (mut row, mut col) = (0usize, 0usize);
    move2(&mut row, &mut col, -1, 0, 2);
    assert_eq!((row, col), (0, 0));
    move2(&mut row, &mut col, 0, 1, 2);
    assert_eq!((row, col), (0, 1));
    move2(&mut row, &mut col, 0, 1, 2);
    assert_eq!((row, col), (0, 1));
    move2(&mut row, &mut col, 1, 0, 3);
    move2(&mut row, &mut col, 1, 0, 3);
    move2(&mut row, &mut col, 1, 0, 3);
    assert_eq!((row, col), (3, 1));
    move2(&mut row, &mut col, 1, 0, 3);
    assert_eq!((row, col), (3, 1));
    let (mut r2, mut c2) = (2usize, 2usize);
    move2(&mut r2, &mut c2, 1, 0, 3);
    assert_eq!((r2, c2), (3, 1));
}
