use bdd::evidence::{
    mark_validated, observational_hint, pick_variant, step_draft_variants, validate_args,
    validate_exercise, validate_plan, variant_at, ValidatePlan, DRAFT_4_1_A, DRAFT_4_1_B,
    DRAFT_4_1_C, HINT_EX04, HINT_OTHER,
};
use bdd::model::{manifest, Role};
use bdd::state::State;

fn args(v: &[&str]) -> Vec<String> {
    v.iter().map(|s| s.to_string()).collect()
}

#[test]
fn validate_options() {
    assert_eq!(validate_args(&args(&["--clean", "3"])), (true, Some(1)));
    assert_eq!(validate_args(&args(&["EX03"])), (false, Some(0)));
    assert_eq!(validate_args(&args(&["--x"])), (false, None));
    assert_eq!(validate_args(&args(&[])), (false, None));
}

#[test]
fn exercise_by_argument() {
    let m = manifest();
    let st = State::new();
    assert_eq!(validate_exercise(&m, &st, Some("3")), Some(3));
    assert_eq!(validate_exercise(&m, &st, Some("EX03")), Some(3));
    assert_eq!(validate_exercise(&m, &st, Some("ex8")), Some(8));
    assert_eq!(validate_exercise(&m, &st, Some("EX07")), None);
    assert_eq!(validate_exercise(&m, &st, Some("abc")), None);
}

#[test]
fn exercise_by_default() {
    let m = manifest();
    let mut st = State::new();
    assert_eq!(validate_exercise(&m, &st, None), Some(2));
    st.mark_ran("4.2");
    assert_eq!(validate_exercise(&m, &st, None), Some(4));
    let mut all = State::new();
    for s in &m {
        all.mark_ran(&s.id());
    }
    assert_eq!(validate_exercise(&m, &all, None), Some(8));
}

#[test]
fn plan_of_evidence() {
    let m = manifest();
    let mut st = State::new();
    match validate_plan(&m, &st, 3, Role::Mgm) {
        ValidatePlan::Proofs(v) => assert_eq!(v, vec![2, 4]),
        _ => panic!("expected proofs"),
    }
    match validate_plan(&m, &st, 5, Role::Mgm) {
        ValidatePlan::NothingHere => {},
        _ => panic!("expected nothing"),
    }
    match validate_plan(&m, &st, 4, Role::N2) {
        ValidatePlan::Observational { ran_any, listed } => {
            assert!(!ran_any);
            assert_eq!(listed, vec![14, 15]);
        },
        _ => panic!("expected observational"),
    }
    st.mark_ran("4.9");
    match validate_plan(&m, &st, 4, Role::N2) {
        ValidatePlan::Observational { ran_any, listed } => {
            assert!(ran_any);
            assert_eq!(listed, vec![15]);
        },
        _ => panic!("expected observational"),
    }
}

#[test]
fn validated_exercise_is_recorded_once() {
    let mut st = State::new();
    assert!(mark_validated(&mut st, 3));
    assert!(!mark_validated(&mut st, 3));
    assert_eq!(st.validated, vec!["3"]);
}

#[test]
fn hints_and_drafts() {
    assert_eq!(observational_hint(4), HINT_EX04);
    assert_eq!(observational_hint(8), HINT_OTHER);
    assert_eq!(step_draft_variants("4.1"), &[DRAFT_4_1_A, DRAFT_4_1_B, DRAFT_4_1_C]);
    assert_eq!(step_draft_variants("4.11").len(), 3);
    assert!(step_draft_variants("3.1").is_empty());
}

#[test]
fn variants_by_number() {
    let v = [DRAFT_4_1_A, DRAFT_4_1_B, DRAFT_4_1_C];
    assert_eq!(variant_at(&v, 0), DRAFT_4_1_A);
    assert_eq!(variant_at(&v, 4), DRAFT_4_1_B);
    assert_eq!(variant_at(&v, 5), DRAFT_4_1_C);
    assert_eq!(variant_at(&[], 5), "");
}

#[test]
fn variant_pick_is_deterministic_and_one_of_them() {
    let v = step_draft_variants("4.2");
    let a = pick_variant(v, 12345, "4.2");
    let b = pick_variant(v, 12345, "4.2");
    assert_eq!(a, b);
    assert!(v.contains(&a));
    assert_eq!(pick_variant(&[], 1, "4.2"), "");
    // Over several seeds more than one variant comes up: the seed is used.
    let mut seen: Vec<&str> = Vec::new();
    for seed in 0..64u64 {
        let x = pick_variant(v, seed, "4.2");
        if !seen.contains(&x) {
            seen.push(x);
        }
    }
    assert!(seen.len() > 1);
    // The pick is mixed from seed and step, not the seed taken as it is.
    assert!((0..64u64).any(|seed| pick_variant(v, seed, "4.2") != v[(seed % 3) as usize]));
}
