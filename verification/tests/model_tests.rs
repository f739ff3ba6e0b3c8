use bdd::model::{exercises, find, manifest, Role};

#[test]
fn role_codes_names_and_addresses() {
    assert_eq!(Role::Mgm.code(), "mgm");
    assert_eq!(Role::N1.code(), "n1");
    assert_eq!(Role::N2.code(), "n2");
    assert_eq!(Role::Mgm.name(), "MGM");
    assert_eq!(Role::N1.name(), "N1");
    assert_eq!(Role::N2.name(), "N2");
    assert_eq!(Role::Mgm.ip(), "192.168.1.1");
    assert_eq!(Role::N1.ip(), "192.168.1.2");
    assert_eq!(Role::N2.ip(), "192.168.1.3");
}

#[test]
fn role_from_str_takes_codes_numbers_any_case_and_spaces() {
    assert_eq!(Role::from_str("mgm"), Some(Role::Mgm));
    assert_eq!(Role::from_str("1"), Some(Role::Mgm));
    assert_eq!(Role::from_str("MGM"), Some(Role::Mgm));
    assert_eq!(Role::from_str("  Mgm\n"), Some(Role::Mgm));
    assert_eq!(Role::from_str(" N1 "), Some(Role::N1));
    assert_eq!(Role::from_str("2"), Some(Role::N1));
    assert_eq!(Role::from_str("n2"), Some(Role::N2));
    assert_eq!(Role::from_str("3"), Some(Role::N2));
}

#[test]
fn role_from_str_refuses_other_text() {
    assert_eq!(Role::from_str(""), None);
    assert_eq!(Role::from_str("4"), None);
    assert_eq!(Role::from_str("n3"), None);
    assert_eq!(Role::from_str("manager"), None);
    assert_eq!(Role::from_str("m g m"), None);
}

#[test]
fn role_names_and_codes_read_back() {
    for r in Role::all() {
        assert_eq!(Role::from_str(r.code()), Some(r));
        assert_eq!(Role::from_str(r.name()), Some(r));
    }
}

#[test]
fn roles_in_cluster_order() {
    assert_eq!(Role::all(), [Role::Mgm, Role::N1, Role::N2]);
}

#[test]
fn manifest_lists_the_steps_in_order() {
    let m = manifest();
    let ids: Vec<String> = m.iter().map(|s| s.id()).collect();
    let expected = vec![
        "2.1", "2.2", "3.1", "3.2", "3.3", "3.4", "3.5", "4.1", "4.2", "4.3", "4.4", "4.5", "4.6",
        "4.7", "4.8", "4.9", "4.10", "4.11", "5.1", "5.2", "8.0", "8.1", "8.2", "8.3", "8.4", "8.5",
        "8.6", "8.7",
    ];
    assert_eq!(ids, expected);
}

#[test]
fn manifest_ids_are_unique() {
    let m = manifest();
    for i in 0..m.len() {
        for j in 0..m.len() {
            if i != j {
                assert_ne!(m[i].id(), m[j].id());
            }
        }
    }
}

#[test]
fn exercises_of_the_manifest() {
    assert_eq!(exercises(&manifest()), vec![2, 3, 4, 5, 8]);
}

#[test]
fn find_by_id() {
    let m = manifest();
    let s = find(&m, "3.2").unwrap();
    assert_eq!(s.title, "Instalar o nó de dados (ndbd + mysqld)");
    assert_eq!(s.ex, 3);
    assert_eq!(s.st, 2);
    assert!(find(&m, "9.9").is_none());
    assert!(find(&m, "3.02").is_none());
}

#[test]
fn machines_labels() {
    let m = manifest();
    assert_eq!(find(&m, "2.1").unwrap().machines_label(), "todas");
    assert_eq!(find(&m, "3.2").unwrap().machines_label(), "N1 e N2");
    assert_eq!(find(&m, "3.1").unwrap().machines_label(), "MGM");
    assert_eq!(find(&m, "4.8").unwrap().machines_label(), "N2");
}

#[test]
fn steps_run_on_their_machines() {
    let m = manifest();
    let s = find(&m, "3.2").unwrap();
    assert!(s.for_role(Role::N1));
    assert!(s.for_role(Role::N2));
    assert!(!s.for_role(Role::Mgm));
}

#[test]
fn observational_and_optional_steps() {
    let m = manifest();
    let s = find(&m, "4.3").unwrap();
    assert_eq!(s.validate, "");
    assert_eq!(s.proof, "");
    assert!(!s.optional);
    let o = find(&m, "8.0").unwrap();
    assert!(o.optional);
    assert_eq!(o.title, "(opcional) Liberar memória parando o MySQL Cluster");
    assert_eq!(find(&m, "8.7").unwrap().validate, "");
    assert_eq!(find(&m, "3.1").unwrap().validate, "pgrep -x ndb_mgmd >/dev/null 2>&1");
}
