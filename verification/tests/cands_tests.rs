use bdd::cands::{
    add_found, first_subnet, install_scripts_command, scan_round, SCAN_PASSES, SCRIPTS_DIR, add_candidate, add_role_for, addresses_from_hostname, addresses_from_ip, all_roles_taken,
    assign_role, cycle_free_role, first_free_role, fix_roles, gather, install_command,
    pending_targets, preset_roles, role_choices, role_from, scan_targets, set_role, sort_by_last_octet,
    sort_cands, stable_sort_indices, subnet_base, Cand, Probed,
};
use bdd::creds::{ColLabel, Cred};
use bdd::model::Role;

fn cred(label: ColLabel, user: &str) -> Cred {
    Cred { label, user: user.to_string(), pass: "pw".to_string() }
}

fn cand(ip: &str, suggest: Option<Role>, access: bool, role: Option<Role>) -> Cand {
    Cand {
        ip: ip.to_string(),
        host: String::new(),
        intern: String::new(),
        suggest,
        working: if access { vec![cred(ColLabel::Any, "u")] } else { Vec::new() },
        role,
    }
}

fn roles(c: &[Cand]) -> Vec<Option<Role>> {
    c.iter().map(|x| x.role).collect()
}

fn ips(c: &[Cand]) -> Vec<String> {
    c.iter().map(|x| x.ip.clone()).collect()
}

#[test]
fn subnet_of_an_address() {
    assert_eq!(subnet_base("192.168.0.21"), Some("192.168.0".to_string()));
    assert_eq!(subnet_base("127.0.0.1"), None);
    assert_eq!(subnet_base("10.0.0"), None);
    assert_eq!(subnet_base("1.2.3.4.5"), None);
}

#[test]
fn host_addresses_from_ip_output() {
    let out = "1: lo    inet 127.0.0.1/8 scope host lo\\       valid_lft forever\n2: enp0s3    inet 192.168.0.10/24 brd 192.168.0.255 scope global dynamic enp0s3\n3: enp0s8    inet 192.168.1.1/24 brd 192.168.1.255 scope global enp0s8\n";
    assert_eq!(addresses_from_ip(out), vec!["192.168.0.10", "192.168.1.1"]);
    assert!(addresses_from_ip("").is_empty());
}

#[test]
fn host_addresses_from_hostname_output() {
    assert_eq!(
        addresses_from_hostname("192.168.0.10 10.0.2.15 127.0.1.1 fe80::1 \n"),
        vec!["192.168.0.10", "10.0.2.15"]
    );
}

#[test]
fn scan_targets_skip_the_host() {
    let t = scan_targets("192.168.0", &vec!["192.168.0.21".to_string()]);
    assert_eq!(t.len(), 253);
    assert_eq!(t[0], "192.168.0.1");
    assert_eq!(t[252], "192.168.0.254");
    assert!(!t.contains(&"192.168.0.21".to_string()));
    assert_eq!(scan_targets("10.0.0", &Vec::new()).len(), 254);
}

#[test]
fn pending_are_those_not_found() {
    let t = vec!["a".to_string(), "b".to_string(), "c".to_string()];
    let found = vec!["b".to_string()];
    assert_eq!(pending_targets(&t, &found), vec!["a", "c"]);
}

#[test]
fn addresses_sorted_by_last_number() {
    let v = vec![
        "192.168.0.30".to_string(),
        "192.168.0.4".to_string(),
        "10.0.0.4".to_string(),
        "x".to_string(),
    ];
    assert_eq!(sort_by_last_octet(&v), vec!["x", "192.168.0.4", "10.0.0.4", "192.168.0.30"]);
}

#[test]
fn stable_sort_order() {
    let keys = vec![(8u64, 3u64), (0, 0), (8, 1), (0, 0)];
    assert_eq!(stable_sort_indices(&keys), vec![1, 3, 2, 0]);
}

#[test]
fn role_suggested_by_hostname_or_address() {
    assert_eq!(role_from("mgm\n", ""), Some(Role::Mgm));
    assert_eq!(role_from(" N1 ", "10.0.0.1"), Some(Role::N1));
    assert_eq!(role_from("node", "10.0.0.1 192.168.1.3"), Some(Role::N2));
    assert_eq!(role_from("node", "192.168.1.1"), Some(Role::Mgm));
    assert_eq!(role_from("x", "192.168.1.30"), None);
    assert_eq!(role_from("", ""), None);
}

#[test]
fn probe_records_logins_and_the_first_details() {
    let mut p = Probed::new();
    p.record(&cred(ColLabel::Mgm, "a"), None);
    assert!(p.working.is_empty());
    p.record(&cred(ColLabel::Any, "b"), Some("H:N2\nI:192.168.0.21 192.168.1.3 \n"));
    assert_eq!(p.working.len(), 1);
    assert_eq!(p.host, "N2");
    assert_eq!(p.intern, "192.168.1.3");
    assert_eq!(p.suggest, Some(Role::N2));
    p.record(&cred(ColLabel::N1, "c"), Some("H:other\nI:192.168.1.2\n"));
    assert_eq!(p.working.len(), 2);
    assert_eq!(p.host, "N2");
    assert_eq!(p.suggest, Some(Role::N2));
}

#[test]
fn credential_for_a_role() {
    let mut c = cand("1.1.1.1", None, false, None);
    c.working = vec![cred(ColLabel::N1, "n1"), cred(ColLabel::Any, "any"), cred(ColLabel::Mgm, "m")];
    assert_eq!(c.cred_for(Role::Mgm).unwrap().user, "m");
    assert_eq!(c.cred_for(Role::N2).unwrap().user, "any");
    c.working = vec![cred(ColLabel::N1, "n1")];
    assert_eq!(c.cred_for(Role::N2).unwrap().user, "n1");
    c.working = Vec::new();
    assert!(c.cred_for(Role::N2).is_none());
    assert!(!c.accessible());
}

#[test]
fn listing_order() {
    let mut c = vec![
        cand("192.168.0.30", None, false, None),
        cand("192.168.0.21", Some(Role::N2), true, None),
        cand("192.168.0.9", None, true, None),
        cand("192.168.0.20", Some(Role::Mgm), true, None),
        cand("192.168.0.25", Some(Role::N1), false, None),
    ];
    sort_cands(&mut c);
    assert_eq!(
        ips(&c),
        vec!["192.168.0.20", "192.168.0.21", "192.168.0.9", "192.168.0.25", "192.168.0.30"]
    );
}

#[test]
fn roles_preset_then_fixed() {
    let mut c = vec![
        cand("a", Some(Role::N1), true, None),
        cand("b", Some(Role::N1), true, None),
        cand("c", Some(Role::Mgm), false, None),
    ];
    preset_roles(&mut c);
    assert_eq!(roles(&c), vec![Some(Role::N1), Some(Role::N1), None]);
    fix_roles(&mut c);
    assert_eq!(roles(&c), vec![Some(Role::N1), None, None]);
}

#[test]
fn assigning_a_role_takes_it_from_others() {
    let mut c = vec![
        cand("a", None, true, Some(Role::N1)),
        cand("b", None, true, Some(Role::Mgm)),
        cand("c", None, true, None),
    ];
    assign_role(&mut c, 2, Role::N1);
    assert_eq!(roles(&c), vec![None, Some(Role::Mgm), Some(Role::N1)]);
    set_role(&mut c, 1, None);
    assert_eq!(roles(&c), vec![None, None, Some(Role::N1)]);
}

#[test]
fn free_roles() {
    let mut c = vec![cand("a", None, true, Some(Role::Mgm)), cand("b", None, true, None)];
    assert_eq!(first_free_role(&c), Some(Role::N1));
    assert!(!all_roles_taken(&c));
    assert_eq!(cycle_free_role(&c, None, true), Some(Role::N2));
    assert_eq!(cycle_free_role(&c, Some(Role::N2), true), Some(Role::N1));
    assert_eq!(cycle_free_role(&c, Some(Role::N1), false), Some(Role::N2));
    assert_eq!(cycle_free_role(&c, Some(Role::Mgm), false), Some(Role::N2));
    c[1].role = Some(Role::N1);
    c.push(cand("c", None, true, Some(Role::N2)));
    assert!(all_roles_taken(&c));
    assert_eq!(first_free_role(&c), None);
    assert_eq!(cycle_free_role(&c, None, true), None);
}

#[test]
fn role_choices_for_a_machine() {
    let c = vec![
        cand("a", None, true, Some(Role::Mgm)),
        cand("b", None, true, Some(Role::N2)),
    ];
    assert_eq!(role_choices(&c, 0), vec![Some(Role::Mgm), Some(Role::N1), None]);
    assert_eq!(role_choices(&c, 1), vec![Some(Role::N1), Some(Role::N2), None]);
}

#[test]
fn role_for_a_machine_added_by_hand() {
    let c = vec![cand("a", None, true, Some(Role::Mgm))];
    assert_eq!(add_role_for(&c, "", Some(Role::N2)), None);
    assert_eq!(add_role_for(&c, "1.2.3.4", Some(Role::N2)), Some(Role::N2));
    assert_eq!(add_role_for(&c, "1.2.3.4", None), Some(Role::N1));
}

#[test]
fn adding_a_machine() {
    let mut c = vec![cand("192.168.0.5", Some(Role::Mgm), true, Some(Role::Mgm))];
    add_candidate(&mut c, cand("192.168.0.40", None, true, None), Role::N1);
    add_candidate(&mut c, cand("192.168.0.3", None, false, None), Role::N2);
    assert_eq!(ips(&c), vec!["192.168.0.5", "192.168.0.3", "192.168.0.40"]);
    assert_eq!(roles(&c), vec![Some(Role::Mgm), None, Some(Role::N1)]);
}

#[test]
fn install_list() {
    let mut a = cand("192.168.0.20", None, true, Some(Role::Mgm));
    a.working = vec![cred(ColLabel::N1, "n1"), cred(ColLabel::Mgm, "m")];
    let b = cand("192.168.0.21", None, true, None);
    let d = cand("192.168.0.22", None, false, Some(Role::N2));
    let e = cand("192.168.0.23", None, true, Some(Role::N1));
    let g = gather(&vec![a, b, d, e]);
    assert_eq!(g.len(), 2);
    assert_eq!(g[0].0, Role::Mgm);
    assert_eq!(g[0].1, "192.168.0.20");
    assert_eq!(g[0].2.user, "m");
    assert_eq!(g[1].0, Role::N1);
    assert_eq!(g[1].1, "192.168.0.23");
    assert_eq!(g[1].2.user, "u");
}

#[test]
fn remote_install_command() {
    assert_eq!(
        install_command("s3cr", Role::N1),
        "echo 's3cr' | sudo -S -p '' sh -c 'install -m 0755 /tmp/bdd /usr/local/bin/bdd && mkdir -p /var/lib/bdd && chmod 777 /var/lib/bdd && rm -f /tmp/bdd' && /usr/local/bin/bdd id n1 >/dev/null"
    );
}

#[test]
fn network_of_the_first_usable_address() {
    let v = vec!["127.0.0.1".to_string(), "fe80".to_string(), "192.168.0.10".to_string(), "10.0.0.2".to_string()];
    assert_eq!(first_subnet(&v), Some("192.168.0".to_string()));
    assert_eq!(first_subnet(&Vec::new()), None);
}

#[test]
fn scan_passes_retry_the_silent_addresses() {
    let targets = vec!["a".to_string(), "b".to_string(), "c".to_string()];
    let mut found: Vec<String> = Vec::new();
    assert_eq!(scan_round(&targets, &found, 0), Some(targets.clone()));
    add_found(&mut found, &vec!["b".to_string()]);
    assert_eq!(scan_round(&targets, &found, 1), Some(vec!["a".to_string(), "c".to_string()]));
    add_found(&mut found, &vec!["c".to_string(), "b".to_string(), "c".to_string()]);
    assert_eq!(found, vec!["b", "c"]);
    assert_eq!(scan_round(&targets, &found, SCAN_PASSES), None);
    add_found(&mut found, &vec!["a".to_string()]);
    assert_eq!(scan_round(&targets, &found, 2), None);
}

#[test]
fn remote_scripts_command() {
    assert_eq!(SCRIPTS_DIR, "/usr/local/share/bdd");
    assert_eq!(
        install_scripts_command("pw"),
        "echo 'pw' | sudo -S -p '' sh -c 'mkdir -p /usr/local/share/bdd && cp -R /tmp/bdd-scripts/. /usr/local/share/bdd/ && rm -rf /tmp/bdd-scripts'"
    );
}

#[test]
fn cycling_forward_then_back_returns() {
    let empty: Vec<Cand> = Vec::new();
    for r in [Role::Mgm, Role::N1, Role::N2] {
        let fwd = cycle_free_role(&empty, Some(r), true);
        assert_eq!(cycle_free_role(&empty, fwd, false), Some(r));
        let back = cycle_free_role(&empty, Some(r), false);
        assert_eq!(cycle_free_role(&empty, back, true), Some(r));
    }
    let c = vec![cand("a", None, true, Some(Role::N1))];
    let fwd = cycle_free_role(&c, Some(Role::Mgm), true);
    assert_eq!(fwd, Some(Role::N2));
    assert_eq!(cycle_free_role(&c, fwd, false), Some(Role::Mgm));
}
