use bdd::detect::{effective, role_from_addresses};
use bdd::model::Role;

#[test]
fn role_from_internal_address() {
    assert_eq!(role_from_addresses("10.0.2.15 192.168.1.2 \n"), Some(Role::N1));
    assert_eq!(role_from_addresses("192.168.1.1"), Some(Role::Mgm));
    assert_eq!(role_from_addresses("192.168.1.3 192.168.1.1"), Some(Role::N2));
    assert_eq!(role_from_addresses("10.0.2.15 192.168.1.20"), None);
    assert_eq!(role_from_addresses(""), None);
}

#[test]
fn detected_role_prevails() {
    assert_eq!(effective(Some(Role::N2), Some(Role::Mgm)), (Some(Role::N2), "detectado"));
    assert_eq!(effective(None, Some(Role::Mgm)), (Some(Role::Mgm), "você definiu"));
    assert_eq!(effective(None, None), (None, ""));
}
