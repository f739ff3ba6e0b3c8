//! The machine's role from its internal IP (192.168.1.1/.2/.3), set up in
//! EX02. When it can be detected, it prevails over the role the user chose.
use vstd::prelude::*;
use crate::model::{Role, role_ip};
use crate::text::{split_whitespace, str_eq, words};

verus! {

/// The role of the first word that is one of the internal IPs.
pub open spec fn role_of_words(w: Seq<Seq<char>>) -> Option<Role>
    decreases w.len(),
{
    if w.len() == 0 {
        None
    } else if w[0] == role_ip(Role::Mgm) {
        Some(Role::Mgm)
    } else if w[0] == role_ip(Role::N1) {
        Some(Role::N1)
    } else if w[0] == role_ip(Role::N2) {
        Some(Role::N2)
    } else {
        role_of_words(w.drop_first())
    }
}

/// The role that the output of `hostname -I` shows: that of its first
/// address that is an internal IP.
pub fn role_from_addresses(ips: &str) -> (r: Option<Role>)
    ensures
        r == role_of_words(words(ips@)),
{
    let w = split_whitespace(ips);
    let mut i: usize = 0;
    assert(w.deep_view().subrange(0, w.len() as int) =~= w.deep_view());
    while i < w.len()
        invariant
            i <= w.len(),
            w.deep_view() == words(ips@),
            role_of_words(words(ips@)) == role_of_words(w.deep_view().subrange(i as int, w.len() as int)),
        decreases w.len() - i,
    {
        let ghost rest = w.deep_view().subrange(i as int, w.len() as int);
        assert(rest[0] == w[i as int]@);
        assert(rest.drop_first() =~= w.deep_view().subrange(i + 1, w.len() as int));
        let t = w[i].as_str();
        if str_eq(t, Role::Mgm.ip()) {
            return Some(Role::Mgm);
        } else if str_eq(t, Role::N1.ip()) {
            return Some(Role::N1);
        } else if str_eq(t, Role::N2.ip()) {
            return Some(Role::N2);
        }
        i = i + 1;
    }
    None
}

/// The origin of the effective role, as shown to the user.
pub open spec fn origin_text(detected: Option<Role>, user: Option<Role>) -> Seq<char> {
    if detected is Some {
        "detectado"@
    } else if user is Some {
        "você definiu"@
    } else {
        ""@
    }
}

/// (effective role, origin): the detected role if there is one, else the
/// role the user chose; origin "detectado", "você definiu" or "".
pub fn effective(detected: Option<Role>, user: Option<Role>) -> (r: (Option<Role>, &'static str))
    ensures
        r.0 == (if detected is Some {
            detected
        } else {
            user
        }),
        r.1@ == origin_text(detected, user),
{
    if let Some(r) = detected {
        (Some(r), "detectado")
    } else if let Some(r) = user {
        (Some(r), "você definiu")
    } else {
        (None, "")
    }
}

} // verus!
