//! The machines found by `bdd inject`: which network to scan, what a probe
//! tells of a machine, the order in which they are listed and the roles
//! assigned to them.
use vstd::prelude::*;
use crate::creds::{ColLabel, Cred, CredView, creds_view, label_role};
use crate::model::{Role, role_code, role_ip};
use crate::text::{
    contains_text, dec, has_sub, joined, lemma_split_nonempty, lower, lowered, parse_uint,
    parsed_uint, split,
    split_on, split_whitespace, str_eq, strip_prefix, trim, trimmed, u8_to_string, words,
};
use crate::state::{after_prefix, has_prefix};

verus! {

/// A machine that answered on the SSH port.
#[derive(Debug)]
pub struct Cand {
    pub ip: String,
    pub host: String,
    /// Its internal address (192.168.1.x), if it has one.
    pub intern: String,
    /// The role suggested by its hostname or internal address.
    pub suggest: Option<Role>,
    /// The credentials that logged in.
    pub working: Vec<Cred>,
    /// The role assigned to it.
    pub role: Option<Role>,
}

pub struct CandView {
    pub ip: Seq<char>,
    pub host: Seq<char>,
    pub intern: Seq<char>,
    pub suggest: Option<Role>,
    pub working: Seq<CredView>,
    pub role: Option<Role>,
}

impl View for Cand {
    type V = CandView;

    open spec fn view(&self) -> CandView {
        CandView {
            ip: self.ip@,
            host: self.host@,
            intern: self.intern@,
            suggest: self.suggest,
            working: creds_view(self.working@),
            role: self.role,
        }
    }
}

pub open spec fn cands_view(c: Seq<Cand>) -> Seq<CandView> {
    c.map_values(|x: Cand| x@)
}

/// The index of the first credential, from index `i` on, whose label is role `r`.
pub open spec fn first_for_role(w: Seq<CredView>, r: Role, i: nat) -> Option<int>
    decreases w.len() - i,
{
    if i >= w.len() {
        None
    } else if label_role(w[i as int].label) == Some(r) {
        Some(i as int)
    } else {
        first_for_role(w, r, i + 1)
    }
}

/// The index of the first credential, from index `i` on, labelled "Any".
pub open spec fn first_any(w: Seq<CredView>, i: nat) -> Option<int>
    decreases w.len() - i,
{
    if i >= w.len() {
        None
    } else if w[i as int].label == ColLabel::Any {
        Some(i as int)
    } else {
        first_any(w, i + 1)
    }
}

/// The credential to use for role `r`: the first labelled with it, else the
/// first labelled "Any", else the first that worked.
pub open spec fn cred_choice(w: Seq<CredView>, r: Role) -> Option<int> {
    match first_for_role(w, r, 0) {
        Some(i) => Some(i),
        None => match first_any(w, 0) {
            Some(i) => Some(i),
            None => if w.len() > 0 {
                Some(0)
            } else {
                None
            },
        },
    }
}

impl Cand {
    /// Whether some credential logged in.
    pub fn accessible(&self) -> (b: bool)
        ensures
            b == (self@.working.len() > 0),
    {
        self.working.len() > 0
    }

    /// The credential to use for role `r`.
    pub fn cred_for(&self, r: Role) -> (c: Option<&Cred>)
        ensures
            match cred_choice(self@.working, r) {
                Some(i) => c matches Some(x) && x@ == self@.working[i],
                None => c is None,
            },
    {
        let w = &self.working;
        let mut i: usize = 0;
        while i < w.len()
            invariant
                i <= w@.len(),
                self@.working == creds_view(w@),
                first_for_role(creds_view(w@), r, 0) == first_for_role(creds_view(w@), r, i as nat),
            decreases w@.len() - i,
        {
            if w[i].label.role() == Some(r) {
                return Some(&w[i]);
            }
            i = i + 1;
        }
        let mut j: usize = 0;
        while j < w.len()
            invariant
                j <= w@.len(),
                self@.working == creds_view(w@),
                first_for_role(creds_view(w@), r, 0) is None,
                first_any(creds_view(w@), 0) == first_any(creds_view(w@), j as nat),
            decreases w@.len() - j,
        {
            if w[j].label == ColLabel::Any {
                return Some(&w[j]);
            }
            j = j + 1;
        }
        if w.len() > 0 {
            Some(&w[0])
        } else {
            None
        }
    }

    /// A copy of the candidate.
    pub fn duplicate(&self) -> (r: Cand)
        ensures
            r@ == self@,
    {
        let mut w: Vec<Cred> = Vec::new();
        let mut i: usize = 0;
        while i < self.working.len()
            invariant
                i <= self.working@.len(),
                creds_view(w@) == creds_view(self.working@).subrange(0, i as int),
            decreases self.working@.len() - i,
        {
            let ghost o = creds_view(w@);
            let c = self.working[i].duplicate();
            w.push(c);
            assert(creds_view(w@) =~= o.push(c@));
            assert(creds_view(w@) =~= creds_view(self.working@).subrange(0, i + 1));
            i = i + 1;
        }
        assert(creds_view(self.working@).subrange(0, self.working@.len() as int) =~= creds_view(
            self.working@,
        ));
        Cand {
            ip: self.ip.clone(),
            host: self.host.clone(),
            intern: self.intern.clone(),
            suggest: self.suggest,
            working: w,
            role: self.role,
        }
    }
}

// ------------------------------------------------------------------ network

/// The first three numbers of a dotted address, when it has four parts and
/// is not a loopback one.
pub open spec fn subnet_of(ip: Seq<char>) -> Option<Seq<char>> {
    let p = split_on(ip, '.');
    if p.len() == 4 && p[0] != "127"@ {
        Some(p[0] + "."@ + p[1] + "."@ + p[2])
    } else {
        None
    }
}

/// The network (first three numbers) of the host's address.
pub fn subnet_base(ip: &str) -> (r: Option<String>)
    ensures
        match r {
            Some(s) => subnet_of(ip@) == Some(s@),
            None => subnet_of(ip@) is None,
        },
{
    let p = split(ip, '.');
    if p.len() == 4 && !str_eq(p[0].as_str(), "127") {
        let mut s = p[0].clone();
        s.append(".");
        s.append(p[1].as_str());
        s.append(".");
        s.append(p[2].as_str());
        Some(s)
    } else {
        None
    }
}

/// The address of a line of `ip -o -4 addr show`: its fourth word up to the
/// "/", unless it is a loopback address.
pub open spec fn line_addr(line: Seq<char>) -> Option<Seq<char>> {
    let w = words(line);
    if w.len() > 3 {
        let ip = split_on(w[3], '/')[0];
        if has_prefix(ip, "127."@) {
            None
        } else {
            Some(ip)
        }
    } else {
        None
    }
}

/// The addresses of the lines, in order.
pub open spec fn line_addrs(lines: Seq<Seq<char>>) -> Seq<Seq<char>>
    decreases lines.len(),
{
    if lines.len() == 0 {
        Seq::empty()
    } else {
        let r = line_addrs(lines.drop_last());
        match line_addr(lines.last()) {
            Some(a) => r.push(a),
            None => r,
        }
    }
}

/// The host's addresses in the output of `ip -o -4 addr show scope global`.
pub fn addresses_from_ip(out: &str) -> (r: Vec<String>)
    ensures
        r.deep_view() == line_addrs(split_on(out@, '\n')),
{
    let lines = split(out, '\n');
    let ghost lv = lines.deep_view();
    let mut v: Vec<String> = Vec::new();
    let mut i: usize = 0;
    assert(lv.subrange(0, 0) =~= Seq::<Seq<char>>::empty());
    assert(v.deep_view() =~= Seq::<Seq<char>>::empty());
    while i < lines.len()
        invariant
            i <= lines.len(),
            lv == lines.deep_view(),
            v.deep_view() == line_addrs(lv.subrange(0, i as int)),
        decreases lines.len() - i,
    {
        assert(lv.subrange(0, i + 1).drop_last() =~= lv.subrange(0, i as int));
        assert(lv.subrange(0, i + 1).last() == lines[i as int]@);
        let w = split_whitespace(lines[i].as_str());
        if w.len() > 3 {
            let parts = split(w[3].as_str(), '/');
            proof {
                lemma_split_nonempty(w[3]@, '/');
            }
            let ip = &parts[0];
            if strip_prefix(ip.as_str(), "127.").is_none() {
                let ghost before = v.deep_view();
                v.push(ip.clone());
                assert(v.deep_view() =~= before.push(ip@));
            }
        }
        i = i + 1;
    }
    assert(lv.subrange(0, lines.len() as int) =~= lv);
    v
}

/// The words that look like IPv4 addresses (they hold a ".") and are not
/// loopback ones, in order.
pub open spec fn dotted_words(w: Seq<Seq<char>>) -> Seq<Seq<char>>
    decreases w.len(),
{
    if w.len() == 0 {
        Seq::empty()
    } else {
        let r = dotted_words(w.drop_last());
        let t = w.last();
        if has_sub(t, "."@) && !has_prefix(t, "127."@) {
            r.push(t)
        } else {
            r
        }
    }
}

/// The host's addresses in the output of `hostname -I`.
pub fn addresses_from_hostname(out: &str) -> (r: Vec<String>)
    ensures
        r.deep_view() == dotted_words(words(out@)),
{
    let w = split_whitespace(out);
    let ghost wv = w.deep_view();
    let mut v: Vec<String> = Vec::new();
    let mut i: usize = 0;
    assert(wv.subrange(0, 0) =~= Seq::<Seq<char>>::empty());
    assert(v.deep_view() =~= Seq::<Seq<char>>::empty());
    while i < w.len()
        invariant
            i <= w.len(),
            wv == w.deep_view(),
            v.deep_view() == dotted_words(wv.subrange(0, i as int)),
        decreases w.len() - i,
    {
        assert(wv.subrange(0, i + 1).drop_last() =~= wv.subrange(0, i as int));
        assert(wv.subrange(0, i + 1).last() == w[i as int]@);
        let t = w[i].as_str();
        if contains_text(t, ".") && strip_prefix(t, "127.").is_none() {
            let ghost before = v.deep_view();
            v.push(w[i].clone());
            assert(v.deep_view() =~= before.push(w[i as int]@));
        }
        i = i + 1;
    }
    assert(wv.subrange(0, w.len() as int) =~= wv);
    v
}

/// The command run on a machine, after its binary was copied to /tmp, to
/// install `bdd` (as root, with the password on stdin) and set the role.
pub open spec fn install_command_text(pass: Seq<char>, r: Role) -> Seq<char> {
    "echo '"@ + pass
        + "' | sudo -S -p '' sh -c 'install -m 0755 /tmp/bdd /usr/local/bin/bdd && mkdir -p /var/lib/bdd && chmod 777 /var/lib/bdd && rm -f /tmp/bdd' && /usr/local/bin/bdd id "@
        + role_code(r) + " >/dev/null"@
}

/// The remote command that installs `bdd` on a machine with role `r`.
pub fn install_command(pass: &str, r: Role) -> (c: String)
    ensures
        c@ == install_command_text(pass@, r),
{
    let mut c = "echo '".to_string();
    c.append(pass);
    c.append(
        "' | sudo -S -p '' sh -c 'install -m 0755 /tmp/bdd /usr/local/bin/bdd && mkdir -p /var/lib/bdd && chmod 777 /var/lib/bdd && rm -f /tmp/bdd' && /usr/local/bin/bdd id ",
    );
    c.append(r.code());
    c.append(" >/dev/null");
    c
}

/// The network of the first address that has one.
pub open spec fn first_subnet_from(ips: Seq<Seq<char>>, i: nat) -> Option<Seq<char>>
    decreases ips.len() - i,
{
    if i >= ips.len() {
        None
    } else if subnet_of(ips[i as int]) is Some {
        subnet_of(ips[i as int])
    } else {
        first_subnet_from(ips, i + 1)
    }
}

/// The network to scan: that of the host's first address that has one.
pub fn first_subnet(ips: &Vec<String>) -> (r: Option<String>)
    ensures
        match r {
            Some(s) => first_subnet_from(ips.deep_view(), 0) == Some(s@),
            None => first_subnet_from(ips.deep_view(), 0) is None,
        },
{
    let mut i: usize = 0;
    while i < ips.len()
        invariant
            i <= ips.len(),
            first_subnet_from(ips.deep_view(), 0) == first_subnet_from(ips.deep_view(), i as nat),
        decreases ips.len() - i,
    {
        assert(ips.deep_view()[i as int] == ips[i as int]@);
        if let Some(b) = subnet_base(ips[i].as_str()) {
            return Some(b);
        }
        i = i + 1;
    }
    None
}

/// The number of passes of the scan: the addresses that did not answer are
/// tried again, up to this many times in all.
pub const SCAN_PASSES: u8 = 3;

/// The addresses to try in the next pass of the scan, after `passes` passes:
/// those that have not answered, while some are left and passes remain.
pub fn scan_round(targets: &Vec<String>, found: &Vec<String>, passes: u8) -> (r: Option<Vec<String>>)
    ensures
        match r {
            Some(p) => passes < SCAN_PASSES && p.deep_view() == not_found(
                targets.deep_view(),
                found.deep_view(),
            ) && p.deep_view().len() > 0,
            None => passes >= SCAN_PASSES || not_found(targets.deep_view(), found.deep_view()).len()
                == 0,
        },
{
    if passes >= SCAN_PASSES {
        return None;
    }
    let p = pending_targets(targets, found);
    if p.len() == 0 {
        None
    } else {
        Some(p)
    }
}

/// The addresses found so far with the new ones that answered, each once.
pub open spec fn with_new(found: Seq<Seq<char>>, new: Seq<Seq<char>>) -> Seq<Seq<char>>
    decreases new.len(),
{
    if new.len() == 0 {
        found
    } else {
        let f = with_new(found, new.drop_last());
        if f.contains(new.last()) {
            f
        } else {
            f.push(new.last())
        }
    }
}

/// Adds to the addresses found those of a pass that are not there yet.
pub fn add_found(found: &mut Vec<String>, new: &Vec<String>)
    ensures
        final(found).deep_view() == with_new(old(found).deep_view(), new.deep_view()),
{
    let ghost f0 = found.deep_view();
    let ghost nv = new.deep_view();
    let mut i: usize = 0;
    assert(nv.subrange(0, 0) =~= Seq::<Seq<char>>::empty());
    while i < new.len()
        invariant
            i <= new.len(),
            nv == new.deep_view(),
            found.deep_view() == with_new(f0, nv.subrange(0, i as int)),
        decreases new.len() - i,
    {
        assert(nv.subrange(0, i + 1).drop_last() =~= nv.subrange(0, i as int));
        assert(nv.subrange(0, i + 1).last() == new[i as int]@);
        if !contains_string(found, new[i].as_str()) {
            let ghost before = found.deep_view();
            found.push(new[i].clone());
            assert(found.deep_view() =~= before.push(new[i as int]@));
        }
        i = i + 1;
    }
    assert(nv.subrange(0, new.len() as int) =~= nv);
}

/// Where the step scripts live on a machine.
pub const SCRIPTS_DIR: &'static str = "/usr/local/share/bdd";

/// The command run on a machine, after the step scripts were copied to
/// /tmp/bdd-scripts, to put them (as root, with the password on stdin) where
/// `bdd X.Y` reads them.
pub open spec fn scripts_command_text(pass: Seq<char>) -> Seq<char> {
    "echo '"@ + pass + "' | sudo -S -p '' sh -c 'mkdir -p "@ + SCRIPTS_DIR@
        + " && cp -R /tmp/bdd-scripts/. "@ + SCRIPTS_DIR@ + "/ && rm -rf /tmp/bdd-scripts'"@
}

/// The remote command that installs the step scripts on a machine.
pub fn install_scripts_command(pass: &str) -> (c: String)
    ensures
        c@ == scripts_command_text(pass@),
{
    let mut c = "echo '".to_string();
    c.append(pass);
    c.append("' | sudo -S -p '' sh -c 'mkdir -p ");
    c.append(SCRIPTS_DIR);
    c.append(" && cp -R /tmp/bdd-scripts/. ");
    c.append(SCRIPTS_DIR);
    c.append("/ && rm -rf /tmp/bdd-scripts'");
    c
}

/// The address `base.o`.
pub open spec fn host_addr(base: Seq<char>, o: nat) -> Seq<char> {
    base + "."@ + dec(o)
}

/// The addresses `base.1` to `base.n`, without the excluded ones.
pub open spec fn targets_upto(base: Seq<char>, exclude: Seq<Seq<char>>, n: nat) -> Seq<Seq<char>>
    decreases n,
{
    if n == 0 {
        Seq::empty()
    } else if exclude.contains(host_addr(base, n)) {
        targets_upto(base, exclude, (n - 1) as nat)
    } else {
        targets_upto(base, exclude, (n - 1) as nat).push(host_addr(base, n))
    }
}

fn contains_string(v: &Vec<String>, s: &str) -> (b: bool)
    ensures
        b == v.deep_view().contains(s@),
{
    let mut i: usize = 0;
    while i < v.len()
        invariant
            i <= v.len(),
            forall|j: int| 0 <= j < i ==> v.deep_view()[j] != s@,
        decreases v.len() - i,
    {
        if str_eq(v[i].as_str(), s) {
            assert(v.deep_view()[i as int] == s@);
            return true;
        }
        i = i + 1;
    }
    false
}

/// The addresses to scan: `base.1` to `base.254`, but the host's own.
pub fn scan_targets(base: &str, exclude: &Vec<String>) -> (r: Vec<String>)
    ensures
        r.deep_view() == targets_upto(base@, exclude.deep_view(), 254),
{
    let mut out: Vec<String> = Vec::new();
    let mut o: u8 = 1;
    assert(out.deep_view() =~= Seq::<Seq<char>>::empty());
    while o <= 254
        invariant
            1 <= o <= 255,
            out.deep_view() == targets_upto(base@, exclude.deep_view(), (o - 1) as nat),
        decreases 255 - o,
    {
        let mut ip = base.to_string();
        ip.append(".");
        let d = u8_to_string(o);
        ip.append(d.as_str());
        assert(ip@ == host_addr(base@, o as nat));
        if !contains_string(exclude, ip.as_str()) {
            let ghost before = out.deep_view();
            out.push(ip);
            assert(out.deep_view() =~= before.push(host_addr(base@, o as nat)));
        }
        o = o + 1;
    }
    out
}

/// The scan never targets an excluded address (the host's own), and targets
/// every other address `base.1` to `base.n`.
pub proof fn lemma_targets_skip_excluded(base: Seq<char>, exclude: Seq<Seq<char>>, n: nat)
    ensures
        forall|k: int|
            0 <= k < targets_upto(base, exclude, n).len() ==> !exclude.contains(
                #[trigger] targets_upto(base, exclude, n)[k],
            ),
        forall|o: nat|
            1 <= o <= n && !exclude.contains(host_addr(base, o)) ==> #[trigger] targets_upto(
                base,
                exclude,
                n,
            ).contains(host_addr(base, o)),
    decreases n,
{
    if n > 0 {
        let m = (n - 1) as nat;
        lemma_targets_skip_excluded(base, exclude, m);
        let r = targets_upto(base, exclude, m);
        let t = targets_upto(base, exclude, n);
        if !exclude.contains(host_addr(base, n)) {
            assert(t == r.push(host_addr(base, n)));
            assert forall|k: int| 0 <= k < t.len() implies !exclude.contains(#[trigger] t[k]) by {
                if k < r.len() {
                    assert(t[k] == r[k]);
                }
            }
            assert forall|o: nat| 1 <= o <= n && !exclude.contains(host_addr(base, o)) implies #[trigger] t.contains(
                host_addr(base, o),
            ) by {
                if o < n {
                    assert(r.contains(host_addr(base, o)));
                    let k = choose|k: int| 0 <= k < r.len() && r[k] == host_addr(base, o);
                    assert(t[k] == r[k]);
                } else {
                    assert(t[r.len() as int] == host_addr(base, n));
                }
            }
        } else {
            assert(t == r);
            assert forall|o: nat| 1 <= o <= n && !exclude.contains(host_addr(base, o)) implies #[trigger] t.contains(
                host_addr(base, o),
            ) by {
                if o < n {
                    assert(r.contains(host_addr(base, o)));
                }
            }
        }
    }
}

/// The items of `v` that are not in `found`, in order.
pub open spec fn not_found(v: Seq<Seq<char>>, found: Seq<Seq<char>>) -> Seq<Seq<char>>
    decreases v.len(),
{
    if v.len() == 0 {
        Seq::empty()
    } else if found.contains(v.last()) {
        not_found(v.drop_last(), found)
    } else {
        not_found(v.drop_last(), found).push(v.last())
    }
}

/// The targets that have not answered yet (retried in the next pass).
pub fn pending_targets(targets: &Vec<String>, found: &Vec<String>) -> (r: Vec<String>)
    ensures
        r.deep_view() == not_found(targets.deep_view(), found.deep_view()),
{
    let mut out: Vec<String> = Vec::new();
    let ghost v = targets.deep_view();
    let mut i: usize = 0;
    assert(v.subrange(0, 0) =~= Seq::<Seq<char>>::empty());
    assert(out.deep_view() =~= Seq::<Seq<char>>::empty());
    while i < targets.len()
        invariant
            i <= targets.len(),
            v == targets.deep_view(),
            out.deep_view() == not_found(v.subrange(0, i as int), found.deep_view()),
        decreases targets.len() - i,
    {
        assert(v.subrange(0, i + 1).drop_last() =~= v.subrange(0, i as int));
        assert(v.subrange(0, i + 1).last() == targets[i as int]@);
        if !contains_string(found, targets[i].as_str()) {
            let ghost before = out.deep_view();
            out.push(targets[i].clone());
            assert(out.deep_view() =~= before.push(targets[i as int]@));
        }
        i = i + 1;
    }
    assert(v.subrange(0, targets.len() as int) =~= v);
    out
}

// ------------------------------------------------------------------ ordering

/// The position of `a` is before that of `b`: by key, then by index.
pub open spec fn key_before(keys: Seq<(u64, u64)>, a: usize, b: usize) -> bool {
    ||| keys[a as int].0 < keys[b as int].0
    ||| (keys[a as int].0 == keys[b as int].0 && keys[a as int].1 < keys[b as int].1)
    ||| (keys[a as int].0 == keys[b as int].0 && keys[a as int].1 == keys[b as int].1 && a < b)
}

/// `p` lists the indices `0..n`, each once, in increasing key order: the
/// order in which a stable sort by key puts them.
pub open spec fn stable_order(keys: Seq<(u64, u64)>, p: Seq<usize>) -> bool {
    &&& p.len() == keys.len()
    &&& forall|k: int| 0 <= k < p.len() ==> #[trigger] p[k] < keys.len()
    &&& forall|i: usize| i < keys.len() ==> p.contains(i)
    &&& forall|k: int, l: int| 0 <= k < l < p.len() ==> key_before(keys, #[trigger] p[k], #[trigger] p[l])
}

fn before(keys: &Vec<(u64, u64)>, a: usize, b: usize) -> (r: bool)
    requires
        a < keys@.len(),
        b < keys@.len(),
    ensures
        r == key_before(keys@, a, b),
{
    let ka = keys[a];
    let kb = keys[b];
    ka.0 < kb.0 || (ka.0 == kb.0 && ka.1 < kb.1) || (ka.0 == kb.0 && ka.1 == kb.1 && a < b)
}

/// The indices of `keys` in the order of a stable sort by key.
pub fn stable_sort_indices(keys: &Vec<(u64, u64)>) -> (p: Vec<usize>)
    ensures
        stable_order(keys@, p@),
{
    let n = keys.len();
    let mut p: Vec<usize> = Vec::new();
    let mut i: usize = 0;
    while i < n
        invariant
            n == keys@.len(),
            i <= n,
            p@.len() == i,
            forall|k: int| 0 <= k < p@.len() ==> #[trigger] p@[k] < i,
            forall|j: usize| j < i ==> p@.contains(j),
            forall|k: int, l: int|
                0 <= k < l < p@.len() ==> key_before(keys@, #[trigger] p@[k], #[trigger] p@[l]),
        decreases n - i,
    {
        // The position of the first index that comes after `i`.
        let mut q: usize = 0;
        while q < p.len() && before(keys, p[q], i)
            invariant
                n == keys@.len(),
                i < n,
                q <= p@.len(),
                forall|k: int| 0 <= k < p@.len() ==> #[trigger] p@[k] < i,
                forall|k: int| 0 <= k < q ==> key_before(keys@, #[trigger] p@[k], i),
            decreases p@.len() - q,
        {
            q = q + 1;
        }
        let ghost old_p = p@;
        proof {
            // Every later index comes after `i` too.
            assert forall|k: int| q <= k < old_p.len() implies key_before(keys@, i, #[trigger] old_p[k]) by {
                if q < old_p.len() {
                    assert(!key_before(keys@, old_p[q as int], i));
                    assert(old_p[q as int] < i);
                    if k > q {
                        assert(key_before(keys@, old_p[q as int], old_p[k]));
                    }
                }
            }
        }
        p.insert(q, i);
        proof {
            assert(p@ == old_p.insert(q as int, i));
            assert forall|j: usize| j < i + 1 implies p@.contains(j) by {
                if j < i {
                    assert(old_p.contains(j));
                    let k = choose|k: int| 0 <= k < old_p.len() && old_p[k] == j;
                    if k < q {
                        assert(p@[k] == j);
                    } else {
                        assert(p@[k + 1] == j);
                    }
                } else {
                    assert(p@[q as int] == i);
                }
            }
            assert forall|k: int, l: int| 0 <= k < l < p@.len() implies key_before(
                keys@,
                #[trigger] p@[k],
                #[trigger] p@[l],
            ) by {
                if l < q {
                    assert(p@[k] == old_p[k] && p@[l] == old_p[l]);
                } else if l == q {
                    assert(p@[k] == old_p[k]);
                } else if k < q {
                    assert(p@[k] == old_p[k] && p@[l] == old_p[l - 1]);
                    assert(key_before(keys@, old_p[k], i));
                    assert(key_before(keys@, i, old_p[l - 1]));
                } else if k == q {
                    assert(p@[l] == old_p[l - 1]);
                } else {
                    assert(p@[k] == old_p[k - 1] && p@[l] == old_p[l - 1]);
                }
            }
        }
        i = i + 1;
    }
    p
}

/// The number that a text denotes as a `u32`, or 0.
pub open spec fn num_or_zero(s: Seq<char>, max: nat) -> nat {
    match parsed_uint(s, max) {
        Some(v) => v,
        None => 0,
    }
}

/// The last dot-separated part of an address.
pub open spec fn last_part(ip: Seq<char>) -> Seq<char> {
    split_on(ip, '.').last()
}

fn last_octet(ip: &str, max: u64) -> (r: u64)
    requires
        max <= u32::MAX,
    ensures
        r as nat == num_or_zero(last_part(ip@), max as nat),
{
    let p = split(ip, '.');
    proof {
        crate::text::lemma_split_nonempty(ip@, '.');
    }
    let last = p[p.len() - 1].as_str();
    match parse_uint(last, max) {
        Some(v) => v,
        None => 0,
    }
}

/// Addresses in the order of their last number (`u16`, 0 when not a number).
pub open spec fn octet_keys(ips: Seq<Seq<char>>) -> Seq<(u64, u64)> {
    ips.map_values(|ip: Seq<char>| (num_or_zero(last_part(ip), 65535) as u64, 0u64))
}

/// The addresses found, in the order of their last number.
pub fn sort_by_last_octet(ips: &Vec<String>) -> (r: Vec<String>)
    ensures
        exists|p: Seq<usize>|
            stable_order(octet_keys(ips.deep_view()), p) && r.deep_view() == p.map_values(
                |k: usize| ips.deep_view()[k as int],
            ),
{
    let mut keys: Vec<(u64, u64)> = Vec::new();
    let mut i: usize = 0;
    while i < ips.len()
        invariant
            i <= ips.len(),
            keys@ == octet_keys(ips.deep_view()).subrange(0, i as int),
        decreases ips.len() - i,
    {
        let k = last_octet(ips[i].as_str(), 65535);
        keys.push((k, 0));
        assert(keys@ =~= octet_keys(ips.deep_view()).subrange(0, i + 1));
        i = i + 1;
    }
    assert(keys@ =~= octet_keys(ips.deep_view()));
    let p = stable_sort_indices(&keys);
    let mut out: Vec<String> = Vec::new();
    let mut j: usize = 0;
    while j < p.len()
        invariant
            j <= p@.len(),
            stable_order(keys@, p@),
            keys@.len() == ips.len(),
            out.deep_view() == p@.subrange(0, j as int).map_values(|k: usize| ips.deep_view()[k as int]),
        decreases p@.len() - j,
    {
        assert(p@[j as int] < keys@.len());
        let ghost before = out.deep_view();
        let s = ips[p[j]].clone();
        assert(s@ == ips.deep_view()[p@[j as int] as int]);
        out.push(s);
        assert(out.deep_view() =~= before.push(s@));
        assert(out.deep_view() =~= p@.subrange(0, j + 1).map_values(|k: usize| ips.deep_view()[k as int]));
        j = j + 1;
    }
    assert(p@.subrange(0, p@.len() as int) =~= p@);
    out
}

// ------------------------------------------------------------------ probing

/// The rest of the first line, from index `i` on, that starts with `p`.
pub open spec fn first_prefixed(lines: Seq<Seq<char>>, p: Seq<char>, i: nat) -> Option<Seq<char>>
    decreases lines.len() - i,
{
    if i >= lines.len() {
        None
    } else if has_prefix(lines[i as int], p) {
        Some(after_prefix(lines[i as int], p))
    } else {
        first_prefixed(lines, p, i + 1)
    }
}

/// The trimmed value of the first line of `out` that starts with `p`, or "".
pub open spec fn field_of(out: Seq<char>, p: Seq<char>) -> Seq<char> {
    match first_prefixed(split_on(out, '\n'), p, 0) {
        Some(v) => trimmed(v),
        None => Seq::empty(),
    }
}

fn field(out: &str, p: &str) -> (r: String)
    ensures
        r@ == field_of(out@, p@),
{
    let lines = split(out, '\n');
    let mut i: usize = 0;
    while i < lines.len()
        invariant
            i <= lines.len(),
            lines.deep_view() == split_on(out@, '\n'),
            first_prefixed(lines.deep_view(), p@, 0) == first_prefixed(lines.deep_view(), p@, i as nat),
        decreases lines.len() - i,
    {
        if let Some(v) = strip_prefix(lines[i].as_str(), p) {
            return trim(v).to_string();
        }
        i = i + 1;
    }
    String::new()
}

/// The first word, from index `i` on, that starts with `p`; or "".
pub open spec fn first_word_with(w: Seq<Seq<char>>, p: Seq<char>, i: nat) -> Seq<char>
    decreases w.len() - i,
{
    if i >= w.len() {
        Seq::empty()
    } else if has_prefix(w[i as int], p) {
        w[i as int]
    } else {
        first_word_with(w, p, i + 1)
    }
}

fn first_with_prefix(w: &Vec<String>, p: &str) -> (r: String)
    ensures
        r@ == first_word_with(w.deep_view(), p@, 0),
{
    let mut i: usize = 0;
    while i < w.len()
        invariant
            i <= w.len(),
            first_word_with(w.deep_view(), p@, 0) == first_word_with(w.deep_view(), p@, i as nat),
        decreases w.len() - i,
    {
        if strip_prefix(w[i].as_str(), p).is_some() {
            return w[i].clone();
        }
        i = i + 1;
    }
    String::new()
}

/// The role that a machine's hostname, or else its addresses, suggest.
pub open spec fn suggested_role(host: Seq<char>, ips: Seq<char>) -> Option<Role> {
    let h = lowered(trimmed(host));
    let s = " "@ + ips + " "@;
    if h == "mgm"@ {
        Some(Role::Mgm)
    } else if h == "n1"@ {
        Some(Role::N1)
    } else if h == "n2"@ {
        Some(Role::N2)
    } else if has_sub(s, " "@ + role_ip(Role::Mgm) + " "@) {
        Some(Role::Mgm)
    } else if has_sub(s, " "@ + role_ip(Role::N1) + " "@) {
        Some(Role::N1)
    } else if has_sub(s, " "@ + role_ip(Role::N2) + " "@) {
        Some(Role::N2)
    } else {
        None
    }
}

/// The role that a machine's hostname, or else its addresses, suggest.
pub fn role_from(host: &str, ips: &str) -> (r: Option<Role>)
    ensures
        r == suggested_role(host@, ips@),
{
    let h = lower(trim(host));
    let hs = h.as_str();
    if str_eq(hs, "mgm") {
        return Some(Role::Mgm);
    } else if str_eq(hs, "n1") {
        return Some(Role::N1);
    } else if str_eq(hs, "n2") {
        return Some(Role::N2);
    }
    let mut s = " ".to_string();
    s.append(ips);
    s.append(" ");
    let s = s.as_str();
    if contains_text(s, " 192.168.1.1 ") {
        proof {
            reveal_strlit(" 192.168.1.1 ");
            reveal_strlit(" ");
            reveal_strlit("192.168.1.1");
            assert(" 192.168.1.1 "@ =~= " "@ + role_ip(Role::Mgm) + " "@);
        }
        Some(Role::Mgm)
    } else if contains_text(s, " 192.168.1.2 ") {
        proof {
            reveal_strlit(" 192.168.1.1 ");
            reveal_strlit(" 192.168.1.2 ");
            reveal_strlit(" ");
            reveal_strlit("192.168.1.1");
            reveal_strlit("192.168.1.2");
            assert(" 192.168.1.1 "@ =~= " "@ + role_ip(Role::Mgm) + " "@);
            assert(" 192.168.1.2 "@ =~= " "@ + role_ip(Role::N1) + " "@);
        }
        Some(Role::N1)
    } else if contains_text(s, " 192.168.1.3 ") {
        proof {
            reveal_strlit(" 192.168.1.1 ");
            reveal_strlit(" 192.168.1.2 ");
            reveal_strlit(" 192.168.1.3 ");
            reveal_strlit(" ");
            reveal_strlit("192.168.1.1");
            reveal_strlit("192.168.1.2");
            reveal_strlit("192.168.1.3");
            assert(" 192.168.1.1 "@ =~= " "@ + role_ip(Role::Mgm) + " "@);
            assert(" 192.168.1.2 "@ =~= " "@ + role_ip(Role::N1) + " "@);
            assert(" 192.168.1.3 "@ =~= " "@ + role_ip(Role::N2) + " "@);
        }
        Some(Role::N2)
    } else {
        proof {
            reveal_strlit(" 192.168.1.1 ");
            reveal_strlit(" 192.168.1.2 ");
            reveal_strlit(" 192.168.1.3 ");
            reveal_strlit(" ");
            reveal_strlit("192.168.1.1");
            reveal_strlit("192.168.1.2");
            reveal_strlit("192.168.1.3");
            assert(" 192.168.1.1 "@ =~= " "@ + role_ip(Role::Mgm) + " "@);
            assert(" 192.168.1.2 "@ =~= " "@ + role_ip(Role::N1) + " "@);
            assert(" 192.168.1.3 "@ =~= " "@ + role_ip(Role::N2) + " "@);
        }
        None
    }
}

/// What the probe of a machine found.
pub struct Probed {
    pub host: String,
    pub intern: String,
    pub suggest: Option<Role>,
    /// The credentials that logged in.
    pub working: Vec<Cred>,
}

pub struct ProbedView {
    pub host: Seq<char>,
    pub intern: Seq<char>,
    pub suggest: Option<Role>,
    pub working: Seq<CredView>,
}

impl View for Probed {
    type V = ProbedView;

    open spec fn view(&self) -> ProbedView {
        ProbedView {
            host: self.host@,
            intern: self.intern@,
            suggest: self.suggest,
            working: creds_view(self.working@),
        }
    }
}

/// The effect of one login attempt on the probe: `out` is the output of the
/// remote `echo H:$(hostname); echo I:$(hostname -I)` when the login worked.
/// The machine's details are read from the first login whose output names a
/// host.
pub open spec fn probe_step(p: ProbedView, c: CredView, out: Option<Seq<char>>) -> ProbedView {
    match out {
        None => p,
        Some(o) => {
            let w = p.working.push(c);
            if p.host.len() == 0 {
                let host = field_of(o, "H:"@);
                let ips = field_of(o, "I:"@);
                ProbedView {
                    host,
                    intern: first_word_with(words(ips), "192.168.1."@, 0),
                    suggest: suggested_role(host, ips),
                    working: w,
                }
            } else {
                ProbedView { working: w, ..p }
            }
        },
    }
}

impl Probed {
    pub fn new() -> (r: Probed)
        ensures
            r@.host.len() == 0,
            r@.intern.len() == 0,
            r@.suggest is None,
            r@.working.len() == 0,
    {
        Probed { host: String::new(), intern: String::new(), suggest: None, working: Vec::new() }
    }

    /// Records one login attempt with credential `c`; `out` is the command's
    /// output when the login worked.
    pub fn record(&mut self, c: &Cred, out: Option<&str>)
        ensures
            final(self)@ == probe_step(
                old(self)@,
                c@,
                match out {
                    Some(o) => Some(o@),
                    None => None,
                },
            ),
    {
        match out {
            None => {},
            Some(o) => {
                let ghost w0 = creds_view(self.working@);
                self.working.push(c.duplicate());
                assert(creds_view(self.working@) =~= w0.push(c@));
                if self.host.unicode_len() == 0 {
                    let host = field(o, "H:");
                    let ips = field(o, "I:");
                    let w = split_whitespace(ips.as_str());
                    let intern = first_with_prefix(&w, "192.168.1.");
                    self.suggest = role_from(host.as_str(), ips.as_str());
                    self.intern = intern;
                    self.host = host;
                }
            },
        }
    }
}


// ------------------------------------------------------------------ listing order

pub open spec fn role_rank(r: Role) -> u64 {
    match r {
        Role::Mgm => 0,
        Role::N1 => 1,
        Role::N2 => 2,
    }
}

/// The listing key of a machine: first the accessible ones with a suggested
/// role (MGM, N1, N2), then the others by the last number of their address.
pub open spec fn cand_rank(c: CandView) -> (u64, u64) {
    if c.working.len() > 0 && c.suggest is Some {
        (role_rank(c.suggest->0), 0)
    } else {
        (8, num_or_zero(last_part(c.ip), u32::MAX as nat) as u64)
    }
}

pub open spec fn cand_ranks(c: Seq<CandView>) -> Seq<(u64, u64)> {
    c.map_values(|x: CandView| cand_rank(x))
}

/// `after` is `before` sorted by listing key, equal ones kept in order.
pub open spec fn listing_sorted(before: Seq<CandView>, after: Seq<CandView>) -> bool {
    exists|p: Seq<usize>|
        #[trigger] stable_order(cand_ranks(before), p) && after == p.map_values(
            |k: usize| before[k as int],
        )
}

/// Sorts the machines by listing key, keeping the order of equal ones.
pub fn sort_cands(cands: &mut Vec<Cand>)
    ensures
        listing_sorted(cands_view(old(cands)@), cands_view(final(cands)@)),
{
    let ghost v = cands_view(cands@);
    let mut keys: Vec<(u64, u64)> = Vec::new();
    let mut i: usize = 0;
    while i < cands.len()
        invariant
            i <= cands@.len(),
            v == cands_view(cands@),
            keys@ == cand_ranks(v).subrange(0, i as int),
        decreases cands@.len() - i,
    {
        let c = &cands[i];
        let k = if c.accessible() && c.suggest.is_some() {
            let r: u64 = match c.suggest {
                Some(Role::Mgm) => 0,
                Some(Role::N1) => 1,
                Some(Role::N2) => 2,
                None => 9,
            };
            (r, 0u64)
        } else {
            (8u64, last_octet(c.ip.as_str(), 4294967295))
        };
        keys.push(k);
        assert(keys@ =~= cand_ranks(v).subrange(0, i + 1));
        i = i + 1;
    }
    assert(keys@ =~= cand_ranks(v));
    let p = stable_sort_indices(&keys);
    let mut out: Vec<Cand> = Vec::new();
    let mut j: usize = 0;
    while j < p.len()
        invariant
            j <= p@.len(),
            stable_order(keys@, p@),
            keys@.len() == cands@.len(),
            v == cands_view(cands@),
            cands_view(out@) == p@.subrange(0, j as int).map_values(|k: usize| v[k as int]),
        decreases p@.len() - j,
    {
        assert(p@[j as int] < keys@.len());
        let ghost before = cands_view(out@);
        let c = cands[p[j]].duplicate();
        out.push(c);
        assert(cands_view(out@) =~= before.push(c@));
        assert(cands_view(out@) =~= p@.subrange(0, j + 1).map_values(|k: usize| v[k as int]));
        j = j + 1;
    }
    assert(p@.subrange(0, p@.len() as int) =~= p@);
    *cands = out;
}

// ------------------------------------------------------------------ roles

/// Whether some machine has role `r`.
pub open spec fn taken(c: Seq<CandView>, r: Role) -> bool {
    exists|i: int| 0 <= i < c.len() && #[trigger] c[i].role == Some(r)
}

fn is_taken(cands: &Vec<Cand>, r: Role) -> (b: bool)
    ensures
        b == taken(cands_view(cands@), r),
{
    let mut i: usize = 0;
    while i < cands.len()
        invariant
            i <= cands@.len(),
            forall|j: int| 0 <= j < i ==> (#[trigger] cands_view(cands@)[j]).role != Some(r),
        decreases cands@.len() - i,
    {
        if cands[i].role == Some(r) {
            assert(cands_view(cands@)[i as int].role == Some(r));
            return true;
        }
        i = i + 1;
    }
    false
}

/// Whether each role is assigned to some machine.
pub fn all_roles_taken(cands: &Vec<Cand>) -> (b: bool)
    ensures
        b == (taken(cands_view(cands@), Role::Mgm) && taken(cands_view(cands@), Role::N1) && taken(
            cands_view(cands@),
            Role::N2,
        )),
{
    is_taken(cands, Role::Mgm) && is_taken(cands, Role::N1) && is_taken(cands, Role::N2)
}

/// The roles not assigned to any machine, in order.
pub open spec fn free_roles(c: Seq<CandView>) -> Seq<Role> {
    let a: Seq<Role> = if !taken(c, Role::Mgm) {
        seq![Role::Mgm]
    } else {
        Seq::empty()
    };
    let b = if !taken(c, Role::N1) {
        a.push(Role::N1)
    } else {
        a
    };
    if !taken(c, Role::N2) {
        b.push(Role::N2)
    } else {
        b
    }
}

fn free_role_list(cands: &Vec<Cand>) -> (r: Vec<Role>)
    ensures
        r@ == free_roles(cands_view(cands@)),
{
    let mut v: Vec<Role> = Vec::new();
    if !is_taken(cands, Role::Mgm) {
        v.push(Role::Mgm);
    }
    if !is_taken(cands, Role::N1) {
        v.push(Role::N1);
    }
    if !is_taken(cands, Role::N2) {
        v.push(Role::N2);
    }
    assert(v@ =~= free_roles(cands_view(cands@)));
    v
}

/// The first role (MGM, N1, N2) not assigned to any machine.
pub fn first_free_role(cands: &Vec<Cand>) -> (r: Option<Role>)
    ensures
        r == (if free_roles(cands_view(cands@)).len() > 0 {
            Some(free_roles(cands_view(cands@))[0])
        } else {
            None
        }),
{
    let v = free_role_list(cands);
    if v.len() > 0 {
        Some(v[0])
    } else {
        None
    }
}

/// The free role after (or before) `cur` among the free ones, cycling;
/// from the first when `cur` is not free.
pub open spec fn cycled_role(c: Seq<CandView>, cur: Option<Role>, fwd: bool) -> Option<Role> {
    let free = free_roles(c);
    let n = free.len() as int;
    if n == 0 {
        None
    } else {
        let idx = match cur {
            Some(x) => if free.contains(x) {
                free.index_of(x)
            } else {
                0
            },
            None => 0,
        };
        Some(
            if fwd {
                free[(idx + 1) % n]
            } else {
                free[(idx + n - 1) % n]
            },
        )
    }
}

/// The next (or previous) free role, for the role of a machine being added.
pub fn cycle_free_role(cands: &Vec<Cand>, cur: Option<Role>, fwd: bool) -> (r: Option<Role>)
    ensures
        r == cycled_role(cands_view(cands@), cur, fwd),
{
    let free = free_role_list(cands);
    if free.len() == 0 {
        return None;
    }
    let n = free.len();
    let mut idx: usize = 0;
    if let Some(c) = cur {
        let mut k: usize = 0;
        let mut found = false;
        while k < n
            invariant
                n == free@.len(),
                k <= n,
                !found ==> idx == 0 && forall|j: int| 0 <= j < k ==> free@[j] != c,
                found ==> idx < n && free@[idx as int] == c && forall|j: int|
                    0 <= j < idx ==> free@[j] != c,
            decreases n - k,
        {
            if !found && free[k] == c {
                idx = k;
                found = true;
            }
            k = k + 1;
        }
        proof {
            if found {
                assert(free@.contains(c));
                free@.index_of_first_ensures(c);
            } else {
                assert(!free@.contains(c));
            }
        }
    }
    if fwd {
        Some(free[(idx + 1) % n])
    } else {
        Some(free[(idx + n - 1) % n])
    }
}

/// The machine with its role changed.
pub open spec fn with_role(c: CandView, r: Option<Role>) -> CandView {
    CandView { role: r, ..c }
}

/// Sets the role of machine `i` (`None`: no role).
pub fn set_role(cands: &mut Vec<Cand>, i: usize, r: Option<Role>)
    requires
        i < old(cands)@.len(),
    ensures
        final(cands)@.len() == old(cands)@.len(),
        cands_view(final(cands)@) == cands_view(old(cands)@).update(
            i as int,
            with_role(cands_view(old(cands)@)[i as int], r),
        ),
{
    let ghost before = cands_view(cands@);
    let mut c = cands[i].duplicate();
    c.role = r;
    cands.set(i, c);
    assert(cands_view(cands@) =~= before.update(i as int, with_role(before[i as int], r)));
}

/// Machine `i` with role `r`, and every other machine that had `r` without a
/// role.
pub open spec fn role_assigned(v: Seq<CandView>, i: int, r: Role) -> Seq<CandView> {
    Seq::new(
        v.len(),
        |j: int|
            if j == i {
                with_role(v[j], Some(r))
            } else if v[j].role == Some(r) {
                with_role(v[j], None)
            } else {
                v[j]
            },
    )
}

/// Gives role `r` to machine `i`, taking it from any other machine.
pub fn assign_role(cands: &mut Vec<Cand>, i: usize, r: Role)
    requires
        i < old(cands)@.len(),
    ensures
        cands_view(final(cands)@) == role_assigned(cands_view(old(cands)@), i as int, r),
{
    let ghost v = cands_view(cands@);
    let n = cands.len();
    let mut k: usize = 0;
    while k < n
        invariant
            n == cands@.len(),
            v.len() == n,
            k <= n,
            forall|j: int|
                0 <= j < n ==> #[trigger] cands_view(cands@)[j] == (if j < k && v[j].role == Some(
                    r,
                ) {
                    with_role(v[j], None)
                } else {
                    v[j]
                }),
        decreases n - k,
    {
        if cands[k].role == Some(r) {
            set_role(cands, k, None);
        }
        k = k + 1;
    }
    set_role(cands, i, Some(r));
    assert(cands_view(cands@) =~= role_assigned(v, i as int, r));
}

/// Whether an earlier machine than `j` has the role of machine `j`.
pub open spec fn role_seen_before(v: Seq<CandView>, j: int) -> bool {
    v[j].role is Some && exists|k: int| 0 <= k < j && v[k].role == v[j].role
}

/// Each machine whose role an earlier machine has, without a role.
pub open spec fn roles_fixed(v: Seq<CandView>) -> Seq<CandView> {
    Seq::new(
        v.len(),
        |j: int|
            if role_seen_before(v, j) {
                with_role(v[j], None)
            } else {
                v[j]
            },
    )
}

/// Clears the role of every machine whose role an earlier machine already has.
pub fn fix_roles(cands: &mut Vec<Cand>)
    ensures
        cands_view(final(cands)@) == roles_fixed(cands_view(old(cands)@)),
{
    let ghost v = cands_view(cands@);
    let n = cands.len();
    let mut seen: Vec<Role> = Vec::new();
    let mut i: usize = 0;
    while i < n
        invariant
            n == cands@.len(),
            v.len() == n,
            i <= n,
            forall|x: Role| #[trigger] seen@.contains(x) <==> exists|k: int| 0 <= k < i && v[k].role == Some(x),
            forall|j: int|
                0 <= j < n ==> #[trigger] cands_view(cands@)[j] == (if j < i && v[j].role is Some
                    && exists|k: int| 0 <= k < j && v[k].role == v[j].role {
                    with_role(v[j], None)
                } else {
                    v[j]
                }),
        decreases n - i,
    {
        let ghost old_seen = seen@;
        assert(cands_view(cands@)[i as int] == v[i as int]);
        assert(cands@[i as int].role == v[i as int].role);
        if let Some(r) = cands[i].role {
            let mut dup = false;
            let mut q: usize = 0;
            while q < seen.len()
                invariant
                    q <= seen@.len(),
                    dup == exists|k: int| 0 <= k < q && seen@[k] == r,
                decreases seen@.len() - q,
            {
                if seen[q] == r {
                    dup = true;
                }
                q = q + 1;
            }
            assert(dup == seen@.contains(r));
            if dup {
                set_role(cands, i, None);
                assert forall|x: Role| #[trigger] seen@.contains(x) <==> exists|k: int|
                    0 <= k < i + 1 && v[k].role == Some(x) by {
                    if x == r {
                        let k = choose|k: int| 0 <= k < i && v[k].role == Some(x);
                    }
                }
            } else {
                seen.push(r);
                assert forall|x: Role| #[trigger] seen@.contains(x) <==> exists|k: int|
                    0 <= k < i + 1 && v[k].role == Some(x) by {
                    if seen@.contains(x) {
                        let k = choose|k: int| 0 <= k < seen@.len() && seen@[k] == x;
                        if k < old_seen.len() {
                            assert(old_seen[k] == x);
                            assert(old_seen.contains(x));
                        } else {
                            assert(x == r);
                            assert(v[i as int].role == Some(x));
                        }
                    }
                    if exists|k: int| 0 <= k < i + 1 && v[k].role == Some(x) {
                        if x == r {
                            assert(seen@[old_seen.len() as int] == r);
                        } else {
                            let k = choose|k: int| 0 <= k < i + 1 && v[k].role == Some(x);
                            assert(k < i);
                            assert(old_seen.contains(x));
                            let m = choose|m: int| 0 <= m < old_seen.len() && old_seen[m] == x;
                            assert(seen@[m] == x);
                        }
                    }
                }
            }
        } else {
            assert forall|x: Role| #[trigger] seen@.contains(x) <==> exists|k: int|
                0 <= k < i + 1 && v[k].role == Some(x) by {
                if exists|k: int| 0 <= k < i + 1 && v[k].role == Some(x) {
                    let k = choose|k: int| 0 <= k < i + 1 && v[k].role == Some(x);
                    assert(k < i);
                }
            }
        }
        i = i + 1;
    }
    assert(cands_view(cands@) =~= roles_fixed(v));
}


/// What `bdd inject` installs: for each machine with a role, in order, the
/// role, its address and the credential to use.
pub open spec fn gathered(c: Seq<CandView>) -> Seq<(Role, Seq<char>, CredView)>
    decreases c.len(),
{
    if c.len() == 0 {
        Seq::empty()
    } else {
        let r = gathered(c.drop_last());
        let x = c.last();
        match x.role {
            Some(role) => match cred_choice(x.working, role) {
                Some(k) => r.push((role, x.ip, x.working[k])),
                None => r,
            },
            None => r,
        }
    }
}

pub open spec fn picks_view(v: Seq<(Role, String, Cred)>) -> Seq<(Role, Seq<char>, CredView)> {
    v.map_values(|t: (Role, String, Cred)| (t.0, t.1@, t.2@))
}

/// The machines to install on: (role, address, credential) for each machine
/// with a role and a credential for it.
pub fn gather(cands: &Vec<Cand>) -> (r: Vec<(Role, String, Cred)>)
    ensures
        picks_view(r@) == gathered(cands_view(cands@)),
{
    let ghost v = cands_view(cands@);
    let mut out: Vec<(Role, String, Cred)> = Vec::new();
    let mut i: usize = 0;
    assert(v.subrange(0, 0) =~= Seq::<CandView>::empty());
    assert(picks_view(out@) =~= Seq::<(Role, Seq<char>, CredView)>::empty());
    while i < cands.len()
        invariant
            i <= cands@.len(),
            v == cands_view(cands@),
            picks_view(out@) == gathered(v.subrange(0, i as int)),
        decreases cands@.len() - i,
    {
        assert(v.subrange(0, i + 1).drop_last() =~= v.subrange(0, i as int));
        assert(v.subrange(0, i + 1).last() == cands@[i as int]@);
        let c = &cands[i];
        if let Some(r) = c.role {
            if let Some(cr) = c.cred_for(r) {
                let ghost before = picks_view(out@);
                let t = (r, c.ip.clone(), cr.duplicate());
                out.push(t);
                assert(picks_view(out@) =~= before.push((t.0, t.1@, t.2@)));
            }
        }
        i = i + 1;
    }
    assert(v.subrange(0, cands@.len() as int) =~= v);
    out
}

/// Each accessible machine with the role it suggests.
pub open spec fn roles_preset(v: Seq<CandView>) -> Seq<CandView> {
    Seq::new(
        v.len(),
        |j: int|
            if v[j].working.len() > 0 {
                with_role(v[j], v[j].suggest)
            } else {
                v[j]
            },
    )
}

/// Gives each accessible machine the role it suggests.
pub fn preset_roles(cands: &mut Vec<Cand>)
    ensures
        cands_view(final(cands)@) == roles_preset(cands_view(old(cands)@)),
{
    let ghost v = cands_view(cands@);
    let n = cands.len();
    let mut k: usize = 0;
    while k < n
        invariant
            n == cands@.len(),
            v.len() == n,
            k <= n,
            forall|j: int|
                0 <= j < n ==> #[trigger] cands_view(cands@)[j] == (if j < k && v[j].working.len()
                    > 0 {
                    with_role(v[j], v[j].suggest)
                } else {
                    v[j]
                }),
        decreases n - k,
    {
        assert(cands_view(cands@)[k as int] == v[k as int]);
        if cands[k].accessible() {
            let sg = cands[k].suggest;
            set_role(cands, k, sg);
        }
        k = k + 1;
    }
    assert(cands_view(cands@) =~= roles_preset(v));
}

/// The role for a machine added by hand: the one chosen, else the first
/// free one; none when no address was typed or no role is free.
pub open spec fn role_for_added(c: Seq<CandView>, ip: Seq<char>, chosen: Option<Role>) -> Option<Role> {
    if ip.len() == 0 {
        None
    } else if chosen is Some {
        chosen
    } else if free_roles(c).len() > 0 {
        Some(free_roles(c)[0])
    } else {
        None
    }
}

/// The role for a machine added by hand (`None`: nothing to add).
pub fn add_role_for(cands: &Vec<Cand>, ip: &str, chosen: Option<Role>) -> (r: Option<Role>)
    ensures
        r == role_for_added(cands_view(cands@), ip@, chosen),
{
    if ip.unicode_len() == 0 {
        return None;
    }
    match chosen {
        Some(r) => Some(r),
        None => first_free_role(cands),
    }
}

/// Adds a probed machine with role `r` (kept only if it is accessible), and
/// sorts the list again.
pub open spec fn as_added(c: CandView, r: Role) -> CandView {
    if c.working.len() > 0 {
        with_role(c, Some(r))
    } else {
        c
    }
}

pub fn add_candidate(cands: &mut Vec<Cand>, c: Cand, r: Role)
    ensures
        listing_sorted(cands_view(old(cands)@).push(as_added(c@, r)), cands_view(final(cands)@)),
{
    let mut c = c;
    if c.accessible() {
        c.role = Some(r);
    }
    let ghost before = cands_view(cands@);
    let ghost cv = c@;
    cands.push(c);
    assert(cands_view(cands@) =~= before.push(cv));
    sort_cands(cands);
}

/// The roles offered for machine `li`: each role no other machine has, then
/// "none".
pub open spec fn role_choices_spec(c: Seq<CandView>, li: int) -> Seq<Option<Role>> {
    let t = |r: Role| exists|i: int| 0 <= i < c.len() && i != li && c[i].role == Some(r);
    let a: Seq<Option<Role>> = if !t(Role::Mgm) {
        seq![Some(Role::Mgm)]
    } else {
        Seq::empty()
    };
    let b = if !t(Role::N1) {
        a.push(Some(Role::N1))
    } else {
        a
    };
    let d = if !t(Role::N2) {
        b.push(Some(Role::N2))
    } else {
        b
    };
    d.push(None)
}

fn taken_elsewhere(cands: &Vec<Cand>, li: usize, r: Role) -> (b: bool)
    ensures
        b == exists|i: int| 0 <= i < cands@.len() && i != li && cands_view(cands@)[i].role == Some(r),
{
    let mut i: usize = 0;
    while i < cands.len()
        invariant
            i <= cands@.len(),
            forall|j: int| 0 <= j < i && j != li ==> (#[trigger] cands_view(cands@)[j]).role != Some(r),
        decreases cands@.len() - i,
    {
        if i != li && cands[i].role == Some(r) {
            assert(cands_view(cands@)[i as int].role == Some(r));
            return true;
        }
        i = i + 1;
    }
    false
}

/// The roles offered for machine `li`.
pub fn role_choices(cands: &Vec<Cand>, li: usize) -> (r: Vec<Option<Role>>)
    ensures
        r@ == role_choices_spec(cands_view(cands@), li as int),
{
    let mut opts: Vec<Option<Role>> = Vec::new();
    if !taken_elsewhere(cands, li, Role::Mgm) {
        opts.push(Some(Role::Mgm));
    }
    if !taken_elsewhere(cands, li, Role::N1) {
        opts.push(Some(Role::N1));
    }
    if !taken_elsewhere(cands, li, Role::N2) {
        opts.push(Some(Role::N2));
    }
    opts.push(None);
    assert(opts@ =~= role_choices_spec(cands_view(cands@), li as int));
    opts
}


// ------------------------------------------------------------------ laws

/// No two machines have the same role.
pub open spec fn roles_unique(c: Seq<CandView>) -> bool {
    forall|i: int, j: int|
        0 <= i < c.len() && 0 <= j < c.len() && i != j && (#[trigger] c[i]).role is Some ==> c[i].role
            != (#[trigger] c[j]).role
}

proof fn lemma_first_found_in(w: Seq<CredView>, r: Role, i: nat)
    ensures
        first_for_role(w, r, i) matches Some(k) ==> i <= k < w.len(),
        first_any(w, i) matches Some(k) ==> i <= k < w.len(),
    decreases w.len() - i,
{
    if i < w.len() {
        lemma_first_found_in(w, r, i + 1);
    }
}

proof fn lemma_cred_choice_in(w: Seq<CredView>, r: Role)
    ensures
        cred_choice(w, r) matches Some(k) ==> 0 <= k < w.len(),
{
    lemma_first_found_in(w, r, 0);
}

proof fn lemma_fixed_keeps_first(v: Seq<CandView>, k: int, r: Role)
    requires
        0 <= k < v.len(),
        v[k].role == Some(r),
    ensures
        taken(roles_fixed(v), r),
    decreases k,
{
    let f = roles_fixed(v);
    if role_seen_before(v, k) {
        let m = choose|m: int| 0 <= m < k && v[m].role == v[k].role;
        lemma_fixed_keeps_first(v, m, r);
    } else {
        assert(f[k].role == Some(r));
    }
}

/// After `fix_roles` no two machines have the same role, and each role that
/// some machine had is still held by one.
pub proof fn lemma_fix_roles_unique(v: Seq<CandView>)
    ensures
        roles_unique(roles_fixed(v)),
        forall|r: Role| taken(v, r) ==> #[trigger] taken(roles_fixed(v), r),
{
    let f = roles_fixed(v);
    assert forall|i: int, j: int|
        0 <= i < f.len() && 0 <= j < f.len() && i != j && (#[trigger] f[i]).role is Some implies f[i].role
            != (#[trigger] f[j]).role by {
        if f[i].role == f[j].role {
            assert(!role_seen_before(v, i));
            assert(!role_seen_before(v, j));
            assert(v[i].role == v[j].role);
            if i < j {
                assert(role_seen_before(v, j));
            } else {
                assert(role_seen_before(v, i));
            }
        }
    }
    assert forall|r: Role| taken(v, r) implies #[trigger] taken(roles_fixed(v), r) by {
        let k = choose|k: int| 0 <= k < v.len() && #[trigger] v[k].role == Some(r);
        lemma_fixed_keeps_first(v, k, r);
    }
}

/// Giving a machine a role keeps the roles unique: that machine has the role
/// and no other does.
pub proof fn lemma_assign_role_unique(v: Seq<CandView>, i: int, r: Role)
    requires
        roles_unique(v),
        0 <= i < v.len(),
    ensures
        roles_unique(role_assigned(v, i, r)),
        role_assigned(v, i, r)[i].role == Some(r),
        forall|j: int|
            0 <= j < v.len() && j != i ==> (#[trigger] role_assigned(v, i, r)[j]).role != Some(r),
{
    let a = role_assigned(v, i, r);
    assert forall|x: int, y: int|
        0 <= x < a.len() && 0 <= y < a.len() && x != y && (#[trigger] a[x]).role is Some implies a[x].role
            != (#[trigger] a[y]).role by {
        if x != i && y != i {
            assert(v[x].role is Some);
            assert(v[x].role != v[y].role);
        }
    }
}

/// The free roles are held by no machine, and there is none left only when
/// every role is taken; so is the role that cycling through them gives.
pub proof fn lemma_free_roles_are_free(c: Seq<CandView>, cur: Option<Role>, fwd: bool)
    ensures
        forall|k: int| 0 <= k < free_roles(c).len() ==> !taken(c, #[trigger] free_roles(c)[k]),
        free_roles(c).len() == 0 <==> (taken(c, Role::Mgm) && taken(c, Role::N1) && taken(c, Role::N2)),
        cycled_role(c, cur, fwd) is None <==> free_roles(c).len() == 0,
        cycled_role(c, cur, fwd) matches Some(x) ==> !taken(c, x),
{
    let free = free_roles(c);
    if free.len() > 0 {
        let n = free.len() as int;
        let idx = match cur {
            Some(x) => if free.contains(x) {
                free.index_of(x)
            } else {
                0
            },
            None => 0,
        };
        if let Some(x) = cur {
            if free.contains(x) {
                free.index_of_first_ensures(x);
            }
        }
        assert(0 <= idx < n);
        if fwd {
            assert(0 <= (idx + 1) % n < n);
        } else {
            assert(0 <= (idx + n - 1) % n < n);
        }
    }
}

/// The free roles are three distinct roles at most, none twice.
proof fn lemma_free_roles_distinct(c: Seq<CandView>)
    ensures
        free_roles(c).no_duplicates(),
        free_roles(c).len() <= 3,
{
    let free = free_roles(c);
    assert forall|i: int, j: int| 0 <= i < free.len() && 0 <= j < free.len() && i != j implies free[i]
        != free[j] by {
        if taken(c, Role::Mgm) {
            if taken(c, Role::N1) {
            } else {
            }
        } else {
            if taken(c, Role::N1) {
            } else {
            }
        }
    }
}

/// The position of a free role among the free roles.
proof fn lemma_free_index(c: Seq<CandView>, x: Role, i: int)
    requires
        0 <= i < free_roles(c).len(),
        free_roles(c)[i] == x,
    ensures
        free_roles(c).contains(x),
        free_roles(c).index_of(x) == i,
{
    let free = free_roles(c);
    lemma_free_roles_distinct(c);
    assert(free.contains(x));
    free.index_of_first_ensures(x);
    let j = free.index_of(x);
    assert(free[j] == x);
}

/// One step forward and one back, modulo a count of at most three.
proof fn lemma_step_mod(i: int, n: int)
    requires
        0 <= i < n <= 3,
    ensures
        0 <= (i + 1) % n < n,
        0 <= (i + n - 1) % n < n,
        ((i + 1) % n + n - 1) % n == i,
        ((i + n - 1) % n + 1) % n == i,
{
    if n == 1 {
        assert(i == 0);
        assert((0int + 1) % 1 == 0);
        assert((0int + 1 - 1) % 1 == 0);
    } else if n == 2 {
        if i == 0 {
            assert((0int + 1) % 2 == 1);
            assert((0int + 2 - 1) % 2 == 1);
            assert((1int + 2 - 1) % 2 == 0);
            assert((1int + 1) % 2 == 0);
        } else {
            assert((1int + 1) % 2 == 0);
            assert((1int + 2 - 1) % 2 == 0);
            assert((0int + 2 - 1) % 2 == 1);
            assert((0int + 1) % 2 == 1);
        }
    } else {
        assert(n == 3);
        if i == 0 {
            assert((0int + 1) % 3 == 1);
            assert((0int + 3 - 1) % 3 == 2);
            assert((1int + 3 - 1) % 3 == 0);
            assert((2int + 1) % 3 == 0);
        } else if i == 1 {
            assert((1int + 1) % 3 == 2);
            assert((1int + 3 - 1) % 3 == 0);
            assert((2int + 3 - 1) % 3 == 1);
            assert((0int + 1) % 3 == 1);
        } else {
            assert((2int + 1) % 3 == 0);
            assert((2int + 3 - 1) % 3 == 1);
            assert((0int + 3 - 1) % 3 == 2);
            assert((1int + 1) % 3 == 2);
        }
    }
}

/// Stepping through the free roles forward and then back, or back and then
/// forward, returns to the free role that it started from.
pub proof fn lemma_cycle_free_role_back(c: Seq<CandView>, x: Role)
    requires
        free_roles(c).contains(x),
    ensures
        cycled_role(c, cycled_role(c, Some(x), true), false) == Some(x),
        cycled_role(c, cycled_role(c, Some(x), false), true) == Some(x),
{
    let free = free_roles(c);
    let n = free.len() as int;
    lemma_free_roles_distinct(c);
    free.index_of_first_ensures(x);
    let i = free.index_of(x);
    assert(0 <= i < n <= 3);
    let f = (i + 1) % n;
    let b = (i + n - 1) % n;
    assert(0 <= f < n && 0 <= b < n && (f + n - 1) % n == i && (b + 1) % n == i) by {
        lemma_step_mod(i, n);
    }
    lemma_free_index(c, free[f], f);
    lemma_free_index(c, free[b], b);
    assert(cycled_role(c, Some(x), true) == Some(free[f]));
    assert(cycled_role(c, Some(x), false) == Some(free[b]));
}

/// Sorting the listing keeps every machine and so keeps the roles unique.
pub proof fn lemma_sort_keeps_roles(before: Seq<CandView>, after: Seq<CandView>)
    requires
        listing_sorted(before, after),
        before.len() <= usize::MAX,
    ensures
        after.len() == before.len(),
        roles_unique(before) ==> roles_unique(after),
        forall|r: Role| #[trigger] taken(before, r) <==> taken(after, r),
{
    let p = choose|p: Seq<usize>|
        #[trigger] stable_order(cand_ranks(before), p) && after == p.map_values(
            |k: usize| before[k as int],
        );
    let keys = cand_ranks(before);
    assert(keys.len() == before.len());
    assert forall|k: int, l: int| 0 <= k < p.len() && 0 <= l < p.len() && k != l implies #[trigger] p[k]
        != #[trigger] p[l] by {
        if k < l {
            assert(key_before(keys, p[k], p[l]));
        } else {
            assert(key_before(keys, p[l], p[k]));
        }
    }
    if roles_unique(before) {
        assert forall|i: int, j: int|
            0 <= i < after.len() && 0 <= j < after.len() && i != j && (#[trigger] after[i]).role is Some implies after[i].role
                != (#[trigger] after[j]).role by {
            assert(after[i] == before[p[i] as int]);
            assert(after[j] == before[p[j] as int]);
            assert(p[i] != p[j]);
            assert(p[i] < keys.len() && p[j] < keys.len());
        }
    }
    assert forall|r: Role| #[trigger] taken(before, r) <==> taken(after, r) by {
        if taken(before, r) {
            let m = choose|m: int| 0 <= m < before.len() && #[trigger] before[m].role == Some(r);
            assert(p.contains(m as usize));
            let k = choose|k: int| 0 <= k < p.len() && p[k] == m as usize;
            assert(p[k] as int == m);
            assert(after[k] == before[m]);
        }
        if taken(after, r) {
            let k = choose|k: int| 0 <= k < after.len() && #[trigger] after[k].role == Some(r);
            assert(p[k] < keys.len());
            assert(before[p[k] as int].role == Some(r));
        }
    }
}

/// No two picks of the install list have the same role.
pub open spec fn picks_distinct(g: Seq<(Role, Seq<char>, CredView)>) -> bool {
    forall|i: int, j: int| 0 <= i < g.len() && 0 <= j < g.len() && i != j ==> (#[trigger] g[i]).0 != (#[trigger] g[j]).0
}

/// Each pick of the install list is a machine of the listing, with its role
/// and address and one of the credentials that worked on it; with unique roles
/// no role is installed twice.
pub proof fn lemma_gathered_one_per_role(c: Seq<CandView>)
    ensures
        forall|k: int| 0 <= k < gathered(c).len() ==> exists|m: int| 0 <= m < c.len()
            && c[m].role == Some((#[trigger] gathered(c)[k]).0) && c[m].ip == gathered(c)[k].1
            && c[m].working.contains(gathered(c)[k].2),
        roles_unique(c) ==> picks_distinct(gathered(c)),
    decreases c.len(),
{
    if c.len() > 0 {
        let d = c.drop_last();
        lemma_gathered_one_per_role(d);
        let g = gathered(c);
        let gd = gathered(d);
        let x = c.last();
        assert forall|k: int| 0 <= k < g.len() implies exists|m: int| 0 <= m < c.len()
            && c[m].role == Some((#[trigger] g[k]).0) && c[m].ip == g[k].1 && c[m].working.contains(g[k].2) by {
            if k < gd.len() {
                assert(g[k] == gd[k]);
                let m = choose|m: int| 0 <= m < d.len() && d[m].role == Some((#[trigger] gd[k]).0) && d[m].ip == gd[k].1
                    && d[m].working.contains(gd[k].2);
                assert(c[m] == d[m]);
            } else {
                let role = x.role->0;
                let ch = cred_choice(x.working, role);
                lemma_cred_choice_in(x.working, role);
                assert(g[k] == (role, x.ip, x.working[ch->0]));
                assert(c[c.len() - 1] == x);
            }
        }
        if roles_unique(c) {
            assert(roles_unique(d)) by {
                assert forall|i: int, j: int|
                    0 <= i < d.len() && 0 <= j < d.len() && i != j && (#[trigger] d[i]).role is Some implies d[i].role
                        != (#[trigger] d[j]).role by {
                    assert(c[i] == d[i] && c[j] == d[j]);
                }
            }
            assert forall|i: int, j: int| 0 <= i < g.len() && 0 <= j < g.len() && i != j implies (#[trigger] g[i]).0
                != (#[trigger] g[j]).0 by {
                if i < gd.len() && j < gd.len() {
                    assert(g[i] == gd[i] && g[j] == gd[j]);
                } else if i < gd.len() {
                    let m = choose|m: int| 0 <= m < d.len() && d[m].role == Some((#[trigger] gd[i]).0) && d[m].ip == gd[i].1
                        && d[m].working.contains(gd[i].2);
                    assert(g[i] == gd[i]);
                    assert(c[m] == d[m]);
                    assert(c[c.len() - 1] == x);
                    assert(g[j].0 == x.role->0);
                    assert(c[m].role is Some);
                    assert(c[m].role != c[c.len() - 1].role);
                } else if j < gd.len() {
                    let m = choose|m: int| 0 <= m < d.len() && d[m].role == Some((#[trigger] gd[j]).0) && d[m].ip == gd[j].1
                        && d[m].working.contains(gd[j].2);
                    assert(g[j] == gd[j]);
                    assert(c[m] == d[m]);
                    assert(c[c.len() - 1] == x);
                    assert(g[i].0 == x.role->0);
                    assert(c[m].role is Some);
                    assert(c[m].role != c[c.len() - 1].role);
                }
            }
        }
    }
}

} // verus!
