//! The persistent state (`/var/lib/bdd/state`): its contents, its text
//! format, and the updates that the commands make. Reading and writing the
//! file is the caller's part.
use vstd::prelude::*;
use crate::model::{Role, role_answer, role_code};
use crate::text::{
    all_ascii, ascii_lower, is_ws, joined, lemma_split_nonempty, split, split_on, strip_prefix,
    trim, trimmed, trimmed_end, trimmed_start,
};

verus! {

pub struct State {
    /// The role that the user chose with `bdd id`.
    pub user_role: Option<Role>,
    /// Identifiers of the steps done.
    pub ran: Vec<String>,
    /// Identifiers of the steps whose validation passed.
    pub checked: Vec<String>,
    /// Exercise numbers whose evidence was printed.
    pub validated: Vec<String>,
    /// Whether the first-run introduction was shown.
    pub seen_intro: bool,
}

pub struct StateView {
    pub user_role: Option<Role>,
    pub ran: Seq<Seq<char>>,
    pub checked: Seq<Seq<char>>,
    pub validated: Seq<Seq<char>>,
    pub seen_intro: bool,
}

impl View for State {
    type V = StateView;

    open spec fn view(&self) -> StateView {
        StateView {
            user_role: self.user_role,
            ran: self.ran.deep_view(),
            checked: self.checked.deep_view(),
            validated: self.validated.deep_view(),
            seen_intro: self.seen_intro,
        }
    }
}

pub open spec fn empty_state() -> StateView {
    StateView {
        user_role: None,
        ran: Seq::empty(),
        checked: Seq::empty(),
        validated: Seq::empty(),
        seen_intro: false,
    }
}

pub open spec fn has_prefix(s: Seq<char>, p: Seq<char>) -> bool {
    s.len() >= p.len() && s.subrange(0, p.len() as int) == p
}

pub open spec fn after_prefix(s: Seq<char>, p: Seq<char>) -> Seq<char> {
    s.subrange(p.len() as int, s.len() as int)
}

/// The trimmed, non-empty pieces, in order.
pub open spec fn nonempty_trimmed(pieces: Seq<Seq<char>>) -> Seq<Seq<char>>
    decreases pieces.len(),
{
    if pieces.len() == 0 {
        Seq::empty()
    } else {
        let r = nonempty_trimmed(pieces.drop_last());
        let t = trimmed(pieces.last());
        if t.len() > 0 {
            r.push(t)
        } else {
            r
        }
    }
}

/// The items of a comma-separated list: trimmed, empty ones dropped.
pub open spec fn csv_items(v: Seq<char>) -> Seq<Seq<char>> {
    nonempty_trimmed(split_on(v, ','))
}

/// The effect of one line of the state file; unknown lines change nothing.
#[verifier::opaque]
pub open spec fn apply_line(st: StateView, line: Seq<char>) -> StateView {
    let l = trimmed(line);
    if has_prefix(l, "user_role="@) {
        StateView { user_role: role_answer(after_prefix(l, "user_role="@)), ..st }
    } else if has_prefix(l, "ran="@) {
        StateView { ran: csv_items(after_prefix(l, "ran="@)), ..st }
    } else if has_prefix(l, "checked="@) {
        StateView { checked: csv_items(after_prefix(l, "checked="@)), ..st }
    } else if has_prefix(l, "validated="@) {
        StateView { validated: csv_items(after_prefix(l, "validated="@)), ..st }
    } else if has_prefix(l, "seen_intro="@) {
        StateView { seen_intro: trimmed(after_prefix(l, "seen_intro="@)) == "1"@, ..st }
    } else {
        st
    }
}

/// The state after the lines, in order, starting from `st`.
pub open spec fn apply_lines(st: StateView, lines: Seq<Seq<char>>) -> StateView
    decreases lines.len(),
{
    if lines.len() == 0 {
        st
    } else {
        apply_line(apply_lines(st, lines.drop_last()), lines.last())
    }
}

/// The state that a state file's text holds. (Its lines are the pieces
/// between newlines; a carriage return at a line's end is whitespace and
/// goes with the trimming.)
pub open spec fn parsed_state(txt: Seq<char>) -> StateView {
    apply_lines(empty_state(), split_on(txt, '\n'))
}

pub open spec fn code_of(r: Option<Role>) -> Seq<char> {
    match r {
        Some(r) => role_code(r),
        None => Seq::empty(),
    }
}

/// The text of the state file for `st`.
pub open spec fn rendered(st: StateView) -> Seq<char> {
    "validated="@ + joined(st.validated, ","@) + seq!['\n'] + "seen_intro="@ + seen_text(
        st.seen_intro,
    ) + seq!['\n'] + "user_role="@ + code_of(st.user_role) + seq!['\n'] + "ran="@ + joined(
        st.ran,
        ","@,
    ) + seq!['\n'] + "checked="@ + joined(st.checked, ","@) + seq!['\n']
}

/// The path of the state file in directory `dir`.
pub fn file(dir: &str) -> (r: String)
    ensures
        r@ == dir@ + "/state"@,
{
    let mut s = dir.to_string();
    s.append("/state");
    s
}

/// The items of a comma-separated list, trimmed, without empty ones.
pub fn split_csv(v: &str) -> (r: Vec<String>)
    ensures
        r.deep_view() == csv_items(v@),
{
    let pieces = split(v, ',');
    let mut out: Vec<String> = Vec::new();
    let mut i: usize = 0;
    assert(pieces.deep_view().subrange(0, 0) =~= Seq::<Seq<char>>::empty());
    while i < pieces.len()
        invariant
            i <= pieces.len(),
            pieces.deep_view() == split_on(v@, ','),
            out.deep_view() == nonempty_trimmed(pieces.deep_view().subrange(0, i as int)),
        decreases pieces.len() - i,
    {
        let ghost pre = pieces.deep_view().subrange(0, i as int);
        let ghost nxt = pieces.deep_view().subrange(0, i + 1);
        assert(nxt.drop_last() =~= pre);
        assert(nxt.last() == pieces[i as int]@);
        let t = trim(pieces[i].as_str());
        if t.unicode_len() > 0 {
            let ghost o = out.deep_view();
            out.push(t.to_string());
            assert(out.deep_view() =~= o.push(t@));
        }
        i = i + 1;
    }
    assert(pieces.deep_view().subrange(0, pieces.len() as int) =~= pieces.deep_view());
    out
}

/// Whether `id` is among `v`.
fn contains_str(v: &Vec<String>, id: &str) -> (b: bool)
    ensures
        b == v.deep_view().contains(id@),
{
    let mut i: usize = 0;
    while i < v.len()
        invariant
            i <= v.len(),
            forall|j: int| 0 <= j < i ==> v.deep_view()[j] != id@,
        decreases v.len() - i,
    {
        if crate::text::str_eq(v[i].as_str(), id) {
            assert(v.deep_view()[i as int] == id@);
            return true;
        }
        i = i + 1;
    }
    assert(!v.deep_view().contains(id@)) by {
        if v.deep_view().contains(id@) {
            let k = choose|k: int| 0 <= k < v.deep_view().len() && v.deep_view()[k] == id@;
            assert(v.deep_view()[k] != id@);
        }
    }
    false
}

/// `v` with `id` added at the end, unless it is there already.
pub open spec fn with_item(v: Seq<Seq<char>>, id: Seq<char>) -> Seq<Seq<char>> {
    if v.contains(id) {
        v
    } else {
        v.push(id)
    }
}

impl State {
    /// The state of a machine where nothing was recorded yet.
    pub fn new() -> (r: State)
        ensures
            r@ == empty_state(),
    {
        let st = State {
            user_role: None,
            ran: Vec::new(),
            checked: Vec::new(),
            validated: Vec::new(),
            seen_intro: false,
        };
        assert(st.ran.deep_view() =~= Seq::<Seq<char>>::empty());
        assert(st.checked.deep_view() =~= Seq::<Seq<char>>::empty());
        assert(st.validated.deep_view() =~= Seq::<Seq<char>>::empty());
        st
    }

    /// The state that the text of a state file holds.
    pub fn parse(txt: &str) -> (r: State)
        ensures
            r@ == parsed_state(txt@),
    {
        let lines = split(txt, '\n');
        let mut st = State::new();
        let mut i: usize = 0;
        assert(lines.deep_view().subrange(0, 0) =~= Seq::<Seq<char>>::empty());
        while i < lines.len()
            invariant
                i <= lines.len(),
                lines.deep_view() == split_on(txt@, '\n'),
                st@ == apply_lines(empty_state(), lines.deep_view().subrange(0, i as int)),
            decreases lines.len() - i,
        {
            let ghost pre = lines.deep_view().subrange(0, i as int);
            let ghost nxt = lines.deep_view().subrange(0, i + 1);
            assert(nxt.drop_last() =~= pre);
            assert(nxt.last() == lines[i as int]@);
            let line = trim(lines[i].as_str());
            proof {
                reveal(apply_line);
            }
            if let Some(v) = strip_prefix(line, "user_role=") {
                proof {
                    reveal_strlit("user_role=");
                }
                st.user_role = Role::from_str(v);
            } else if let Some(v) = strip_prefix(line, "ran=") {
                st.ran = split_csv(v);
            } else if let Some(v) = strip_prefix(line, "checked=") {
                st.checked = split_csv(v);
            } else if let Some(v) = strip_prefix(line, "validated=") {
                st.validated = split_csv(v);
            } else if let Some(v) = strip_prefix(line, "seen_intro=") {
                st.seen_intro = crate::text::str_eq(trim(v), "1");
            }
            i = i + 1;
        }
        assert(lines.deep_view().subrange(0, lines.len() as int) =~= lines.deep_view());
        st
    }

    /// The text of the state file.
    pub fn render(&self) -> (r: String)
        ensures
            r@ == rendered(self@),
    {
        let mut s = "validated=".to_string();
        s.append(crate::text::join(&self.validated, ",").as_str());
        s.append("\nseen_intro=");
        if self.seen_intro {
            s.append("1");
        } else {
            s.append("0");
        }
        s.append("\nuser_role=");
        match self.user_role {
            Some(role) => s.append(role.code()),
            None => {},
        }
        s.append("\nran=");
        s.append(crate::text::join(&self.ran, ",").as_str());
        s.append("\nchecked=");
        s.append(crate::text::join(&self.checked, ",").as_str());
        s.append("\n");
        proof {
            reveal_strlit("\nran=");
            reveal_strlit("ran=");
            reveal_strlit("\nchecked=");
            reveal_strlit("checked=");
            reveal_strlit("\nvalidated=");
            reveal_strlit("validated=");
            reveal_strlit("\nseen_intro=");
            reveal_strlit("seen_intro=");
            reveal_strlit("\nuser_role=");
            reveal_strlit("user_role=");
            reveal_strlit("\n");
            reveal_strlit("1");
            reveal_strlit("0");
        }
        assert(s@ =~= rendered(self@));
        s
    }

    /// Records step `id` as done; says whether the state changed (and must
    /// be saved).
    pub fn mark_ran(&mut self, id: &str) -> (changed: bool)
        ensures
            final(self)@ == (StateView { ran: with_item(old(self)@.ran, id@), ..old(self)@ }),
            changed == !old(self)@.ran.contains(id@),
    {
        if !contains_str(&self.ran, id) {
            let ghost o = self.ran.deep_view();
            self.ran.push(id.to_string());
            assert(self.ran.deep_view() =~= o.push(id@));
            true
        } else {
            false
        }
    }

    /// Records that step `id` passed its validation; says whether the state
    /// changed (and must be saved).
    pub fn mark_checked(&mut self, id: &str) -> (changed: bool)
        ensures
            final(self)@ == (StateView {
                checked: with_item(old(self)@.checked, id@),
                ..old(self)@
            }),
            changed == !old(self)@.checked.contains(id@),
    {
        if !contains_str(&self.checked, id) {
            let ghost o = self.checked.deep_view();
            self.checked.push(id.to_string());
            assert(self.checked.deep_view() =~= o.push(id@));
            true
        } else {
            false
        }
    }

    pub fn has_ran(&self, id: &str) -> (b: bool)
        ensures
            b == self@.ran.contains(id@),
    {
        contains_str(&self.ran, id)
    }

    pub fn has_checked(&self, id: &str) -> (b: bool)
        ensures
            b == self@.checked.contains(id@),
    {
        contains_str(&self.checked, id)
    }
}


// ------------------------------------------------------------------ laws

/// An identifier that the state file keeps as it is: non-empty, without
/// surrounding whitespace, without commas or newlines.
pub open spec fn storable_id(id: Seq<char>) -> bool {
    &&& id.len() > 0
    &&& trimmed(id) == id
    &&& !id.contains(',')
    &&& !id.contains('\n')
}

pub open spec fn storable_ids(ids: Seq<Seq<char>>) -> bool {
    forall|i: int| 0 <= i < ids.len() ==> storable_id(#[trigger] ids[i])
}

/// A state whose every recorded identifier is storable.
pub open spec fn storable(st: StateView) -> bool {
    storable_ids(st.ran) && storable_ids(st.checked) && storable_ids(st.validated)
}

/// Writing a state file and reading it back gives the same state, for every
/// state whose recorded identifiers are storable.
pub proof fn lemma_render_parse_roundtrip(st: StateView)
    requires
        storable(st),
    ensures
        parsed_state(rendered(st)) == st,
{
    let l1 = "validated="@ + joined(st.validated, ","@);
    let l2 = "seen_intro="@ + seen_text(st.seen_intro);
    let l3 = "user_role="@ + code_of(st.user_role);
    let l4 = "ran="@ + joined(st.ran, ","@);
    let l5 = "checked="@ + joined(st.checked, ","@);
    let nl = seq!['\n'];
    assert(rendered(st) =~= l1 + nl + l2 + nl + l3 + nl + l4 + nl + l5 + nl);
    lemma_list_line_validated(st.validated);
    lemma_seen_line(st.seen_intro);
    lemma_code_line(st.user_role);
    lemma_list_line_ran(st.ran);
    lemma_list_line_checked(st.checked);
    let lines = seq![l1, l2, l3, l4, l5, Seq::<char>::empty()];
    lemma_split_lines(l1, l2, l3, l4, l5);
    let s0 = empty_state();
    let s1 = StateView { validated: st.validated, ..s0 };
    let s2 = StateView { seen_intro: st.seen_intro, ..s1 };
    let s3 = StateView { user_role: st.user_role, ..s2 };
    let s4 = StateView { ran: st.ran, ..s3 };
    let s5 = StateView { checked: st.checked, ..s4 };
    lemma_apply_validated_line(s0, st.validated);
    lemma_apply_seen_line(s1, st.seen_intro);
    lemma_apply_role_line(s2, st.user_role);
    lemma_apply_ran_line(s3, st.ran);
    lemma_apply_checked_line(s4, st.checked);
    lemma_apply_empty_line(s5);
    assert(lines.drop_last() =~= seq![l1, l2, l3, l4, l5]);
    assert(seq![l1, l2, l3, l4, l5].drop_last() =~= seq![l1, l2, l3, l4]);
    assert(seq![l1, l2, l3, l4].drop_last() =~= seq![l1, l2, l3]);
    assert(seq![l1, l2, l3].drop_last() =~= seq![l1, l2]);
    assert(seq![l1, l2].drop_last() =~= seq![l1]);
    assert(seq![l1].drop_last() =~= Seq::<Seq<char>>::empty());
    assert(apply_lines(s0, Seq::<Seq<char>>::empty()) == s0);
    assert(apply_lines(s0, seq![l1]) == s1);
    assert(apply_lines(s0, seq![l1, l2]) == s2);
    assert(apply_lines(s0, seq![l1, l2, l3]) == s3);
    assert(apply_lines(s0, seq![l1, l2, l3, l4]) == s4);
    assert(apply_lines(s0, seq![l1, l2, l3, l4, l5]) == s5);
    assert(apply_lines(s0, lines) == s5);
    assert(s5 == st);
}

pub open spec fn seen_text(b: bool) -> Seq<char> {
    if b {
        "1"@
    } else {
        "0"@
    }
}

/// Progress survives writing and reading the state file: the role, the steps
/// done, the steps whose validation passed and the introduction flag read back
/// as written, for storable step identifiers, whatever the list of exercises
/// with printed evidence holds.
pub proof fn lemma_progress_survives(st: StateView)
    requires
        storable_ids(st.ran),
        storable_ids(st.checked),
    ensures
        parsed_state(rendered(st)).user_role == st.user_role,
        parsed_state(rendered(st)).ran == st.ran,
        parsed_state(rendered(st)).checked == st.checked,
        parsed_state(rendered(st)).seen_intro == st.seen_intro,
{
    let l1 = "validated="@ + joined(st.validated, ","@);
    let l2 = "seen_intro="@ + seen_text(st.seen_intro);
    let l3 = "user_role="@ + code_of(st.user_role);
    let l4 = "ran="@ + joined(st.ran, ","@);
    let l5 = "checked="@ + joined(st.checked, ","@);
    let nl = seq!['\n'];
    let e = Seq::<char>::empty();
    assert(rendered(st) =~= l1 + nl + l2 + nl + l3 + nl + l4 + nl + l5 + nl);
    lemma_seen_line(st.seen_intro);
    lemma_code_line(st.user_role);
    lemma_list_line_ran(st.ran);
    lemma_list_line_checked(st.checked);
    let p = split_on(l1, '\n');
    lemma_split_then(l1, l2, '\n');
    lemma_split_then(l1 + nl + l2, l3, '\n');
    lemma_split_then(l1 + nl + l2 + nl + l3, l4, '\n');
    lemma_split_then(l1 + nl + l2 + nl + l3 + nl + l4, l5, '\n');
    lemma_split_sep(l1 + nl + l2 + nl + l3 + nl + l4 + nl + l5, '\n');
    let q2 = p.push(l2);
    let q3 = q2.push(l3);
    let q4 = q3.push(l4);
    let q5 = q4.push(l5);
    let q6 = q5.push(e);
    assert(split_on(rendered(st), '\n') == q6);
    let s1 = apply_lines(empty_state(), p);
    let s2 = StateView { seen_intro: st.seen_intro, ..s1 };
    let s3 = StateView { user_role: st.user_role, ..s2 };
    let s4 = StateView { ran: st.ran, ..s3 };
    let s5 = StateView { checked: st.checked, ..s4 };
    lemma_apply_seen_line(s1, st.seen_intro);
    lemma_apply_role_line(s2, st.user_role);
    lemma_apply_ran_line(s3, st.ran);
    lemma_apply_checked_line(s4, st.checked);
    lemma_apply_empty_line(s5);
    assert(q2.drop_last() =~= p);
    assert(q3.drop_last() =~= q2);
    assert(q4.drop_last() =~= q3);
    assert(q5.drop_last() =~= q4);
    assert(q6.drop_last() =~= q5);
    assert(apply_lines(empty_state(), q2) == s2);
    assert(apply_lines(empty_state(), q3) == s3);
    assert(apply_lines(empty_state(), q4) == s4);
    assert(apply_lines(empty_state(), q5) == s5);
    assert(apply_lines(empty_state(), q6) == s5);
}

/// An exercise number as `bdd validate` records it is a storable identifier,
/// so states built by the commands read back whole.
pub proof fn lemma_exercise_number_storable(n: nat)
    ensures
        storable_id(crate::text::dec(n)),
{
    crate::model::lemma_dec_shape(n);
    let d = crate::text::dec(n);
    assert(!d.contains(',')) by {
        if d.contains(',') {
            let k = choose|k: int| 0 <= k < d.len() && d[k] == ',';
            assert(crate::text::is_digit(d[k]));
        }
    }
    assert(!d.contains('\n')) by {
        if d.contains('\n') {
            let k = choose|k: int| 0 <= k < d.len() && d[k] == '\n';
            assert(crate::text::is_digit(d[k]));
        }
    }
    assert(crate::text::is_digit(d[0]));
    assert(crate::text::is_digit(d[d.len() - 1]));
    lemma_trimmed_same(d);
}

/// Whether the line starts with the first character of `p` (and so, where
/// that character differs from `l`'s first, does not start with `p`).
proof fn lemma_no_prefix(l: Seq<char>, p: Seq<char>)
    requires
        l.len() > 0,
        p.len() > 0,
        l[0] != p[0],
    ensures
        !has_prefix(l, p),
{
    if has_prefix(l, p) {
        assert(l.subrange(0, p.len() as int)[0] == l[0]);
    }
}

proof fn lemma_prefix(key: Seq<char>, v: Seq<char>)
    ensures
        has_prefix(key + v, key),
        after_prefix(key + v, key) == v,
{
    assert((key + v).subrange(0, key.len() as int) =~= key);
    assert(after_prefix(key + v, key) =~= v);
}

proof fn lemma_apply_role_line(s: StateView, r: Option<Role>)
    ensures
        apply_line(s, "user_role="@ + code_of(r)) == (StateView { user_role: r, ..s }),
{
    reveal(apply_line);
    lemma_code_line(r);
    lemma_prefix("user_role="@, code_of(r));
    lemma_code_answer(r);
}

proof fn lemma_apply_ran_line(s: StateView, ids: Seq<Seq<char>>)
    requires
        storable_ids(ids),
    ensures
        apply_line(s, "ran="@ + joined(ids, ","@)) == (StateView { ran: ids, ..s }),
{
    reveal(apply_line);
    reveal_strlit("user_role=");
    reveal_strlit("ran=");
    let l = "ran="@ + joined(ids, ","@);
    lemma_list_line_ran(ids);
    assert(l[0] == 'r');
    lemma_no_prefix(l, "user_role="@);
    lemma_prefix("ran="@, joined(ids, ","@));
    lemma_csv_roundtrip(ids);
}

proof fn lemma_apply_checked_line(s: StateView, ids: Seq<Seq<char>>)
    requires
        storable_ids(ids),
    ensures
        apply_line(s, "checked="@ + joined(ids, ","@)) == (StateView { checked: ids, ..s }),
{
    reveal(apply_line);
    reveal_strlit("user_role=");
    reveal_strlit("ran=");
    reveal_strlit("checked=");
    let l = "checked="@ + joined(ids, ","@);
    lemma_list_line_checked(ids);
    assert(l[0] == 'c');
    lemma_no_prefix(l, "user_role="@);
    lemma_no_prefix(l, "ran="@);
    lemma_prefix("checked="@, joined(ids, ","@));
    lemma_csv_roundtrip(ids);
}

proof fn lemma_apply_validated_line(s: StateView, ids: Seq<Seq<char>>)
    requires
        storable_ids(ids),
    ensures
        apply_line(s, "validated="@ + joined(ids, ","@)) == (StateView { validated: ids, ..s }),
{
    reveal(apply_line);
    reveal_strlit("user_role=");
    reveal_strlit("ran=");
    reveal_strlit("checked=");
    reveal_strlit("validated=");
    let l = "validated="@ + joined(ids, ","@);
    lemma_list_line_validated(ids);
    assert(l[0] == 'v');
    lemma_no_prefix(l, "user_role="@);
    lemma_no_prefix(l, "ran="@);
    lemma_no_prefix(l, "checked="@);
    lemma_prefix("validated="@, joined(ids, ","@));
    lemma_csv_roundtrip(ids);
}

proof fn lemma_apply_seen_line(s: StateView, b: bool)
    ensures
        apply_line(s, "seen_intro="@ + seen_text(b)) == (StateView { seen_intro: b, ..s }),
{
    reveal(apply_line);
    reveal_strlit("user_role=");
    reveal_strlit("ran=");
    reveal_strlit("checked=");
    reveal_strlit("validated=");
    reveal_strlit("seen_intro=");
    reveal_strlit("1");
    reveal_strlit("0");
    let l = "seen_intro="@ + seen_text(b);
    lemma_seen_line(b);
    assert(l[0] == 's');
    lemma_no_prefix(l, "user_role="@);
    lemma_no_prefix(l, "ran="@);
    lemma_no_prefix(l, "checked="@);
    lemma_no_prefix(l, "validated="@);
    lemma_prefix("seen_intro="@, seen_text(b));
    lemma_trimmed_same(seen_text(b));
}

proof fn lemma_apply_empty_line(s: StateView)
    ensures
        apply_line(s, Seq::<char>::empty()) == s,
{
    reveal(apply_line);
    reveal_strlit("user_role=");
    reveal_strlit("ran=");
    reveal_strlit("checked=");
    reveal_strlit("validated=");
    reveal_strlit("seen_intro=");
    assert(trimmed(Seq::<char>::empty()) =~= Seq::<char>::empty());
}

proof fn lemma_seen_line(b: bool)
    ensures
        !("seen_intro="@ + seen_text(b)).contains('\n'),
        trimmed("seen_intro="@ + seen_text(b)) == "seen_intro="@ + seen_text(b),
{
    reveal_strlit("seen_intro=");
    reveal_strlit("1");
    reveal_strlit("0");
    let l = "seen_intro="@ + seen_text(b);
    assert forall|k: int| 0 <= k < l.len() implies l[k] != '\n' by {
        if k >= 11 {
            assert(l[k] == seen_text(b)[k - 11]);
        }
    }
    assert(l[0] == 's');
    assert(l.last() == seen_text(b)[0]);
    lemma_trimmed_same(l);
}

proof fn lemma_list_line_ran(ids: Seq<Seq<char>>)
    requires
        storable_ids(ids),
    ensures
        !("ran="@ + joined(ids, ","@)).contains('\n'),
        trimmed("ran="@ + joined(ids, ","@)) == "ran="@ + joined(ids, ","@),
{
    reveal_strlit("ran=");
    lemma_list_line("ran="@, ids);
}

proof fn lemma_list_line_checked(ids: Seq<Seq<char>>)
    requires
        storable_ids(ids),
    ensures
        !("checked="@ + joined(ids, ","@)).contains('\n'),
        trimmed("checked="@ + joined(ids, ","@)) == "checked="@ + joined(ids, ","@),
{
    reveal_strlit("checked=");
    lemma_list_line("checked="@, ids);
}

proof fn lemma_list_line_validated(ids: Seq<Seq<char>>)
    requires
        storable_ids(ids),
    ensures
        !("validated="@ + joined(ids, ","@)).contains('\n'),
        trimmed("validated="@ + joined(ids, ","@)) == "validated="@ + joined(ids, ","@),
{
    reveal_strlit("validated=");
    lemma_list_line("validated="@, ids);
}

/// A non-empty text that starts and ends with non-whitespace is its own trim.
proof fn lemma_trimmed_same(s: Seq<char>)
    requires
        s.len() > 0,
        !is_ws(s[0]),
        !is_ws(s.last()),
    ensures
        trimmed(s) == s,
{
    assert(trimmed_start(s) == s);
    assert(trimmed_end(s) == s);
}

/// A storable identifier starts and ends with non-whitespace.
proof fn lemma_storable_ends(id: Seq<char>)
    requires
        storable_id(id),
    ensures
        !is_ws(id[0]),
        !is_ws(id.last()),
{
    if is_ws(id[0]) {
        lemma_trimmed_start_shorter(id);
        lemma_trimmed_end_not_longer(trimmed_start(id));
    } else {
        assert(trimmed_start(id) == id);
        if is_ws(id.last()) {
            lemma_trimmed_end_not_longer(id.drop_last());
        }
    }
}

proof fn lemma_trimmed_start_shorter(s: Seq<char>)
    requires
        s.len() > 0,
        is_ws(s[0]),
    ensures
        trimmed_start(s).len() < s.len(),
    decreases s.len(),
{
    lemma_trimmed_start_not_longer(s.drop_first());
}

proof fn lemma_trimmed_start_not_longer(s: Seq<char>)
    ensures
        trimmed_start(s).len() <= s.len(),
    decreases s.len(),
{
    if s.len() > 0 && is_ws(s[0]) {
        lemma_trimmed_start_not_longer(s.drop_first());
    }
}

proof fn lemma_trimmed_end_not_longer(s: Seq<char>)
    ensures
        trimmed_end(s).len() <= s.len(),
    decreases s.len(),
{
    if s.len() > 0 && is_ws(s.last()) {
        lemma_trimmed_end_not_longer(s.drop_last());
    }
}

/// Appending text without the separator extends the last piece.
proof fn lemma_split_extend(p: Seq<char>, y: Seq<char>, sep: char)
    requires
        !y.contains(sep),
    ensures
        split_on(p + y, sep) == split_on(p, sep).update(
            split_on(p, sep).len() - 1,
            split_on(p, sep).last() + y,
        ),
        split_on(p + y, sep).len() == split_on(p, sep).len(),
    decreases y.len(),
{
    lemma_split_nonempty(p, sep);
    let r = split_on(p, sep);
    if y.len() == 0 {
        assert(p + y =~= p);
        assert(r.last() + y =~= r.last());
        assert(r.update(r.len() - 1, r.last()) =~= r);
    } else {
        let y0 = y.drop_last();
        assert(!y0.contains(sep)) by {
            if y0.contains(sep) {
                let k = choose|k: int| 0 <= k < y0.len() && y0[k] == sep;
                assert(y[k] == sep);
            }
        }
        lemma_split_extend(p, y0, sep);
        assert((p + y).drop_last() =~= p + y0);
        assert((p + y).last() == y.last());
        assert(y.last() != sep) by {
            assert(y[y.len() - 1] == y.last());
        }
        let q = split_on(p + y0, sep);
        assert(q.len() == r.len());
        assert(q.last() == r.last() + y0);
        assert(split_on(p + y, sep) == q.update(q.len() - 1, q.last().push(y.last())));
        assert(r.last() + y0 + seq![y.last()] =~= r.last() + y);
        assert(q[q.len() - 1] == r.last() + y0);
        assert(q.last().push(y.last()) =~= r.last() + y);
        assert(q.update(q.len() - 1, q.last().push(y.last())) =~= r.update(
            r.len() - 1,
            r.last() + y,
        ));
    }
}

/// Appending the separator starts a new, empty piece.
proof fn lemma_split_sep(p: Seq<char>, sep: char)
    ensures
        split_on(p + seq![sep], sep) == split_on(p, sep).push(Seq::<char>::empty()),
{
    assert((p + seq![sep]).drop_last() =~= p);
}

/// A text without the separator is a single piece.
proof fn lemma_split_single(y: Seq<char>, sep: char)
    requires
        !y.contains(sep),
    ensures
        split_on(y, sep) == seq![y],
{
    lemma_split_extend(Seq::<char>::empty(), y, sep);
    assert(Seq::<char>::empty() + y =~= y);
    assert(Seq::<char>::empty() + y =~= y);
    assert(seq![Seq::<char>::empty()].update(0, Seq::<char>::empty() + y) =~= seq![y]);
}

/// `p`, the separator, then `y` without the separator: one more piece, `y`.
proof fn lemma_split_then(p: Seq<char>, y: Seq<char>, sep: char)
    requires
        !y.contains(sep),
    ensures
        split_on(p + seq![sep] + y, sep) == split_on(p, sep).push(y),
{
    lemma_split_sep(p, sep);
    lemma_split_extend(p + seq![sep], y, sep);
    let r = split_on(p, sep);
    assert(Seq::<char>::empty() + y =~= y);
    assert(r.push(Seq::<char>::empty()).update(r.len() as int, Seq::<char>::empty() + y) =~= r.push(
        y,
    ));
}

/// The lines of a state file's text.
proof fn lemma_split_lines(
    l1: Seq<char>,
    l2: Seq<char>,
    l3: Seq<char>,
    l4: Seq<char>,
    l5: Seq<char>,
)
    requires
        !l1.contains('\n'),
        !l2.contains('\n'),
        !l3.contains('\n'),
        !l4.contains('\n'),
        !l5.contains('\n'),
    ensures
        split_on(l1 + seq!['\n'] + l2 + seq!['\n'] + l3 + seq!['\n'] + l4 + seq!['\n'] + l5 + seq![
            '\n',
        ], '\n') == seq![l1, l2, l3, l4, l5, Seq::<char>::empty()],
{
    let nl = seq!['\n'];
    lemma_split_single(l1, '\n');
    lemma_split_then(l1, l2, '\n');
    lemma_split_then(l1 + nl + l2, l3, '\n');
    lemma_split_then(l1 + nl + l2 + nl + l3, l4, '\n');
    lemma_split_then(l1 + nl + l2 + nl + l3 + nl + l4, l5, '\n');
    lemma_split_sep(l1 + nl + l2 + nl + l3 + nl + l4 + nl + l5, '\n');
    assert(seq![l1].push(l2).push(l3).push(l4).push(l5).push(Seq::<char>::empty()) =~= seq![
        l1,
        l2,
        l3,
        l4,
        l5,
        Seq::<char>::empty(),
    ]);
}

/// The pieces of a list joined with commas are the list, when no item has a
/// comma.
proof fn lemma_split_joined(ids: Seq<Seq<char>>)
    requires
        ids.len() >= 1,
        forall|i: int| 0 <= i < ids.len() ==> !(#[trigger] ids[i]).contains(','),
    ensures
        split_on(joined(ids, ","@), ',') == ids,
    decreases ids.len(),
{
    reveal_strlit(",");
    if ids.len() == 1 {
        lemma_split_single(ids[0], ',');
        assert(seq![ids[0]] =~= ids);
    } else {
        let d = ids.drop_last();
        assert forall|i: int| 0 <= i < d.len() implies !(#[trigger] d[i]).contains(',') by {
            assert(d[i] == ids[i]);
        }
        lemma_split_joined(d);
        assert(","@ =~= seq![',']);
        assert(!ids.last().contains(',')) by {
            assert(ids[ids.len() - 1] == ids.last());
        }
        lemma_split_then(joined(d, ","@), ids.last(), ',');
        assert(d.push(ids.last()) =~= ids);
    }
}

/// Trimmed, non-empty pieces are kept as they are.
proof fn lemma_nonempty_trimmed_same(ids: Seq<Seq<char>>)
    requires
        storable_ids(ids),
    ensures
        nonempty_trimmed(ids) == ids,
    decreases ids.len(),
{
    if ids.len() > 0 {
        let d = ids.drop_last();
        assert(storable_ids(d)) by {
            assert forall|i: int| 0 <= i < d.len() implies storable_id(#[trigger] d[i]) by {
                assert(d[i] == ids[i]);
            }
        }
        lemma_nonempty_trimmed_same(d);
        assert(storable_id(ids[ids.len() - 1]));
        assert(d.push(ids.last()) =~= ids);
    }
}

/// The items of a comma-joined list of storable identifiers are the list.
proof fn lemma_csv_roundtrip(ids: Seq<Seq<char>>)
    requires
        storable_ids(ids),
    ensures
        csv_items(joined(ids, ","@)) == ids,
{
    if ids.len() == 0 {
        assert(split_on(Seq::<char>::empty(), ',') == seq![Seq::<char>::empty()]);
        assert(trimmed(Seq::<char>::empty()) =~= Seq::<char>::empty());
        assert(seq![Seq::<char>::empty()].drop_last() =~= Seq::<Seq<char>>::empty());
        assert(nonempty_trimmed(Seq::<Seq<char>>::empty()) == Seq::<Seq<char>>::empty());
        assert(seq![Seq::<char>::empty()].last() == Seq::<char>::empty());
        assert(nonempty_trimmed(seq![Seq::<char>::empty()]) =~= ids);
    } else {
        assert forall|i: int| 0 <= i < ids.len() implies !(#[trigger] ids[i]).contains(',') by {
            assert(storable_id(ids[i]));
        }
        lemma_split_joined(ids);
        lemma_nonempty_trimmed_same(ids);
    }
}

/// The last character of a joined list is that of its last item.
proof fn lemma_joined_last(ids: Seq<Seq<char>>)
    requires
        ids.len() > 0,
        ids.last().len() > 0,
    ensures
        joined(ids, ","@).len() > 0,
        joined(ids, ","@).last() == ids.last().last(),
{
    if ids.len() > 1 {
        let j = joined(ids, ","@);
        assert(j == joined(ids.drop_last(), ","@) + ","@ + ids.last());
    }
}

/// Whether no item holds a newline.
pub open spec fn no_newlines(ids: Seq<Seq<char>>) -> bool {
    forall|i: int| 0 <= i < ids.len() ==> !(#[trigger] ids[i]).contains('\n')
}

/// A joined list of identifiers without newlines has no newline.
proof fn lemma_joined_no_newline(ids: Seq<Seq<char>>)
    requires
        no_newlines(ids),
    ensures
        !joined(ids, ","@).contains('\n'),
    decreases ids.len(),
{
    reveal_strlit(",");
    if ids.len() == 1 {
        assert(!ids[0].contains('\n'));
    } else if ids.len() > 1 {
        let d = ids.drop_last();
        assert(no_newlines(d)) by {
            assert forall|i: int| 0 <= i < d.len() implies !(#[trigger] d[i]).contains('\n') by {
                assert(d[i] == ids[i]);
            }
        }
        lemma_joined_no_newline(d);
        assert(!ids[ids.len() - 1].contains('\n'));
        let a = joined(d, ","@);
        let b = ids.last();
        let j = a + ","@ + b;
        assert forall|k: int| 0 <= k < j.len() implies j[k] != '\n' by {
            if k < a.len() {
                assert(j[k] == a[k]);
            } else if k == a.len() {
                assert(j[k] == ',');
            } else {
                assert(j[k] == b[k - a.len() - 1]);
            }
        }
    }
}

/// A list line of the state file: no newline, and its own trim.
proof fn lemma_list_line(key: Seq<char>, ids: Seq<Seq<char>>)
    requires
        storable_ids(ids),
        key.len() > 0,
        !is_ws(key[0]),
        key.last() == '=',
        !key.contains('\n'),
    ensures
        !(key + joined(ids, ","@)).contains('\n'),
        trimmed(key + joined(ids, ","@)) == key + joined(ids, ","@),
{
    let j = joined(ids, ","@);
    let l = key + j;
    assert(no_newlines(ids)) by {
        assert forall|i: int| 0 <= i < ids.len() implies !(#[trigger] ids[i]).contains('\n') by {
            assert(storable_id(ids[i]));
        }
    }
    lemma_joined_no_newline(ids);
    assert forall|k: int| 0 <= k < l.len() implies l[k] != '\n' by {
        if k < key.len() {
            assert(l[k] == key[k]);
        } else {
            assert(l[k] == j[k - key.len()]);
        }
    }
    if ids.len() > 0 {
        assert(storable_id(ids[ids.len() - 1]));
        lemma_storable_ends(ids.last());
        lemma_joined_last(ids);
        assert(l.last() == j.last());
    } else {
        assert(j =~= Seq::<char>::empty());
        assert(l =~= key);
    }
    assert(l[0] == key[0]);
    lemma_trimmed_same(l);
}

/// The role line of the state file: no newline, and its own trim.
proof fn lemma_code_line(r: Option<Role>)
    ensures
        !("user_role="@ + code_of(r)).contains('\n'),
        trimmed("user_role="@ + code_of(r)) == "user_role="@ + code_of(r),
{
    reveal_strlit("user_role=");
    reveal_strlit("mgm");
    reveal_strlit("n1");
    reveal_strlit("n2");
    let l = "user_role="@ + code_of(r);
    assert forall|k: int| 0 <= k < l.len() implies l[k] != '\n' by {
        if k >= 10 {
            assert(l[k] == code_of(r)[k - 10]);
        }
    }
    assert(l[0] == 'u');
    lemma_trimmed_same(l);
}

/// A role code reads back as its role, and nothing reads back as no role.
proof fn lemma_code_answer(r: Option<Role>)
    ensures
        role_answer(code_of(r)) == r,
{
    reveal_strlit("mgm");
    reveal_strlit("n1");
    reveal_strlit("n2");
    reveal_strlit("1");
    reveal_strlit("2");
    reveal_strlit("3");
    let c = code_of(r);
    if c.len() > 0 {
        lemma_trimmed_same(c);
    } else {
        assert(trimmed(c) =~= c);
    }
    assert(all_ascii(c));
    assert(ascii_lower(c) =~= c);
}

} // verus!
