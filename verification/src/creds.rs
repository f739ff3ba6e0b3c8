//! The credentials grid of `bdd inject`: up to three user/password columns,
//! each labelled with the machine it is for ("Any" for all), and the focus
//! that moves over the grid and its two buttons.
use vstd::prelude::*;
use crate::model::Role;

verus! {

/// The label of a credentials column: the machine it is for.
#[derive(Clone, Copy, PartialEq, Eq, Debug, Structural)]
pub enum ColLabel {
    Any,
    Mgm,
    N1,
    N2,
}

pub open spec fn label_role(l: ColLabel) -> Option<Role> {
    match l {
        ColLabel::Mgm => Some(Role::Mgm),
        ColLabel::N1 => Some(Role::N1),
        ColLabel::N2 => Some(Role::N2),
        ColLabel::Any => None,
    }
}

pub open spec fn label_text(l: ColLabel) -> Seq<char> {
    match l {
        ColLabel::Any => "Any"@,
        ColLabel::Mgm => "MGM"@,
        ColLabel::N1 => "N1"@,
        ColLabel::N2 => "N2"@,
    }
}

impl ColLabel {
    pub fn text(self) -> (r: &'static str)
        ensures
            r@ == label_text(self),
    {
        match self {
            ColLabel::Any => "Any",
            ColLabel::Mgm => "MGM",
            ColLabel::N1 => "N1",
            ColLabel::N2 => "N2",
        }
    }

    pub fn role(self) -> (r: Option<Role>)
        ensures
            r == label_role(self),
    {
        match self {
            ColLabel::Mgm => Some(Role::Mgm),
            ColLabel::N1 => Some(Role::N1),
            ColLabel::N2 => Some(Role::N2),
            ColLabel::Any => None,
        }
    }
}

/// One column of credentials.
#[derive(Debug)]
pub struct Cred {
    pub label: ColLabel,
    pub user: String,
    pub pass: String,
}

pub struct CredView {
    pub label: ColLabel,
    pub user: Seq<char>,
    pub pass: Seq<char>,
}

impl View for Cred {
    type V = CredView;

    open spec fn view(&self) -> CredView {
        CredView { label: self.label, user: self.user@, pass: self.pass@ }
    }
}

pub open spec fn is_filled(c: CredView) -> bool {
    c.user.len() > 0 || c.pass.len() > 0
}

pub open spec fn empty_cred() -> CredView {
    CredView { label: ColLabel::Any, user: Seq::empty(), pass: Seq::empty() }
}

pub open spec fn creds_view(cols: Seq<Cred>) -> Seq<CredView> {
    cols.map_values(|c: Cred| c@)
}

impl Cred {
    /// A column with nothing typed in, for any machine.
    pub fn blank() -> (r: Cred)
        ensures
            r@ == empty_cred(),
    {
        Cred { label: ColLabel::Any, user: String::new(), pass: String::new() }
    }

    /// Whether something was typed in the column.
    pub fn filled(&self) -> (b: bool)
        ensures
            b == is_filled(self@),
    {
        self.user.unicode_len() > 0 || self.pass.unicode_len() > 0
    }

    /// A copy of the column.
    pub fn duplicate(&self) -> (r: Cred)
        ensures
            r@ == self@,
    {
        Cred { label: self.label, user: self.user.clone(), pass: self.pass.clone() }
    }
}

/// The filled columns, in order.
pub open spec fn filled_only(cols: Seq<CredView>) -> Seq<CredView>
    decreases cols.len(),
{
    if cols.len() == 0 {
        Seq::empty()
    } else if is_filled(cols.last()) {
        filled_only(cols.drop_last()).push(cols.last())
    } else {
        filled_only(cols.drop_last())
    }
}

/// The filled columns, then one empty column when there are fewer than three.
pub open spec fn compacted(cols: Seq<CredView>) -> Seq<CredView> {
    let k = filled_only(cols);
    if k.len() < 3 {
        k.push(empty_cred())
    } else {
        k
    }
}

/// Keeps the filled columns and at most one empty one, at the end.
pub fn compact_cols(cols: &mut Vec<Cred>)
    ensures
        creds_view(final(cols)@) == compacted(creds_view(old(cols)@)),
{
    let mut kept: Vec<Cred> = Vec::new();
    let n = cols.len();
    let ghost orig = creds_view(cols@);
    let mut i: usize = 0;
    assert(orig.subrange(0, 0) =~= Seq::<CredView>::empty());
    assert(creds_view(kept@) =~= Seq::<CredView>::empty());
    while i < n
        invariant
            n == cols@.len(),
            orig == creds_view(cols@),
            i <= n,
            creds_view(kept@) == filled_only(orig.subrange(0, i as int)),
        decreases n - i,
    {
        let ghost pre = orig.subrange(0, i as int);
        assert(orig.subrange(0, i + 1).drop_last() =~= pre);
        assert(orig.subrange(0, i + 1).last() == cols@[i as int]@);
        if cols[i].filled() {
            let c = cols[i].duplicate();
            let ghost k0 = creds_view(kept@);
            kept.push(c);
            assert(creds_view(kept@) =~= k0.push(cols@[i as int]@));
        }
        i = i + 1;
    }
    assert(orig.subrange(0, n as int) =~= orig);
    if kept.len() < 3 {
        let ghost k0 = creds_view(kept@);
        kept.push(Cred::blank());
        assert(creds_view(kept@) =~= k0.push(empty_cred()));
    }
    *cols = kept;
}

/// The labels of the filled columns other than column `idx`, in order.
pub open spec fn used_labels_upto(cols: Seq<CredView>, idx: int, n: nat) -> Seq<ColLabel>
    decreases n,
{
    if n == 0 {
        Seq::empty()
    } else if n - 1 != idx && is_filled(cols[n - 1]) {
        used_labels_upto(cols, idx, (n - 1) as nat).push(cols[n - 1].label)
    } else {
        used_labels_upto(cols, idx, (n - 1) as nat)
    }
}

pub open spec fn used_labels(cols: Seq<CredView>, idx: int) -> Seq<ColLabel> {
    used_labels_upto(cols, idx, cols.len())
}

/// The labels of the filled columns other than column `idx` (an empty
/// column does not hold its label).
pub fn labels_used_by_others(cols: &Vec<Cred>, idx: usize) -> (r: Vec<ColLabel>)
    ensures
        r@ == used_labels(creds_view(cols@), idx as int),
{
    let mut out: Vec<ColLabel> = Vec::new();
    let mut i: usize = 0;
    while i < cols.len()
        invariant
            i <= cols@.len(),
            out@ == used_labels_upto(creds_view(cols@), idx as int, i as nat),
        decreases cols@.len() - i,
    {
        if i != idx && cols[i].filled() {
            out.push(cols[i].label);
        }
        i = i + 1;
    }
    out
}

/// The number of filled columns.
pub open spec fn filled_count(cols: Seq<CredView>) -> nat {
    filled_only(cols).len()
}

/// The labels that column `idx` may take: "Any" while fewer than three
/// columns are filled and no other has it, then each machine that no other
/// filled column has.
pub open spec fn label_options(cols: Seq<CredView>, idx: int) -> Seq<ColLabel> {
    let used = used_labels(cols, idx);
    let a: Seq<ColLabel> = if filled_count(cols) < 3 && !used.contains(ColLabel::Any) {
        seq![ColLabel::Any]
    } else {
        Seq::empty()
    };
    let b = if !used.contains(ColLabel::Mgm) {
        a.push(ColLabel::Mgm)
    } else {
        a
    };
    let c = if !used.contains(ColLabel::N1) {
        b.push(ColLabel::N1)
    } else {
        b
    };
    if !used.contains(ColLabel::N2) {
        c.push(ColLabel::N2)
    } else {
        c
    }
}

fn count_filled(cols: &Vec<Cred>) -> (n: usize)
    ensures
        n == filled_count(creds_view(cols@)),
{
    let mut n: usize = 0;
    let mut i: usize = 0;
    let ghost v = creds_view(cols@);
    assert(v.subrange(0, 0) =~= Seq::<CredView>::empty());
    while i < cols.len()
        invariant
            i <= cols@.len(),
            v == creds_view(cols@),
            n == filled_only(v.subrange(0, i as int)).len(),
            n <= i,
        decreases cols@.len() - i,
    {
        assert(v.subrange(0, i + 1).drop_last() =~= v.subrange(0, i as int));
        assert(v.subrange(0, i + 1).last() == cols@[i as int]@);
        if cols[i].filled() {
            n = n + 1;
        }
        i = i + 1;
    }
    assert(v.subrange(0, cols@.len() as int) =~= v);
    n
}

fn has_label(v: &Vec<ColLabel>, l: ColLabel) -> (b: bool)
    ensures
        b == v@.contains(l),
{
    let mut i: usize = 0;
    while i < v.len()
        invariant
            i <= v@.len(),
            forall|j: int| 0 <= j < i ==> v@[j] != l,
        decreases v@.len() - i,
    {
        if v[i] == l {
            assert(v@[i as int] == l);
            return true;
        }
        i = i + 1;
    }
    false
}

/// The labels that column `idx` may take.
pub fn options_for(cols: &Vec<Cred>, idx: usize) -> (r: Vec<ColLabel>)
    ensures
        r@ == label_options(creds_view(cols@), idx as int),
{
    let used = labels_used_by_others(cols, idx);
    let nfilled = count_filled(cols);
    let mut opts: Vec<ColLabel> = Vec::new();
    if nfilled < 3 && !has_label(&used, ColLabel::Any) {
        opts.push(ColLabel::Any);
    }
    if !has_label(&used, ColLabel::Mgm) {
        opts.push(ColLabel::Mgm);
    }
    if !has_label(&used, ColLabel::N1) {
        opts.push(ColLabel::N1);
    }
    if !has_label(&used, ColLabel::N2) {
        opts.push(ColLabel::N2);
    }
    assert(opts@ =~= label_options(creds_view(cols@), idx as int));
    opts
}

/// Column `i` with its label set to one it may take: kept when allowed,
/// else the first allowed one (or "Any").
pub open spec fn normalized_at(cols: Seq<CredView>, i: int) -> Seq<CredView> {
    let opts = label_options(cols, i);
    if opts.contains(cols[i].label) {
        cols
    } else {
        cols.update(
            i,
            CredView {
                label: if opts.len() > 0 {
                    opts[0]
                } else {
                    ColLabel::Any
                },
                ..cols[i]
            },
        )
    }
}

/// The columns after normalizing the first `n` labels, one after another.
pub open spec fn normalized_upto(cols: Seq<CredView>, n: nat) -> Seq<CredView>
    decreases n,
{
    if n == 0 {
        cols
    } else {
        let c = normalized_upto(cols, (n - 1) as nat);
        if n - 1 < c.len() {
            normalized_at(c, n - 1)
        } else {
            c
        }
    }
}

/// Normalizing labels keeps the number of columns.
pub proof fn lemma_normalized_len(cols: Seq<CredView>, n: nat)
    ensures
        normalized_upto(cols, n).len() == cols.len(),
    decreases n,
{
    if n > 0 {
        lemma_normalized_len(cols, (n - 1) as nat);
    }
}

/// Gives every column, in turn, a label it may take.
pub fn normalize_labels(cols: &mut Vec<Cred>)
    ensures
        creds_view(final(cols)@) == normalized_upto(creds_view(old(cols)@), old(cols)@.len()),
{
    let ghost orig = creds_view(cols@);
    let n = cols.len();
    let mut i: usize = 0;
    while i < n
        invariant
            n == cols@.len(),
            i <= n,
            orig.len() == n,
            creds_view(cols@) == normalized_upto(orig, i as nat),
        decreases n - i,
    {
        proof {
            lemma_normalized_len(orig, i as nat);
        }
        let opts = options_for(cols, i);
        if !has_label(&opts, cols[i].label) {
            let l = if opts.len() > 0 {
                opts[0]
            } else {
                ColLabel::Any
            };
            let ghost before = creds_view(cols@);
            let c = Cred { label: l, user: cols[i].user.clone(), pass: cols[i].pass.clone() };
            cols.set(i, c);
            assert(creds_view(cols@) =~= before.update(i as int, CredView { label: l, ..before[i as int] }));
        }
        i = i + 1;
    }
}

/// The next label that column `idx` may take, after its current one.
pub open spec fn cycled(cols: Seq<CredView>, idx: int) -> Seq<CredView> {
    let opts = label_options(cols, idx);
    if opts.len() == 0 {
        cols
    } else {
        let cur = if opts.contains(cols[idx].label) {
            opts.index_of(cols[idx].label)
        } else {
            0
        };
        cols.update(idx, CredView { label: opts[(cur + 1) % (opts.len() as int)], ..cols[idx] })
    }
}

/// Moves column `idx` to the next label it may take.
pub fn cycle_label(cols: &mut Vec<Cred>, idx: usize)
    requires
        idx < old(cols)@.len(),
    ensures
        creds_view(final(cols)@) == cycled(creds_view(old(cols)@), idx as int),
{
    let opts = options_for(cols, idx);
    if opts.len() == 0 {
        return;
    }
    let mut cur: usize = 0;
    let mut k: usize = 0;
    let mut found = false;
    while k < opts.len()
        invariant
            k <= opts@.len(),
            idx < cols@.len(),
            !found ==> forall|j: int| 0 <= j < k ==> opts@[j] != cols@[idx as int].label,
            found ==> cur < opts@.len() && opts@[cur as int] == cols@[idx as int].label
                && forall|j: int| 0 <= j < cur ==> opts@[j] != cols@[idx as int].label,
            !found ==> cur == 0,
        decreases opts@.len() - k,
    {
        if !found && opts[k] == cols[idx].label {
            cur = k;
            found = true;
        }
        k = k + 1;
    }
    proof {
        let l = cols@[idx as int].label;
        if found {
            assert(opts@.contains(l));
            opts@.index_of_first_ensures(l);
            assert(opts@.index_of(l) == cur);
        } else {
            assert(!opts@.contains(l));
        }
    }
    let next = opts[(cur + 1) % opts.len()];
    let ghost before = creds_view(cols@);
    let c = Cred { label: next, user: cols[idx].user.clone(), pass: cols[idx].pass.clone() };
    cols.set(idx, c);
    assert(creds_view(cols@) =~= before.update(idx as int, CredView { label: next, ..before[idx as int] }));
}

/// The columns with a user name, in order.
pub open spec fn with_user(cols: Seq<CredView>) -> Seq<CredView>
    decreases cols.len(),
{
    if cols.len() == 0 {
        Seq::empty()
    } else if cols.last().user.len() > 0 {
        with_user(cols.drop_last()).push(cols.last())
    } else {
        with_user(cols.drop_last())
    }
}

/// The credentials to try: the columns with a user name.
pub fn collect(cols: &Vec<Cred>) -> (r: Vec<Cred>)
    ensures
        creds_view(r@) == with_user(creds_view(cols@)),
{
    let mut out: Vec<Cred> = Vec::new();
    let ghost v = creds_view(cols@);
    let mut i: usize = 0;
    assert(v.subrange(0, 0) =~= Seq::<CredView>::empty());
    assert(creds_view(out@) =~= Seq::<CredView>::empty());
    while i < cols.len()
        invariant
            i <= cols@.len(),
            v == creds_view(cols@),
            creds_view(out@) == with_user(v.subrange(0, i as int)),
        decreases cols@.len() - i,
    {
        assert(v.subrange(0, i + 1).drop_last() =~= v.subrange(0, i as int));
        assert(v.subrange(0, i + 1).last() == cols@[i as int]@);
        if cols[i].user.unicode_len() > 0 {
            let ghost o = creds_view(out@);
            out.push(cols[i].duplicate());
            assert(creds_view(out@) =~= o.push(cols@[i as int]@));
        }
        i = i + 1;
    }
    assert(v.subrange(0, cols@.len() as int) =~= v);
    out
}

// ------------------------------------------------------------------ focus

/// A valid focus on the grid: rows 0 (label), 1 (user), 2 (password) over
/// the `ncols` columns, and row 3 over the two buttons (Enter, Esc).
pub open spec fn valid_focus(row: usize, col: usize, ncols: usize) -> bool {
    if row == 3 {
        col <= 1
    } else {
        row < 3 && col < ncols
    }
}

pub open spec fn tab_next_spec(row: usize, col: usize, ncols: usize) -> (usize, usize) {
    if row == 3 {
        if col == 0 {
            (3, 1)
        } else {
            (0, 0)
        }
    } else if row < 2 {
        ((row + 1) as usize, col)
    } else if col + 1 < ncols {
        (0, (col + 1) as usize)
    } else {
        (3, 0)
    }
}

pub open spec fn tab_prev_spec(row: usize, col: usize, ncols: usize) -> (usize, usize) {
    if row == 3 {
        if col == 1 {
            (3, 0)
        } else {
            (2, (ncols - 1) as usize)
        }
    } else if row > 0 {
        ((row - 1) as usize, col)
    } else if col > 0 {
        (2, (col - 1) as usize)
    } else {
        (3, 1)
    }
}

/// Tab: down the column, then to the next column's label, then the buttons.
pub fn tab_next(row: &mut usize, col: &mut usize, ncols: usize)
    requires
        *old(col) < usize::MAX,
    ensures
        (*final(row), *final(col)) == tab_next_spec(*old(row), *old(col), ncols),
{
    if *row == 3 {
        if *col == 0 {
            *col = 1;
        } else {
            *row = 0;
            *col = 0;
        }
    } else if *row < 2 {
        *row += 1;
    } else {
        *row = 0;
        if *col + 1 < ncols {
            *col += 1;
        } else {
            *row = 3;
            *col = 0;
        }
    }
}

/// Shift+Tab: the reverse of Tab.
pub fn tab_prev(row: &mut usize, col: &mut usize, ncols: usize)
    requires
        ncols >= 1,
    ensures
        (*final(row), *final(col)) == tab_prev_spec(*old(row), *old(col), ncols),
{
    if *row == 3 {
        if *col == 1 {
            *col = 0;
        } else {
            *row = 2;
            *col = ncols - 1;
        }
    } else if *row > 0 {
        *row -= 1;
    } else {
        *row = 2;
        if *col > 0 {
            *col -= 1;
        } else {
            *row = 3;
            *col = 1;
        }
    }
}

pub open spec fn clamp_int(x: int, lo: int, hi: int) -> int {
    if x < lo {
        lo
    } else if x > hi {
        hi
    } else {
        x
    }
}

pub open spec fn move2_spec(row: usize, col: usize, dr: i32, dc: i32, ncols: usize) -> (usize, usize) {
    let nr = clamp_int(row + dr, 0, 3);
    let maxc = if nr == 3 {
        1
    } else if ncols == 0 {
        0
    } else {
        ncols - 1
    };
    (nr as usize, clamp_int(col + dc, 0, maxc) as usize)
}

/// Arrow keys: moves the focus by (dr, dc), kept on the grid.
pub fn move2(row: &mut usize, col: &mut usize, dr: i32, dc: i32, ncols: usize)
    requires
        *old(row) <= i32::MAX,
        *old(row) + dr <= i32::MAX,
        *old(col) + dc <= i32::MAX,
        *old(col) <= i32::MAX,
        ncols <= i32::MAX,
    ensures
        (*final(row), *final(col)) == move2_spec(*old(row), *old(col), dr, dc, ncols),
{
    let r0 = *row as i32;
    let t = r0 + dr;
    let nr: i32 = if t < 0 {
        0
    } else if t > 3 {
        3
    } else {
        t
    };
    *row = nr as usize;
    let maxc: usize = if *row == 3 {
        1
    } else if ncols == 0 {
        0
    } else {
        ncols - 1
    };
    let c0 = *col as i32;
    let s = c0 + dc;
    let nc: i32 = if s < 0 {
        0
    } else if s > maxc as i32 {
        maxc as i32
    } else {
        s
    };
    *col = nc as usize;
}


// ------------------------------------------------------------------ laws

/// Tab then Shift+Tab comes back to where it started, and so does Shift+Tab
/// then Tab, from every focus on the grid.
pub proof fn lemma_tab_roundtrip(row: usize, col: usize, ncols: usize)
    requires
        valid_focus(row, col, ncols),
        ncols >= 1,
    ensures
        tab_prev_spec(tab_next_spec(row, col, ncols).0, tab_next_spec(row, col, ncols).1, ncols) == (
        row,
        col,
        ),
        tab_next_spec(tab_prev_spec(row, col, ncols).0, tab_prev_spec(row, col, ncols).1, ncols) == (
        row,
        col,
        ),
{
}

/// Tab, Shift+Tab and the arrow keys keep the focus on the grid.
pub proof fn lemma_focus_stays_on_grid(row: usize, col: usize, ncols: usize, dr: i32, dc: i32)
    requires
        valid_focus(row, col, ncols),
        ncols >= 1,
    ensures
        valid_focus(tab_next_spec(row, col, ncols).0, tab_next_spec(row, col, ncols).1, ncols),
        valid_focus(tab_prev_spec(row, col, ncols).0, tab_prev_spec(row, col, ncols).1, ncols),
        valid_focus(move2_spec(row, col, dr, dc, ncols).0, move2_spec(row, col, dr, dc, ncols).1, ncols),
{
}

proof fn lemma_filled_only_filled(cols: Seq<CredView>)
    ensures
        forall|i: int| 0 <= i < filled_only(cols).len() ==> is_filled(#[trigger] filled_only(cols)[i]),
        filled_only(cols).len() <= cols.len(),
    decreases cols.len(),
{
    if cols.len() > 0 {
        lemma_filled_only_filled(cols.drop_last());
    }
}

proof fn lemma_filled_only_of_filled(cols: Seq<CredView>)
    requires
        forall|i: int| 0 <= i < cols.len() ==> is_filled(#[trigger] cols[i]),
    ensures
        filled_only(cols) == cols,
    decreases cols.len(),
{
    if cols.len() > 0 {
        let d = cols.drop_last();
        assert forall|i: int| 0 <= i < d.len() implies is_filled(#[trigger] d[i]) by {
            assert(d[i] == cols[i]);
        }
        lemma_filled_only_of_filled(d);
        assert(d.push(cols.last()) =~= cols);
    }
}

/// After compaction there is at least one column, every column but the last
/// is filled, the last is the one empty column exactly when fewer than three
/// are filled, and compacting again changes nothing.
pub proof fn lemma_compacted_shape(cols: Seq<CredView>)
    ensures
        compacted(cols).len() >= 1,
        forall|i: int| 0 <= i < compacted(cols).len() - 1 ==> is_filled(#[trigger] compacted(cols)[i]),
        (compacted(cols).last() == empty_cred()) <==> filled_count(cols) < 3,
        filled_count(cols) <= 3 ==> compacted(cols).len() <= 3,
        cols.len() <= 3 ==> compacted(cols).len() <= 3,
        compacted(compacted(cols)) == compacted(cols),
{
    let k = filled_only(cols);
    lemma_filled_only_filled(cols);
    lemma_filled_only_of_filled(k);
    let c = compacted(cols);
    if k.len() < 3 {
        assert(c == k.push(empty_cred()));
        assert(c.drop_last() =~= k);
        assert(!is_filled(empty_cred()));
        assert(filled_only(c) == filled_only(k));
    } else {
        assert(c == k);
        assert(is_filled(k.last()));
        if c.last() == empty_cred() {
            assert(is_filled(empty_cred()));
        }
    }
}

/// No two filled columns have the same label.
pub open spec fn labels_distinct(cols: Seq<CredView>) -> bool {
    forall|i: int, j: int|
        0 <= i < cols.len() && 0 <= j < cols.len() && i != j && is_filled(#[trigger] cols[i]) && is_filled(
            #[trigger] cols[j],
        ) ==> cols[i].label != cols[j].label
}

/// No filled column other than `i` has the label of column `i`, if it is filled.
pub open spec fn label_unique_at(cols: Seq<CredView>, i: int) -> bool {
    is_filled(cols[i]) ==> forall|j: int|
        0 <= j < cols.len() && j != i && is_filled(#[trigger] cols[j]) ==> cols[j].label != cols[i].label
}

proof fn lemma_used_upto(cols: Seq<CredView>, idx: int, n: nat)
    requires
        n <= cols.len(),
    ensures
        forall|l: ColLabel| #[trigger] used_labels_upto(cols, idx, n).contains(l) <==> exists|j: int|
            0 <= j < n && j != idx && is_filled(cols[j]) && cols[j].label == l,
        used_labels_upto(cols, idx, n).len() <= n,
        0 <= idx < n ==> used_labels_upto(cols, idx, n).len() < n,
    decreases n,
{
    if n > 0 {
        let m = (n - 1) as nat;
        lemma_used_upto(cols, idx, m);
        let u = used_labels_upto(cols, idx, n);
        let um = used_labels_upto(cols, idx, m);
        assert forall|l: ColLabel| #[trigger] u.contains(l) <==> exists|j: int|
            0 <= j < n && j != idx && is_filled(cols[j]) && cols[j].label == l by {
            if m != idx && is_filled(cols[m as int]) {
                assert(u == um.push(cols[m as int].label));
                if u.contains(l) {
                    let k = choose|k: int| 0 <= k < u.len() && u[k] == l;
                    if k < um.len() {
                        assert(um[k] == l);
                        assert(um.contains(l));
                    }
                }
                if exists|j: int| 0 <= j < n && j != idx && is_filled(cols[j]) && cols[j].label == l {
                    let j = choose|j: int| 0 <= j < n && j != idx && is_filled(cols[j]) && cols[j].label == l;
                    if j < m {
                        assert(um.contains(l));
                        let k = choose|k: int| 0 <= k < um.len() && um[k] == l;
                        assert(u[k] == l);
                    } else {
                        assert(u[um.len() as int] == l);
                    }
                }
            } else {
                assert(u == um);
                if exists|j: int| 0 <= j < n && j != idx && is_filled(cols[j]) && cols[j].label == l {
                    let j = choose|j: int| 0 <= j < n && j != idx && is_filled(cols[j]) && cols[j].label == l;
                    assert(j != m);
                }
            }
        }
    }
}

/// A label that column `i` may take is held by no other filled column.
proof fn lemma_option_free(cols: Seq<CredView>, i: int, l: ColLabel)
    requires
        0 <= i < cols.len(),
        label_options(cols, i).contains(l),
    ensures
        forall|j: int| 0 <= j < cols.len() && j != i && is_filled(#[trigger] cols[j]) ==> cols[j].label != l,
{
    lemma_used_upto(cols, i, cols.len());
    let used = used_labels(cols, i);
    assert(!used.contains(l));
    assert forall|j: int| 0 <= j < cols.len() && j != i && is_filled(#[trigger] cols[j]) implies cols[j].label != l by {
        if cols[j].label == l {
            assert(used.contains(l));
        }
    }
}

/// With at most three columns, every column may take some label.
proof fn lemma_options_nonempty(cols: Seq<CredView>, i: int)
    requires
        0 <= i < cols.len(),
        cols.len() <= 3,
    ensures
        label_options(cols, i).len() > 0,
{
    lemma_used_upto(cols, i, cols.len());
    let used = used_labels(cols, i);
    assert(used.len() <= 2);
    if used.contains(ColLabel::Mgm) && used.contains(ColLabel::N1) && used.contains(ColLabel::N2) {
        let a = choose|a: int| 0 <= a < used.len() && used[a] == ColLabel::Mgm;
        let b = choose|b: int| 0 <= b < used.len() && used[b] == ColLabel::N1;
        let c = choose|c: int| 0 <= c < used.len() && used[c] == ColLabel::N2;
        assert(false);
    }
}

proof fn lemma_normalized_at(cols: Seq<CredView>, i: int)
    requires
        0 <= i < cols.len(),
        label_options(cols, i).len() > 0,
    ensures
        normalized_at(cols, i).len() == cols.len(),
        forall|j: int| 0 <= j < cols.len() && j != i ==> #[trigger] normalized_at(cols, i)[j] == cols[j],
        normalized_at(cols, i)[i].user == cols[i].user,
        normalized_at(cols, i)[i].pass == cols[i].pass,
        label_options(cols, i).contains(normalized_at(cols, i)[i].label),
{
    let opts = label_options(cols, i);
    if !opts.contains(cols[i].label) {
        assert(opts.contains(opts[0]));
    }
}

proof fn lemma_normalize_upto_unique(cols: Seq<CredView>, n: nat)
    requires
        n <= cols.len(),
        cols.len() <= 3,
    ensures
        normalized_upto(cols, n).len() == cols.len(),
        forall|j: int| 0 <= j < cols.len() ==> is_filled(#[trigger] normalized_upto(cols, n)[j]) == is_filled(cols[j]),
        forall|j: int| 0 <= j < n ==> #[trigger] label_unique_at(normalized_upto(cols, n), j),
    decreases n,
{
    if n > 0 {
        let m = (n - 1) as nat;
        lemma_normalize_upto_unique(cols, m);
        let c = normalized_upto(cols, m);
        let i = m as int;
        lemma_options_nonempty(c, i);
        lemma_normalized_at(c, i);
        let d = normalized_at(c, i);
        assert(d == normalized_upto(cols, n));
        assert forall|j: int| 0 <= j < cols.len() implies is_filled(#[trigger] d[j]) == is_filled(cols[j]) by {
            assert(is_filled(c[j]) == is_filled(cols[j]));
        }
        lemma_option_free(c, i, d[i].label);
        assert forall|j: int| 0 <= j < n implies #[trigger] label_unique_at(d, j) by {
            if j == i {
                assert forall|k: int| 0 <= k < d.len() && k != i && is_filled(#[trigger] d[k]) implies d[k].label != d[i].label by {
                    assert(d[k] == c[k]);
                }
            } else {
                assert(label_unique_at(c, j));
                if is_filled(d[j]) {
                    assert forall|k: int| 0 <= k < d.len() && k != j && is_filled(#[trigger] d[k]) implies d[k].label != d[j].label by {
                        assert(d[j] == c[j]);
                        if k != i {
                            assert(d[k] == c[k]);
                        } else {
                            assert(is_filled(c[j]));
                        }
                    }
                }
            }
        }
    }
}

/// With at most three columns, after normalizing no two filled columns have
/// the same label.
pub proof fn lemma_normalized_labels_distinct(cols: Seq<CredView>)
    requires
        cols.len() <= 3,
    ensures
        labels_distinct(normalized_upto(cols, cols.len())),
        normalized_upto(cols, cols.len()).len() == cols.len(),
{
    lemma_normalize_upto_unique(cols, cols.len());
    let d = normalized_upto(cols, cols.len());
    assert forall|i: int, j: int|
        0 <= i < d.len() && 0 <= j < d.len() && i != j && is_filled(#[trigger] d[i]) && is_filled(
            #[trigger] d[j],
        ) implies d[i].label != d[j].label by {
        assert(label_unique_at(d, i));
    }
}

/// Cycling a column's label keeps the labels of the filled columns distinct.
pub proof fn lemma_cycle_keeps_distinct(cols: Seq<CredView>, idx: int)
    requires
        0 <= idx < cols.len(),
        labels_distinct(cols),
    ensures
        labels_distinct(cycled(cols, idx)),
        cycled(cols, idx).len() == cols.len(),
{
    let opts = label_options(cols, idx);
    if opts.len() > 0 {
        let cur = if opts.contains(cols[idx].label) {
            opts.index_of(cols[idx].label)
        } else {
            0
        };
        if opts.contains(cols[idx].label) {
            opts.index_of_first_ensures(cols[idx].label);
        }
        let n = opts.len() as int;
        assert(0 <= (cur + 1) % n < n);
        let l = opts[(cur + 1) % n];
        assert(opts.contains(l));
        lemma_option_free(cols, idx, l);
        let d = cycled(cols, idx);
        assert forall|i: int, j: int|
            0 <= i < d.len() && 0 <= j < d.len() && i != j && is_filled(#[trigger] d[i]) && is_filled(
                #[trigger] d[j],
            ) implies d[i].label != d[j].label by {
            if i != idx && j != idx {
                assert(d[i] == cols[i] && d[j] == cols[j]);
            } else if i == idx {
                assert(d[j] == cols[j]);
            } else {
                assert(d[i] == cols[i]);
            }
        }
    }
}

} // verus!
