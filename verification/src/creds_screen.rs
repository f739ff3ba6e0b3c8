//! The first screen of `bdd inject`: the credentials grid, how it is drawn and
//! how it answers each key.
use vstd::prelude::*;
use crate::creds::{
    collect, compact_cols, compacted, creds_view, cycle_label, cycled, empty_cred, is_filled,
    label_text, labels_distinct, lemma_compacted_shape, lemma_cycle_keeps_distinct,
    lemma_focus_stays_on_grid, lemma_normalized_labels_distinct, lemma_normalized_len, move2,
    move2_spec, normalize_labels, normalized_upto, tab_next, tab_next_spec, tab_prev,
    tab_prev_spec, valid_focus, with_user, Cred, CredView,
};
use crate::keys::Key;
use crate::panel::{
    buttons_lines, buttons_rows, center, centered, colored, fg, pad, padded, FG_BRIGHT, FG_CYAN,
    FG_DIM, FG_NORM, GUT, SEG, W,
};
use crate::text::{is_whitespace, push_char, repeat, repeated};

verus! {

/// The text left of grid line `kind`.
pub open spec fn row_label(kind: int) -> Seq<char> {
    if kind == 2 {
        "user"@
    } else if kind == 5 {
        "senha"@
    } else {
        ""@
    }
}

fn row_label_text(kind: usize) -> (r: &'static str)
    ensures
        r@ == row_label(kind as int),
{
    if kind == 2 {
        "user"
    } else if kind == 5 {
        "senha"
    } else {
        ""
    }
}

/// `s` aligned right in five characters.
pub open spec fn right5(s: Seq<char>) -> Seq<char> {
    if s.len() >= 5 {
        s
    } else {
        repeated(" "@, (5 - s.len()) as nat) + s
    }
}

fn align_right5(s: &str) -> (r: String)
    ensures
        r@ == right5(s@),
{
    let n = s.unicode_len();
    if n >= 5 {
        s.to_string()
    } else {
        let mut out = repeat(" ", 5 - n);
        out.append(s);
        out
    }
}

/// The row labels of grid line `kind`, in the gutter.
pub open spec fn gutter(kind: int) -> Seq<char> {
    colored(FG_DIM@, padded(right5(row_label(kind)) + " "@, GUT as nat))
}

/// The colour of a box of the grid: cyan when focused, dim when the column
/// is empty.
pub open spec fn seg_code(focused: bool, unfilled: bool) -> Seq<char> {
    if focused {
        FG_CYAN@
    } else if unfilled {
        FG_DIM@
    } else {
        FG_NORM@
    }
}

fn seg_color(focused: bool, unfilled: bool) -> (r: &'static str)
    ensures
        r@ == seg_code(focused, unfilled),
{
    if focused {
        FG_CYAN
    } else if unfilled {
        FG_DIM
    } else {
        FG_NORM
    }
}

/// The text of an input box of the grid: bright when focused.
pub open spec fn field_code(focused: bool, unfilled: bool) -> Seq<char> {
    if focused {
        FG_BRIGHT@
    } else if unfilled {
        FG_DIM@
    } else {
        FG_NORM@
    }
}

fn field_color(focused: bool, unfilled: bool) -> (r: &'static str)
    ensures
        r@ == field_code(focused, unfilled),
{
    if focused {
        FG_BRIGHT
    } else if unfilled {
        FG_DIM
    } else {
        FG_NORM
    }
}

/// The colour of a column's label.
pub open spec fn label_code(label_focused: bool, col_focused: bool, unfilled: bool) -> Seq<char> {
    if label_focused {
        FG_CYAN@
    } else if col_focused {
        FG_BRIGHT@
    } else if unfilled {
        FG_DIM@
    } else {
        FG_NORM@
    }
}

/// A border line of an input box of the grid.
pub open spec fn seg_edge(left: Seq<char>, right: Seq<char>) -> Seq<char> {
    "  "@ + left + repeated("\u{2500}"@, W as nat) + right
}

/// Line `kind` (0 to 6) of column `ci` of the grid: its label, then the user
/// box and the password box (its characters shown as `*`), three lines each.
pub open spec fn seg_text(c: CredView, kind: int, ci: int, frow: int, fcol: int) -> Seq<char> {
    let col_focused = fcol == ci && frow <= 2;
    let label_focused = frow == 0 && fcol == ci;
    let user_focused = frow == 1 && fcol == ci;
    let pass_focused = frow == 2 && fcol == ci;
    let unfilled = !is_filled(c);
    if kind == 0 {
        let lbl = if label_focused {
            label_text(c.label) + " \u{21bb}"@
        } else {
            label_text(c.label)
        };
        colored(label_code(label_focused, col_focused, unfilled), centered(lbl, SEG as nat))
    } else if kind == 1 || kind == 4 {
        let focused = if kind == 1 {
            user_focused
        } else {
            pass_focused
        };
        colored(seg_code(focused, unfilled), seg_edge("\u{250c}"@, "\u{2510}"@))
    } else if kind == 3 || kind == 6 {
        let focused = if kind == 3 {
            user_focused
        } else {
            pass_focused
        };
        colored(seg_code(focused, unfilled), seg_edge("\u{2514}"@, "\u{2518}"@))
    } else if kind == 2 || kind == 5 {
        let focused = if kind == 2 {
            user_focused
        } else {
            pass_focused
        };
        let content = if kind == 2 {
            c.user
        } else {
            repeated("*"@, c.pass.len())
        };
        let marker = if focused {
            colored(FG_CYAN@, "\u{25b6} "@)
        } else {
            "  "@
        };
        marker + colored(seg_code(focused, unfilled), "\u{2502}"@) + colored(
            field_code(focused, unfilled),
            padded(content, W as nat),
        ) + colored(seg_code(focused, unfilled), "\u{2502}"@)
    } else {
        repeated(" "@, SEG as nat)
    }
}

fn seg_border(left: &str, right: &str) -> (r: String)
    ensures
        r@ == seg_edge(left@, right@),
{
    let mut out = "  ".to_string();
    out.append(left);
    out.append(repeat("\u{2500}", W).as_str());
    out.append(right);
    out
}

/// Line `kind` of the grid for column `ci`.
pub fn col_seg(c: &Cred, kind: usize, ci: usize, frow: usize, fcol: usize) -> (r: String)
    ensures
        r@ == seg_text(c@, kind as int, ci as int, frow as int, fcol as int),
{
    let col_focused = fcol == ci && frow <= 2;
    let label_focused = frow == 0 && fcol == ci;
    let user_focused = frow == 1 && fcol == ci;
    let pass_focused = frow == 2 && fcol == ci;
    let unfilled = !c.filled();
    if kind == 0 {
        let mut lbl = c.label.text().to_string();
        if label_focused {
            lbl.append(" \u{21bb}");
        }
        let code = if label_focused {
            FG_CYAN
        } else if col_focused {
            FG_BRIGHT
        } else if unfilled {
            FG_DIM
        } else {
            FG_NORM
        };
        fg(code, center(lbl.as_str(), SEG).as_str())
    } else if kind == 1 || kind == 4 {
        let focused = if kind == 1 {
            user_focused
        } else {
            pass_focused
        };
        fg(seg_color(focused, unfilled), seg_border("\u{250c}", "\u{2510}").as_str())
    } else if kind == 3 || kind == 6 {
        let focused = if kind == 3 {
            user_focused
        } else {
            pass_focused
        };
        fg(seg_color(focused, unfilled), seg_border("\u{2514}", "\u{2518}").as_str())
    } else if kind == 2 || kind == 5 {
        let focused = if kind == 2 {
            user_focused
        } else {
            pass_focused
        };
        let content = if kind == 2 {
            c.user.clone()
        } else {
            repeat("*", c.pass.unicode_len())
        };
        let mut out = if focused {
            fg(FG_CYAN, "\u{25b6} ")
        } else {
            "  ".to_string()
        };
        let bcode = seg_color(focused, unfilled);
        out.append(fg(bcode, "\u{2502}").as_str());
        out.append(fg(field_color(focused, unfilled), pad(content.as_str(), W).as_str()).as_str());
        out.append(fg(bcode, "\u{2502}").as_str());
        out
    } else {
        repeat(" ", SEG)
    }
}

/// Line `kind` of the slot after the last column: a "+" where a column can
/// still be added.
pub open spec fn placeholder_text(kind: int) -> Seq<char> {
    if kind == 0 {
        colored(FG_DIM@, centered("+"@, SEG as nat))
    } else {
        colored(FG_DIM@, repeated(" "@, SEG as nat))
    }
}

pub fn placeholder_seg(kind: usize) -> (r: String)
    ensures
        r@ == placeholder_text(kind as int),
{
    if kind == 0 {
        fg(FG_DIM, center("+", SEG).as_str())
    } else {
        fg(FG_DIM, repeat(" ", SEG).as_str())
    }
}

/// Slot `slot` (0 to 2) of grid line `kind`.
pub open spec fn slot_text(cols: Seq<CredView>, kind: int, slot: int, frow: int, fcol: int) -> Seq<char> {
    if slot < cols.len() {
        seg_text(cols[slot], kind, slot, frow, fcol)
    } else if slot == cols.len() && cols.len() < 3 {
        placeholder_text(kind)
    } else {
        colored(FG_DIM@, repeated(" "@, SEG as nat))
    }
}

/// Grid line `kind`: the gutter, then the three slots, each followed by a space.
pub open spec fn grid_line(cols: Seq<CredView>, kind: int, frow: int, fcol: int) -> Seq<char> {
    gutter(kind) + slot_text(cols, kind, 0, frow, fcol) + " "@ + slot_text(cols, kind, 1, frow, fcol)
        + " "@ + slot_text(cols, kind, 2, frow, fcol) + " "@
}

/// The help line under the grid, by the focused row.
pub open spec fn creds_hint(frow: int) -> Seq<char> {
    if frow == 1 || frow == 2 {
        colored(FG_DIM@, "Ctrl+U limpa o campo  -  Tab move  -  Enter confirma"@)
    } else if frow == 0 {
        colored(FG_DIM@, "Enter cicla o rotulo (so opcoes livres)  -  Tab move"@)
    } else {
        Seq::empty()
    }
}

/// The body of the credentials screen: a blank line, the seven grid lines, a
/// blank line, the buttons and the help line.
pub open spec fn creds_body(cols: Seq<CredView>, frow: int, fcol: int) -> Seq<Seq<char>> {
    seq![Seq::<char>::empty()] + Seq::new(7, |k: int| grid_line(cols, k, frow, fcol)) + seq![
        Seq::<char>::empty(),
    ] + buttons_lines(frow == 3 && fcol == 0, frow == 3 && fcol == 1) + seq![creds_hint(frow)]
}

fn slot_seg(cols: &Vec<Cred>, kind: usize, slot: usize, frow: usize, fcol: usize) -> (r: String)
    ensures
        r@ == slot_text(creds_view(cols@), kind as int, slot as int, frow as int, fcol as int),
{
    if slot < cols.len() {
        col_seg(&cols[slot], kind, slot, frow, fcol)
    } else if slot == cols.len() && cols.len() < 3 {
        placeholder_seg(kind)
    } else {
        fg(FG_DIM, repeat(" ", SEG).as_str())
    }
}

fn hint_line(frow: usize) -> (r: String)
    ensures
        r@ == creds_hint(frow as int),
{
    if frow == 1 || frow == 2 {
        fg(FG_DIM, "Ctrl+U limpa o campo  -  Tab move  -  Enter confirma")
    } else if frow == 0 {
        fg(FG_DIM, "Enter cicla o rotulo (so opcoes livres)  -  Tab move")
    } else {
        String::new()
    }
}

/// The body of the credentials screen, focus at (`frow`, `fcol`).
pub fn render_creds_body(cols: &Vec<Cred>, frow: usize, fcol: usize) -> (r: Vec<String>)
    ensures
        r.deep_view() == creds_body(creds_view(cols@), frow as int, fcol as int),
{
    let ghost v = creds_view(cols@);
    let mut body: Vec<String> = Vec::new();
    body.push(String::new());
    let mut kind: usize = 0;
    while kind < 7
        invariant
            kind <= 7,
            v == creds_view(cols@),
            body.deep_view() == seq![Seq::<char>::empty()] + Seq::new(
                kind as nat,
                |k: int| grid_line(v, k, frow as int, fcol as int),
            ),
        decreases 7 - kind,
    {
        let mut g = align_right5(row_label_text(kind));
        g.append(" ");
        let mut line = fg(FG_DIM, pad(g.as_str(), GUT).as_str());
        let mut slot: usize = 0;
        while slot < 3
            invariant
                slot <= 3,
                kind < 7,
                v == creds_view(cols@),
                line@ == gutter(kind as int) + (if slot == 0 {
                    Seq::<char>::empty()
                } else if slot == 1 {
                    slot_text(v, kind as int, 0, frow as int, fcol as int) + " "@
                } else if slot == 2 {
                    slot_text(v, kind as int, 0, frow as int, fcol as int) + " "@ + slot_text(
                        v,
                        kind as int,
                        1,
                        frow as int,
                        fcol as int,
                    ) + " "@
                } else {
                    slot_text(v, kind as int, 0, frow as int, fcol as int) + " "@ + slot_text(
                        v,
                        kind as int,
                        1,
                        frow as int,
                        fcol as int,
                    ) + " "@ + slot_text(v, kind as int, 2, frow as int, fcol as int) + " "@
                }),
            decreases 3 - slot,
        {
            let seg = slot_seg(cols, kind, slot, frow, fcol);
            line.append(seg.as_str());
            line.append(" ");
            slot = slot + 1;
        }
        assert(line@ =~= grid_line(v, kind as int, frow as int, fcol as int));
        let ghost before = body.deep_view();
        body.push(line);
        assert(body.deep_view() =~= before.push(grid_line(v, kind as int, frow as int, fcol as int)));
        assert(body.deep_view() =~= seq![Seq::<char>::empty()] + Seq::new(
            (kind + 1) as nat,
            |k: int| grid_line(v, k, frow as int, fcol as int),
        ));
        kind = kind + 1;
    }
    let ghost before = body.deep_view();
    body.push(String::new());
    let b = buttons_rows(frow == 3 && fcol == 0, frow == 3 && fcol == 1);
    let ghost bl = buttons_lines(frow == 3 && fcol == 0, frow == 3 && fcol == 1);
    proof {
        let bv = b@.map_values(|l: String| l@);
        assert(bv[0] == b@[0]@ && bv[1] == b@[1]@ && bv[2] == b@[2]@);
    }
    body.push(b[0].clone());
    body.push(b[1].clone());
    body.push(b[2].clone());
    body.push(hint_line(frow));
    assert(body.deep_view() =~= creds_body(v, frow as int, fcol as int));
    body
}


// ------------------------------------------------------------------ the screen

/// The state of the credentials screen: the columns and the focus.
pub struct CredsScreen {
    pub cols: Vec<Cred>,
    pub row: usize,
    pub col: usize,
}

pub struct CredsScreenView {
    pub cols: Seq<CredView>,
    pub row: usize,
    pub col: usize,
}

impl View for CredsScreen {
    type V = CredsScreenView;

    open spec fn view(&self) -> CredsScreenView {
        CredsScreenView { cols: creds_view(self.cols@), row: self.row, col: self.col }
    }
}

impl CredsScreenView {
    /// At most three columns and a focus on the grid: a state the screen can
    /// take a key in.
    pub open spec fn ready(self) -> bool {
        &&& 1 <= self.cols.len() <= 3
        &&& valid_focus(self.row, self.col, self.cols.len() as usize)
    }

    /// What holds between keys: at most three columns, a row on the grid.
    pub open spec fn inv(self) -> bool {
        self.cols.len() <= 3 && self.row <= 3
    }
}

/// What a key leads to: go on, give up, or try the credentials.
pub enum CredsOutcome {
    Continue,
    Cancel,
    Confirm(Vec<Cred>),
}

pub enum CredsOutcomeView {
    Continue,
    Cancel,
    Confirm(Seq<CredView>),
}

impl View for CredsOutcome {
    type V = CredsOutcomeView;

    open spec fn view(&self) -> CredsOutcomeView {
        match self {
            CredsOutcome::Continue => CredsOutcomeView::Continue,
            CredsOutcome::Cancel => CredsOutcomeView::Cancel,
            CredsOutcome::Confirm(v) => CredsOutcomeView::Confirm(creds_view(v@)),
        }
    }
}

/// The focus kept on the grid once the columns are known: on the last column
/// when past it, on Esc when past the buttons.
pub open spec fn clamped_focus(row: usize, col: usize, ncols: nat) -> (usize, usize) {
    if row != 3 && col >= ncols {
        (row, (ncols - 1) as usize)
    } else if row == 3 && col > 1 {
        (row, 1)
    } else {
        (row, col)
    }
}

/// The screen as drawn: columns compacted, labels made free, focus clamped.
pub open spec fn prepared(v: CredsScreenView) -> CredsScreenView {
    let c = compacted(v.cols);
    let cols = normalized_upto(c, c.len());
    let f = clamped_focus(v.row, v.col, cols.len());
    CredsScreenView { cols, row: f.0, col: f.1 }
}

/// The text of the field in `row` (1: user, 2: password).
pub open spec fn field_of(c: CredView, row: usize) -> Seq<char> {
    if row == 1 {
        c.user
    } else {
        c.pass
    }
}

/// Column `i` with the field in `row` set to `text`.
pub open spec fn with_field(cols: Seq<CredView>, i: int, row: usize, text: Seq<char>) -> Seq<CredView> {
    if row == 1 {
        cols.update(i, CredView { user: text, ..cols[i] })
    } else {
        cols.update(i, CredView { pass: text, ..cols[i] })
    }
}

/// The focused field after a key that edits it: Ctrl+U empties it, Backspace
/// drops its last character, a character is added while it is shorter than
/// the box.
pub open spec fn edited(v: CredsScreenView, k: Key) -> Seq<CredView> {
    if v.row == 1 || v.row == 2 {
        let t = field_of(v.cols[v.col as int], v.row);
        match k {
            Key::Ctrl(ch) => if ch == 'u' || ch == 'U' {
                with_field(v.cols, v.col as int, v.row, Seq::empty())
            } else {
                v.cols
            },
            Key::Backspace => if t.len() > 0 {
                with_field(v.cols, v.col as int, v.row, t.drop_last())
            } else {
                v.cols
            },
            Key::Char(ch) => if t.len() < W {
                with_field(v.cols, v.col as int, v.row, t.push(ch))
            } else {
                v.cols
            },
            _ => v.cols,
        }
    } else {
        v.cols
    }
}

/// The screen at focus (`f.0`, `f.1`).
pub open spec fn focused_at(v: CredsScreenView, f: (usize, usize)) -> CredsScreenView {
    CredsScreenView { row: f.0, col: f.1, ..v }
}

/// What key `k` does to the screen: Tab and Shift+Tab and the arrows move
/// the focus, Enter cycles a label (on the labels) or ends (Enter button or a
/// field: try the columns with a user; Esc button: give up), Esc gives up,
/// and the other keys edit the focused field.
pub open spec fn creds_keyed(v: CredsScreenView, k: Key) -> (CredsScreenView, CredsOutcomeView) {
    let n = v.cols.len() as usize;
    match k {
        Key::Esc => (v, CredsOutcomeView::Cancel),
        Key::Tab => (focused_at(v, tab_next_spec(v.row, v.col, n)), CredsOutcomeView::Continue),
        Key::BackTab => (focused_at(v, tab_prev_spec(v.row, v.col, n)), CredsOutcomeView::Continue),
        Key::Up => (focused_at(v, move2_spec(v.row, v.col, -1i32, 0i32, n)), CredsOutcomeView::Continue),
        Key::Down => (focused_at(v, move2_spec(v.row, v.col, 1, 0, n)), CredsOutcomeView::Continue),
        Key::Left => (focused_at(v, move2_spec(v.row, v.col, 0i32, -1i32, n)), CredsOutcomeView::Continue),
        Key::Right => (focused_at(v, move2_spec(v.row, v.col, 0, 1, n)), CredsOutcomeView::Continue),
        Key::Enter => if v.row == 0 {
            (CredsScreenView { cols: cycled(v.cols, v.col as int), ..v }, CredsOutcomeView::Continue)
        } else if v.row == 3 && v.col != 0 {
            (v, CredsOutcomeView::Cancel)
        } else {
            (v, CredsOutcomeView::Confirm(with_user(v.cols)))
        },
        _ => (CredsScreenView { cols: edited(v, k), ..v }, CredsOutcomeView::Continue),
    }
}

fn set_text(cols: &mut Vec<Cred>, i: usize, row: usize, text: String)
    requires
        i < old(cols)@.len(),
    ensures
        creds_view(final(cols)@) == with_field(creds_view(old(cols)@), i as int, row, text@),
{
    let ghost before = creds_view(cols@);
    let ghost t = text@;
    let nc = if row == 1 {
        Cred { label: cols[i].label, user: text, pass: cols[i].pass.clone() }
    } else {
        Cred { label: cols[i].label, user: cols[i].user.clone(), pass: text }
    };
    cols.set(i, nc);
    assert(creds_view(cols@) =~= with_field(before, i as int, row, t));
}

impl CredsScreen {
    /// The screen as it opens: one empty column, focus on its user field.
    pub fn new() -> (s: CredsScreen)
        ensures
            s@.cols == seq![empty_cred()],
            s@.row == 1,
            s@.col == 0,
    {
        let mut cols: Vec<Cred> = Vec::new();
        cols.push(Cred::blank());
        let s = CredsScreen { cols, row: 1, col: 0 };
        assert(s@.cols =~= seq![empty_cred()]);
        s
    }

    /// Before each drawing: keeps the filled columns and one empty one, gives
    /// each column a label it may take, and keeps the focus on the grid.
    pub fn prepare(&mut self)
        ensures
            final(self)@ == prepared(old(self)@),
    {
        compact_cols(&mut self.cols);
        let ghost c = creds_view(self.cols@);
        proof {
            lemma_compacted_shape(creds_view(old(self).cols@));
        }
        normalize_labels(&mut self.cols);
        proof {
            lemma_normalized_len(c, c.len());
        }
        let ncols = self.cols.len();
        if self.row != 3 && self.col >= ncols {
            self.col = ncols - 1;
        }
        if self.row == 3 && self.col > 1 {
            self.col = 1;
        }
    }

    /// Whether the screen can take a key.
    pub fn is_ready(&self) -> (b: bool)
        ensures
            b == self@.ready(),
    {
        let n = self.cols.len();
        1 <= n && n <= 3 && (if self.row == 3 {
            self.col <= 1
        } else {
            self.row < 3 && self.col < n
        })
    }

    /// The body to draw.
    pub fn body(&self) -> (r: Vec<String>)
        ensures
            r.deep_view() == creds_body(self@.cols, self.row as int, self.col as int),
    {
        render_creds_body(&self.cols, self.row, self.col)
    }

    /// Answers key `k`.
    pub fn on_key(&mut self, k: Key) -> (r: CredsOutcome)
        requires
            old(self)@.ready(),
        ensures
            (final(self)@, r@) == creds_keyed(old(self)@, k),
    {
        let ncols = self.cols.len();
        let mut row = self.row;
        let mut col = self.col;
        match k {
            Key::Esc => CredsOutcome::Cancel,
            Key::Tab => {
                tab_next(&mut row, &mut col, ncols);
                self.row = row;
                self.col = col;
                CredsOutcome::Continue
            },
            Key::BackTab => {
                tab_prev(&mut row, &mut col, ncols);
                self.row = row;
                self.col = col;
                CredsOutcome::Continue
            },
            Key::Up => {
                move2(&mut row, &mut col, -1, 0, ncols);
                self.row = row;
                self.col = col;
                CredsOutcome::Continue
            },
            Key::Down => {
                move2(&mut row, &mut col, 1, 0, ncols);
                self.row = row;
                self.col = col;
                CredsOutcome::Continue
            },
            Key::Left => {
                move2(&mut row, &mut col, 0, -1, ncols);
                self.row = row;
                self.col = col;
                CredsOutcome::Continue
            },
            Key::Right => {
                move2(&mut row, &mut col, 0, 1, ncols);
                self.row = row;
                self.col = col;
                CredsOutcome::Continue
            },
            Key::Enter => {
                if row == 0 {
                    cycle_label(&mut self.cols, col);
                    CredsOutcome::Continue
                } else if row == 3 && col != 0 {
                    CredsOutcome::Cancel
                } else {
                    CredsOutcome::Confirm(collect(&self.cols))
                }
            },
            _ => {
                if row == 1 || row == 2 {
                    let t = if row == 1 {
                        self.cols[col].user.clone()
                    } else {
                        self.cols[col].pass.clone()
                    };
                    let n = t.unicode_len();
                    match k {
                        Key::Ctrl(ch) => {
                            if ch == 'u' || ch == 'U' {
                                set_text(&mut self.cols, col, row, String::new());
                            }
                        },
                        Key::Backspace => {
                            if n > 0 {
                                let shorter = t.as_str().substring_char(0, n - 1).to_string();
                                assert(shorter@ =~= t@.drop_last());
                                set_text(&mut self.cols, col, row, shorter);
                            }
                        },
                        Key::Char(ch) => {
                            if n < W {
                                let mut longer = t;
                                push_char(&mut longer, ch);
                                set_text(&mut self.cols, col, row, longer);
                            }
                        },
                        _ => {},
                    }
                }
                CredsOutcome::Continue
            },
        }
    }
}

/// The screen never holds more than three columns nor leaves the grid: from
/// any state where that holds, the drawn screen can take a key, its filled
/// columns have distinct labels, and the key keeps it so.
pub proof fn lemma_creds_screen_invariant(v: CredsScreenView, k: Key)
    requires
        v.inv(),
    ensures
        prepared(v).ready(),
        prepared(v).inv(),
        labels_distinct(prepared(v).cols),
        creds_keyed(prepared(v), k).0.inv(),
{
    let c = compacted(v.cols);
    lemma_compacted_shape(v.cols);
    lemma_normalized_labels_distinct(c);
    let p = prepared(v);
    let n = p.cols.len() as usize;
    lemma_focus_stays_on_grid(p.row, p.col, n, -1i32, 0i32);
    lemma_focus_stays_on_grid(p.row, p.col, n, 1, 0);
    lemma_focus_stays_on_grid(p.row, p.col, n, 0i32, -1i32);
    lemma_focus_stays_on_grid(p.row, p.col, n, 0, 1);
    if k == Key::Enter && p.row == 0 {
        lemma_cycle_keeps_distinct(p.cols, p.col as int);
    }
}

/// The screen as it opens holds between keys.
pub proof fn lemma_creds_screen_starts_valid()
    ensures
        (CredsScreenView { cols: seq![empty_cred()], row: 1, col: 0 }).inv(),
{
}

} // verus!
