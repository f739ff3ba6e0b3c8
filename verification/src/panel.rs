//! The fixed-size panel in which `bdd inject` draws its screens: text with
//! ANSI colour sequences, measured by its visible characters.
use vstd::prelude::*;
use crate::text::{push_char, repeat, repeated};

verus! {

pub const BG: &'static str = "\x1b[48;5;236m";
pub const RESET: &'static str = "\x1b[0m";
/// Resets intensity and foreground, keeps the background.
pub const SR: &'static str = "\x1b[22;39m";
pub const FG_BRIGHT: &'static str = "\x1b[1m\x1b[97m";
pub const FG_NORM: &'static str = "\x1b[37m";
pub const FG_DIM: &'static str = "\x1b[90m";
pub const FG_CYAN: &'static str = "\x1b[1m\x1b[96m";
pub const FG_CYAN_DIM: &'static str = "\x1b[36m";

/// Inner width of an input box.
pub const W: usize = 12;
/// Width of a column of the credentials grid: marker (2), borders (2), inner (W).
pub const SEG: usize = 16;
/// Width of the row labels.
pub const GUT: usize = 7;
/// Fixed width of the panel's content (three columns).
pub const PW: usize = 58;
/// Fixed height of the panel's body.
pub const PH: usize = 14;

pub const ESC: char = '\x1b';

/// The number of visible characters of `s` and whether it ends inside an
/// escape sequence (from ESC up to and including `m`).
pub open spec fn scan_visible(s: Seq<char>) -> (nat, bool)
    decreases s.len(),
{
    if s.len() == 0 {
        (0, false)
    } else {
        let (n, esc) = scan_visible(s.drop_last());
        let ch = s.last();
        if esc {
            (n, ch != 'm')
        } else if ch == '\x1b' {
            (n, true)
        } else {
            (n + 1, false)
        }
    }
}

/// The number of characters of `s` that show on screen.
pub open spec fn visible(s: Seq<char>) -> nat {
    scan_visible(s).0
}

/// The number of characters of `s` that show on screen.
pub fn visible_len(s: &str) -> (r: usize)
    ensures
        r == visible(s@),
{
    let len = s.unicode_len();
    let mut n: usize = 0;
    let mut esc = false;
    let mut i: usize = 0;
    assert(s@.subrange(0, 0) =~= Seq::<char>::empty());
    while i < len
        invariant
            len == s@.len(),
            i <= len,
            (n as nat, esc) == scan_visible(s@.subrange(0, i as int)),
            n <= i,
        decreases len - i,
    {
        let ch = s.get_char(i);
        assert(s@.subrange(0, i + 1).drop_last() =~= s@.subrange(0, i as int));
        if esc {
            if ch == 'm' {
                esc = false;
            }
        } else if ch == '\x1b' {
            esc = true;
        } else {
            n = n + 1;
        }
        i = i + 1;
    }
    assert(s@.subrange(0, len as int) =~= s@);
    n
}

/// `s` cut after its first `max` visible characters; escape sequences are
/// kept. Also the number of visible characters kept and whether it ends
/// inside an escape sequence.
pub open spec fn clip_scan(s: Seq<char>, max: nat) -> (Seq<char>, nat, bool)
    decreases s.len(),
{
    if s.len() == 0 {
        (Seq::empty(), 0, false)
    } else {
        let (out, vis, esc) = clip_scan(s.drop_last(), max);
        let ch = s.last();
        if esc {
            (out.push(ch), vis, ch != 'm')
        } else if ch == '\x1b' {
            (out.push(ch), vis, true)
        } else if vis >= max {
            (out, vis, false)
        } else {
            (out.push(ch), vis + 1, false)
        }
    }
}

pub open spec fn clipped(s: Seq<char>, max: nat) -> Seq<char> {
    clip_scan(s, max).0
}

/// `s` cut after `max` visible characters, its escape sequences kept.
pub fn clip(s: &str, max: usize) -> (r: String)
    ensures
        r@ == clipped(s@, max as nat),
{
    let len = s.unicode_len();
    let mut out = String::new();
    let mut vis: usize = 0;
    let mut esc = false;
    let mut i: usize = 0;
    assert(s@.subrange(0, 0) =~= Seq::<char>::empty());
    while i < len
        invariant
            len == s@.len(),
            i <= len,
            (out@, vis as nat, esc) == clip_scan(s@.subrange(0, i as int), max as nat),
            vis <= i,
        decreases len - i,
    {
        let ch = s.get_char(i);
        assert(s@.subrange(0, i + 1).drop_last() =~= s@.subrange(0, i as int));
        if esc {
            push_char(&mut out, ch);
            if ch == 'm' {
                esc = false;
            }
        } else if ch == '\x1b' {
            esc = true;
            push_char(&mut out, ch);
        } else if vis >= max {
        } else {
            push_char(&mut out, ch);
            vis = vis + 1;
        }
        i = i + 1;
    }
    assert(s@.subrange(0, len as int) =~= s@);
    out
}

/// `s` made exactly `w` characters long: cut, or padded with spaces.
pub open spec fn padded(s: Seq<char>, w: nat) -> Seq<char> {
    if s.len() >= w {
        s.subrange(0, w as int)
    } else {
        s + repeated(" "@, (w - s.len()) as nat)
    }
}

/// `s` made exactly `w` characters long: cut, or padded with spaces.
pub fn pad(s: &str, w: usize) -> (r: String)
    ensures
        r@ == padded(s@, w as nat),
{
    let n = s.unicode_len();
    if n >= w {
        s.substring_char(0, w).to_string()
    } else {
        let mut out = s.to_string();
        let sp = repeat(" ", w - n);
        out.append(sp.as_str());
        out
    }
}

/// `s` centred in `w` characters (cut when longer).
pub open spec fn centered(s: Seq<char>, w: nat) -> Seq<char> {
    if s.len() >= w {
        s.subrange(0, w as int)
    } else {
        let l = ((w - s.len()) / 2) as nat;
        repeated(" "@, l) + s + repeated(" "@, (w - s.len() - l) as nat)
    }
}

/// `s` centred in `w` characters.
pub fn center(s: &str, w: usize) -> (r: String)
    ensures
        r@ == centered(s@, w as nat),
{
    let n = s.unicode_len();
    if n >= w {
        return s.substring_char(0, w).to_string();
    }
    let l = (w - n) / 2;
    let mut out = repeat(" ", l);
    out.append(s);
    let right = repeat(" ", w - n - l);
    out.append(right.as_str());
    out
}

/// `s` in colour `code`, then back to the normal foreground.
pub open spec fn colored(code: Seq<char>, s: Seq<char>) -> Seq<char> {
    code + s + SR@
}

/// `s` in colour `code`, then back to the normal foreground.
pub fn fg(code: &str, s: &str) -> (r: String)
    ensures
        r@ == colored(code@, s@),
{
    let mut out = code.to_string();
    out.append(s);
    out.append(SR);
    out
}

/// `a - b`, or 0.
pub open spec fn sat_sub(a: nat, b: nat) -> nat {
    if a >= b {
        (a - b) as nat
    } else {
        0
    }
}

/// The top border, with the title.
pub open spec fn panel_top_text(title: Seq<char>) -> Seq<char> {
    let head = "\u{256d}\u{2500} "@ + title + " "@;
    let dashes = sat_sub((PW + 4) as nat, visible(head) + 1);
    BG@ + FG_DIM@ + head + repeated("\u{2500}"@, dashes) + "\u{256e}"@ + RESET@
}

pub fn panel_top(title: &str) -> (r: String)
    ensures
        r@ == panel_top_text(title@),
{
    let mut head = "\u{256d}\u{2500} ".to_string();
    head.append(title);
    head.append(" ");
    let v = visible_len(head.as_str());
    let dashes = if PW + 4 > v {
        PW + 4 - v - 1
    } else {
        0
    };
    let mut out = BG.to_string();
    out.append(FG_DIM);
    out.append(head.as_str());
    out.append(repeat("\u{2500}", dashes).as_str());
    out.append("\u{256e}");
    out.append(RESET);
    out
}

/// The bottom border.
pub open spec fn panel_bottom_text() -> Seq<char> {
    BG@ + FG_DIM@ + "\u{2570}"@ + repeated("\u{2500}"@, (PW + 2) as nat) + "\u{256f}"@ + RESET@
}

pub fn panel_bottom() -> (r: String)
    ensures
        r@ == panel_bottom_text(),
{
    let mut out = BG.to_string();
    out.append(FG_DIM);
    out.append("\u{2570}");
    out.append(repeat("\u{2500}", PW + 2).as_str());
    out.append("\u{256f}");
    out.append(RESET);
    out
}

/// One line of the panel: the content cut to `PW` visible characters and
/// padded to that width, between borders.
pub open spec fn panel_line_text(content: Seq<char>) -> Seq<char> {
    let c = clipped(content, PW as nat);
    let padn = sat_sub(PW as nat, visible(c));
    BG@ + FG_DIM@ + "\u{2502} "@ + c + SR@ + repeated(" "@, padn) + " \u{2502}"@ + RESET@
}

pub fn panel_line(content: &str) -> (r: String)
    ensures
        r@ == panel_line_text(content@),
{
    let c = clip(content, PW);
    let v = visible_len(c.as_str());
    let padn = if PW >= v {
        PW - v
    } else {
        0
    };
    let mut out = BG.to_string();
    out.append(FG_DIM);
    out.append("\u{2502} ");
    out.append(c.as_str());
    out.append(SR);
    out.append(repeat(" ", padn).as_str());
    out.append(" \u{2502}");
    out.append(RESET);
    out
}

/// Line `i` of a body, or "" past its end.
pub open spec fn body_line(body: Seq<Seq<char>>, i: int) -> Seq<char> {
    if 0 <= i < body.len() {
        body[i]
    } else {
        Seq::empty()
    }
}

/// The panel: its top border, `PH` lines of the body (cut, or filled with
/// empty lines), its bottom border.
pub open spec fn framed(title: Seq<char>, body: Seq<Seq<char>>) -> Seq<Seq<char>> {
    seq![panel_top_text(title)] + Seq::new(PH as nat, |i: int| panel_line_text(body_line(body, i)))
        + seq![panel_bottom_text()]
}

/// The panel around `body`.
pub fn frame(title: &str, body: &Vec<String>) -> (r: Vec<String>)
    ensures
        r.deep_view() == framed(title@, body.deep_view()),
{
    let mut out: Vec<String> = Vec::new();
    out.push(panel_top(title));
    let mut i: usize = 0;
    while i < PH
        invariant
            i <= PH,
            out.deep_view() == seq![panel_top_text(title@)] + Seq::new(
                i as nat,
                |k: int| panel_line_text(body_line(body.deep_view(), k)),
            ),
        decreases PH - i,
    {
        let line = if i < body.len() {
            panel_line(body[i].as_str())
        } else {
            panel_line("")
        };
        let ghost before = out.deep_view();
        assert(line@ == panel_line_text(body_line(body.deep_view(), i as int))) by {
            if i >= body.len() {
                assert(""@ =~= Seq::<char>::empty()) by {
                    reveal_strlit("");
                }
            }
        }
        out.push(line);
        assert(out.deep_view() =~= before.push(line@));
        assert(out.deep_view() =~= seq![panel_top_text(title@)] + Seq::new(
            (i + 1) as nat,
            |k: int| panel_line_text(body_line(body.deep_view(), k)),
        ));
        i = i + 1;
    }
    let ghost before = out.deep_view();
    let b = panel_bottom();
    out.push(b);
    assert(out.deep_view() =~= before.push(b@));
    assert(out.deep_view() =~= framed(title@, body.deep_view()));
    out
}


/// `n` box-drawing dashes between two corners.
pub open spec fn box_edge(left: Seq<char>, mid: Seq<char>, n: nat, right: Seq<char>) -> Seq<char> {
    left + mid + repeated("\u{2500}"@, n) + right
}

fn edge(left: &str, mid: &str, n: usize, right: &str) -> (r: String)
    ensures
        r@ == box_edge(left@, mid@, n as nat, right@),
{
    let mut out = left.to_string();
    out.append(mid);
    out.append(repeat("\u{2500}", n).as_str());
    out.append(right);
    out
}

/// The frame colour of a box: cyan when focused.
pub open spec fn frame_code(focus: bool) -> Seq<char> {
    if focus {
        FG_CYAN@
    } else {
        FG_NORM@
    }
}

/// The text colour in a box: bright when focused.
pub open spec fn text_code(focus: bool) -> Seq<char> {
    if focus {
        FG_BRIGHT@
    } else {
        FG_NORM@
    }
}

fn frame_color(focus: bool) -> (r: &'static str)
    ensures
        r@ == frame_code(focus),
{
    if focus {
        FG_CYAN
    } else {
        FG_NORM
    }
}

fn text_color(focus: bool) -> (r: &'static str)
    ensures
        r@ == text_code(focus),
{
    if focus {
        FG_BRIGHT
    } else {
        FG_NORM
    }
}

/// The middle line of a box: `content` between two vertical bars.
pub open spec fn box_middle(focus: bool, content: Seq<char>) -> Seq<char> {
    colored(frame_code(focus), "\u{2502}"@) + colored(text_code(focus), content) + colored(
        frame_code(focus),
        "\u{2502}"@,
    )
}

fn middle(focus: bool, content: &str) -> (r: String)
    ensures
        r@ == box_middle(focus, content@),
{
    let code = frame_color(focus);
    let mut out = fg(code, "\u{2502}");
    out.append(fg(text_color(focus), content).as_str());
    out.append(fg(code, "\u{2502}").as_str());
    out
}

/// The three lines of a button: `txt` in a box.
pub open spec fn button_lines(txt: Seq<char>, focus: bool) -> Seq<Seq<char>> {
    let inner = " "@ + txt + " "@;
    seq![
        colored(frame_code(focus), box_edge("\u{250c}"@, Seq::empty(), inner.len(), "\u{2510}"@)),
        box_middle(focus, inner),
        colored(frame_code(focus), box_edge("\u{2514}"@, Seq::empty(), inner.len(), "\u{2518}"@)),
    ]
}

/// A button: `txt` in a box, cyan when focused.
pub fn boxed_button(txt: &str, focus: bool) -> (r: [String; 3])
    ensures
        r@.map_values(|l: String| l@) == button_lines(txt@, focus),
{
    let mut inner = " ".to_string();
    inner.append(txt);
    inner.append(" ");
    let w = inner.unicode_len();
    let code = frame_color(focus);
    let top = fg(code, edge("\u{250c}", "", w, "\u{2510}").as_str());
    let mid = middle(focus, inner.as_str());
    let bottom = fg(code, edge("\u{2514}", "", w, "\u{2518}").as_str());
    proof {
        reveal_strlit("");
    }
    let r = [top, mid, bottom];
    assert(r@.map_values(|l: String| l@) =~= button_lines(txt@, focus));
    r
}


/// The width of a button's box: the text, a space on each side, two borders.
pub fn button_box_w(txt: &str) -> (r: usize)
    requires
        txt@.len() + 4 <= usize::MAX,
    ensures
        r == txt@.len() + 4,
{
    txt.unicode_len() + 4
}

/// The three lines of an input box of inner width `w`, its title set into the
/// top border.
pub open spec fn input_lines(title: Seq<char>, content: Seq<char>, focus: bool, w: nat) -> Seq<Seq<char>> {
    let head = "\u{2500} "@ + title + " "@;
    seq![
        colored(frame_code(focus), box_edge("\u{250c}"@, head, sat_sub(w, visible(head)), "\u{2510}"@)),
        box_middle(focus, padded(content, w)),
        colored(frame_code(focus), box_edge("\u{2514}"@, Seq::empty(), w, "\u{2518}"@)),
    ]
}

/// An input box of inner width `w`, with its title in the top border.
pub fn boxed_input(title: &str, content: &str, focus: bool, w: usize) -> (r: [String; 3])
    ensures
        r@.map_values(|l: String| l@) == input_lines(title@, content@, focus, w as nat),
{
    let mut head = "\u{2500} ".to_string();
    head.append(title);
    head.append(" ");
    let v = visible_len(head.as_str());
    let dashes = if w >= v {
        w - v
    } else {
        0
    };
    let code = frame_color(focus);
    let top = fg(code, edge("\u{250c}", head.as_str(), dashes, "\u{2510}").as_str());
    let mid = middle(focus, pad(content, w).as_str());
    let bottom = fg(code, edge("\u{2514}", "", w, "\u{2518}").as_str());
    proof {
        reveal_strlit("");
    }
    let r = [top, mid, bottom];
    assert(r@.map_values(|l: String| l@) =~= input_lines(title@, content@, focus, w as nat));
    r
}

/// Spaces between the two buttons.
pub const GAP: usize = 3;

/// The three lines with the Enter and Esc buttons, centred in the panel.
pub open spec fn buttons_lines(enter_focus: bool, esc_focus: bool) -> Seq<Seq<char>> {
    let combined = ("Enter"@.len() + 4) + GAP + ("Esc"@.len() + 4);
    let lp = repeated(" "@, (sat_sub(PW as nat, combined as nat) / 2) as nat);
    let g = repeated(" "@, GAP as nat);
    let eb = button_lines("Enter"@, enter_focus);
    let sb = button_lines("Esc"@, esc_focus);
    Seq::new(3, |i: int| lp + eb[i] + g + sb[i])
}

/// The Enter and Esc buttons, side by side and centred.
pub fn buttons_rows(enter_focus: bool, esc_focus: bool) -> (r: [String; 3])
    ensures
        r@.map_values(|l: String| l@) == buttons_lines(enter_focus, esc_focus),
{
    let eb = boxed_button("Enter", enter_focus);
    let sb = boxed_button("Esc", esc_focus);
    proof {
        reveal_strlit("Enter");
        reveal_strlit("Esc");
    }
    let combined = button_box_w("Enter") + GAP + button_box_w("Esc");
    let lp = repeat(" ", (PW - combined) / 2);
    let g = repeat(" ", GAP);
    let mut l0 = lp.clone();
    l0.append(eb[0].as_str());
    l0.append(g.as_str());
    l0.append(sb[0].as_str());
    let mut l1 = lp.clone();
    l1.append(eb[1].as_str());
    l1.append(g.as_str());
    l1.append(sb[1].as_str());
    let mut l2 = lp;
    l2.append(eb[2].as_str());
    l2.append(g.as_str());
    l2.append(sb[2].as_str());
    let r = [l0, l1, l2];
    proof {
        let eb_v = eb@.map_values(|l: String| l@);
        let sb_v = sb@.map_values(|l: String| l@);
        assert(eb_v[0] == eb@[0]@ && eb_v[1] == eb@[1]@ && eb_v[2] == eb@[2]@);
        assert(sb_v[0] == sb@[0]@ && sb_v[1] == sb@[1]@ && sb_v[2] == sb@[2]@);
    }
    assert(r@.map_values(|l: String| l@) =~= buttons_lines(enter_focus, esc_focus));
    r
}


/// Where the last drawing is: the number of its lines above the cursor, so
/// that the next one is drawn over it.
pub struct Screen {
    pub prev: u16,
}

impl Screen {
    /// Nothing drawn yet.
    pub fn new() -> (s: Screen)
        ensures
            s.prev == 0,
    {
        Screen { prev: 0 }
    }

    /// Records a drawing of `n` lines (the cursor stays on the last one).
    pub fn drawn(&mut self, n: usize)
        ensures
            final(self).prev == sat_sub(n as nat, 1) as u16,
    {
        let above: usize = if n > 0 {
            n - 1
        } else {
            0
        };
        self.prev = above as u16;
    }

    /// Records that the drawing was erased.
    pub fn cleared(&mut self)
        ensures
            final(self).prev == 0,
    {
        self.prev = 0;
    }
}


// ------------------------------------------------------------------ laws

proof fn lemma_scan_concat(a: Seq<char>, b: Seq<char>)
    requires
        !scan_visible(a).1,
    ensures
        scan_visible(a + b) == (scan_visible(a).0 + scan_visible(b).0, scan_visible(b).1),
    decreases b.len(),
{
    if b.len() == 0 {
        assert(a + b =~= a);
    } else {
        lemma_scan_concat(a, b.drop_last());
        assert((a + b).drop_last() =~= a + b.drop_last());
        assert((a + b).last() == b.last());
    }
}

/// Text without escape characters shows all its characters.
proof fn lemma_scan_plain(s: Seq<char>)
    requires
        !s.contains(ESC),
    ensures
        scan_visible(s) == (s.len(), false),
    decreases s.len(),
{
    if s.len() > 0 {
        assert(!s.drop_last().contains(ESC)) by {
            if s.drop_last().contains(ESC) {
                let k = choose|k: int| 0 <= k < s.len() - 1 && s.drop_last()[k] == ESC;
                assert(s[k] == ESC);
            }
        }
        assert(s[s.len() - 1] == s.last());
        lemma_scan_plain(s.drop_last());
    }
}

proof fn lemma_scan_code_prefix(s: Seq<char>, k: int)
    requires
        s.len() >= 2,
        s[0] == ESC,
        forall|i: int| 0 < i < s.len() - 1 ==> s[i] != 'm',
        1 <= k < s.len(),
    ensures
        scan_visible(s.subrange(0, k)) == (0nat, true),
    decreases k,
{
    let p = s.subrange(0, k);
    assert(p.last() == s[k - 1]);
    if k == 1 {
        assert(p.drop_last() =~= Seq::<char>::empty());
        assert(scan_visible(p.drop_last()) == (0nat, false));
    } else {
        lemma_scan_code_prefix(s, k - 1);
        assert(p.drop_last() =~= s.subrange(0, k - 1));
        assert(s[k - 1] != 'm');
    }
}

/// One escape sequence (ESC, then up to and including the first `m`) shows
/// nothing.
proof fn lemma_scan_code(s: Seq<char>)
    requires
        s.len() >= 2,
        s[0] == ESC,
        s.last() == 'm',
        forall|i: int| 0 < i < s.len() - 1 ==> s[i] != 'm',
    ensures
        scan_visible(s) == (0nat, false),
{
    lemma_scan_code_prefix(s, s.len() - 1);
    assert(s.drop_last() =~= s.subrange(0, s.len() - 1));
}

proof fn lemma_repeated_plain(x: Seq<char>, n: nat)
    requires
        x.len() == 1,
        x[0] != ESC,
    ensures
        repeated(x, n).len() == n,
        !repeated(x, n).contains(ESC),
    decreases n,
{
    if n > 0 {
        lemma_repeated_plain(x, (n - 1) as nat);
        let r = repeated(x, (n - 1) as nat);
        if repeated(x, n).contains(ESC) {
            let k = choose|k: int| 0 <= k < repeated(x, n).len() && repeated(x, n)[k] == ESC;
            if k < r.len() {
                assert(repeated(x, n)[k] == r[k]);
            } else {
                assert(repeated(x, n)[k] == x[0]);
            }
        }
    }
}

/// The colour codes of the panel show nothing.
proof fn lemma_codes_invisible()
    ensures
        scan_visible(BG@) == (0nat, false),
        scan_visible(FG_DIM@) == (0nat, false),
        scan_visible(SR@) == (0nat, false),
        scan_visible(RESET@) == (0nat, false),
{
    reveal_strlit("\x1b[48;5;236m");
    reveal_strlit("\x1b[90m");
    reveal_strlit("\x1b[22;39m");
    reveal_strlit("\x1b[0m");
    lemma_scan_code(BG@);
    lemma_scan_code(FG_DIM@);
    lemma_scan_code(SR@);
    lemma_scan_code(RESET@);
}

proof fn lemma_clip_scan(s: Seq<char>, max: nat)
    ensures
        scan_visible(clip_scan(s, max).0) == (clip_scan(s, max).1, clip_scan(s, max).2),
        clip_scan(s, max).1 == (if scan_visible(s).0 < max {
            scan_visible(s).0
        } else {
            max
        }),
        clip_scan(s, max).2 == scan_visible(s).1,
    decreases s.len(),
{
    if s.len() > 0 {
        lemma_clip_scan(s.drop_last(), max);
        let (out, vis, esc) = clip_scan(s.drop_last(), max);
        let ch = s.last();
        if esc || ch == ESC || vis < max {
            assert(out.push(ch).drop_last() =~= out);
        }
    }
}

/// Clipping keeps at most `max` visible characters: exactly `max` of longer
/// text, all of shorter text; and it ends inside an escape sequence only
/// where the text does.
pub proof fn lemma_clipped_width(s: Seq<char>, max: nat)
    ensures
        visible(clipped(s, max)) == (if visible(s) < max {
            visible(s)
        } else {
            max
        }),
        scan_visible(clipped(s, max)).1 == scan_visible(s).1,
{
    lemma_clip_scan(s, max);
}

proof fn lemma_clip_scan_short(s: Seq<char>, max: nat)
    requires
        scan_visible(s).0 <= max,
    ensures
        clip_scan(s, max).0 == s,
    decreases s.len(),
{
    if s.len() > 0 {
        let d = s.drop_last();
        lemma_clip_scan(d, max);
        assert(scan_visible(d).0 <= scan_visible(s).0);
        lemma_clip_scan_short(d, max);
        assert(d.push(s.last()) =~= s);
    } else {
        assert(s =~= Seq::<char>::empty());
    }
}

/// Clipping leaves text that fits as it is, and clipping twice is clipping
/// once.
pub proof fn lemma_clip_fits(s: Seq<char>, max: nat)
    ensures
        visible(s) <= max ==> clipped(s, max) == s,
        clipped(clipped(s, max), max) == clipped(s, max),
{
    if visible(s) <= max {
        lemma_clip_scan_short(s, max);
    }
    lemma_clipped_width(s, max);
    lemma_clip_scan_short(clipped(s, max), max);
}

/// A line of the panel is `PW + 4` characters wide on screen, whatever its
/// content, as long as the content does not end inside an escape sequence.
pub proof fn lemma_panel_line_width(content: Seq<char>)
    requires
        !scan_visible(content).1,
    ensures
        visible(panel_line_text(content)) == PW + 4,
        !scan_visible(panel_line_text(content)).1,
{
    let c = clipped(content, PW as nat);
    lemma_clipped_width(content, PW as nat);
    lemma_codes_invisible();
    let padn = sat_sub(PW as nat, visible(c));
    reveal_strlit("\u{2502} ");
    reveal_strlit(" \u{2502}");
    reveal_strlit(" ");
    let l = "\u{2502} "@;
    let r = " \u{2502}"@;
    assert(!l.contains(ESC)) by {
        if l.contains(ESC) {
            let k = choose|k: int| 0 <= k < l.len() && l[k] == ESC;
        }
    }
    assert(!r.contains(ESC)) by {
        if r.contains(ESC) {
            let k = choose|k: int| 0 <= k < r.len() && r[k] == ESC;
        }
    }
    lemma_scan_plain(l);
    lemma_scan_plain(r);
    lemma_repeated_plain(" "@, padn);
    lemma_scan_plain(repeated(" "@, padn));
    let a1 = BG@ + FG_DIM@;
    lemma_scan_concat(BG@, FG_DIM@);
    let a2 = a1 + l;
    lemma_scan_concat(a1, l);
    let a3 = a2 + c;
    lemma_scan_concat(a2, c);
    let a4 = a3 + SR@;
    lemma_scan_concat(a3, SR@);
    let a5 = a4 + repeated(" "@, padn);
    lemma_scan_concat(a4, repeated(" "@, padn));
    let a6 = a5 + r;
    lemma_scan_concat(a5, r);
    lemma_scan_concat(a6, RESET@);
    assert(panel_line_text(content) == a6 + RESET@);
}

/// The bottom border is `PW + 4` characters wide on screen.
pub proof fn lemma_panel_bottom_width()
    ensures
        visible(panel_bottom_text()) == PW + 4,
        !scan_visible(panel_bottom_text()).1,
{
    lemma_codes_invisible();
    reveal_strlit("\u{2570}");
    reveal_strlit("\u{256f}");
    reveal_strlit("\u{2500}");
    let l = "\u{2570}"@;
    let r = "\u{256f}"@;
    let d = repeated("\u{2500}"@, (PW + 2) as nat);
    assert(!l.contains(ESC)) by {
        if l.contains(ESC) {
            let k = choose|k: int| 0 <= k < l.len() && l[k] == ESC;
        }
    }
    assert(!r.contains(ESC)) by {
        if r.contains(ESC) {
            let k = choose|k: int| 0 <= k < r.len() && r[k] == ESC;
        }
    }
    lemma_repeated_plain("\u{2500}"@, (PW + 2) as nat);
    lemma_scan_plain(l);
    lemma_scan_plain(r);
    lemma_scan_plain(d);
    let a1 = BG@ + FG_DIM@;
    lemma_scan_concat(BG@, FG_DIM@);
    lemma_scan_concat(a1, l);
    lemma_scan_concat(a1 + l, d);
    lemma_scan_concat(a1 + l + d, r);
    lemma_scan_concat(a1 + l + d + r, RESET@);
}

/// The top border is `PW + 4` characters wide on screen when the title fits
/// in it (and does not end inside an escape sequence).
pub proof fn lemma_panel_top_width(title: Seq<char>)
    requires
        !scan_visible(title).1,
        visible(title) + 5 <= PW + 4,
    ensures
        visible(panel_top_text(title)) == PW + 4,
        !scan_visible(panel_top_text(title)).1,
{
    lemma_codes_invisible();
    reveal_strlit("\u{256d}\u{2500} ");
    reveal_strlit(" ");
    reveal_strlit("\u{256e}");
    reveal_strlit("\u{2500}");
    let h0 = "\u{256d}\u{2500} "@;
    let sp = " "@;
    let r = "\u{256e}"@;
    assert(!h0.contains(ESC)) by {
        if h0.contains(ESC) {
            let k = choose|k: int| 0 <= k < h0.len() && h0[k] == ESC;
        }
    }
    assert(!sp.contains(ESC)) by {
        if sp.contains(ESC) {
            let k = choose|k: int| 0 <= k < sp.len() && sp[k] == ESC;
        }
    }
    assert(!r.contains(ESC)) by {
        if r.contains(ESC) {
            let k = choose|k: int| 0 <= k < r.len() && r[k] == ESC;
        }
    }
    lemma_scan_plain(h0);
    lemma_scan_plain(sp);
    lemma_scan_plain(r);
    lemma_scan_concat(h0, title);
    lemma_scan_concat(h0 + title, sp);
    let head = h0 + title + sp;
    let dashes = sat_sub((PW + 4) as nat, visible(head) + 1);
    let d = repeated("\u{2500}"@, dashes);
    lemma_repeated_plain("\u{2500}"@, dashes);
    lemma_scan_plain(d);
    let a1 = BG@ + FG_DIM@;
    lemma_scan_concat(BG@, FG_DIM@);
    lemma_scan_concat(a1, head);
    lemma_scan_concat(a1 + head, d);
    lemma_scan_concat(a1 + head + d, r);
    lemma_scan_concat(a1 + head + d + r, RESET@);
}

/// The panel has a fixed size: `PH + 2` lines (its borders and `PH` body
/// lines, whatever the length of the body), each `PW + 4` characters wide on
/// screen, when the title fits and no line ends inside an escape sequence.
pub proof fn lemma_frame_fixed_size(title: Seq<char>, body: Seq<Seq<char>>)
    requires
        !scan_visible(title).1,
        visible(title) + 5 <= PW + 4,
        forall|i: int| 0 <= i < body.len() ==> !(#[trigger] scan_visible(body[i])).1,
    ensures
        framed(title, body).len() == PH + 2,
        forall|i: int| 0 <= i < PH + 2 ==> visible(#[trigger] framed(title, body)[i]) == PW + 4,
{
    let f = framed(title, body);
    lemma_panel_top_width(title);
    lemma_panel_bottom_width();
    assert forall|i: int| 0 <= i < PH + 2 implies visible(#[trigger] f[i]) == PW + 4 by {
        if i == 0 {
            assert(f[0] == panel_top_text(title));
        } else if i == PH + 1 {
            assert(f[i] == panel_bottom_text());
        } else {
            let b = body_line(body, i - 1);
            assert(f[i] == panel_line_text(b));
            if i - 1 < body.len() {
                assert(!scan_visible(body[i - 1]).1);
            } else {
                assert(b == Seq::<char>::empty());
            }
            lemma_panel_line_width(b);
        }
    }
}

} // verus!
