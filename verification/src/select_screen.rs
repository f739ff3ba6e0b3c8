//! The second screen of `bdd inject`: the log of the search for machines,
//! then the list in which each machine gets its role, how it is drawn and how
//! it answers each key.
use vstd::prelude::*;
use crate::cands::{
    add_candidate, all_roles_taken, as_added, assign_role, cands_view, cycle_free_role,
    cycled_role, first_free_role, fix_roles, free_roles, gather, gathered, lemma_assign_role_unique,
    lemma_fix_roles_unique, lemma_free_roles_are_free, lemma_sort_keeps_roles, listing_sorted,
    picks_view, preset_roles, role_assigned, role_choices, role_choices_spec, role_for_added,
    roles_fixed, roles_preset, roles_unique, set_role, sort_cands, taken, with_role, Cand, CandView,
    Probed, ProbedView,
};
use crate::creds::{Cred, CredView};
use crate::keys::Key;
use crate::model::{role_name, Role};
use crate::text::{is_whitespace, is_ws, push_char};
use crate::panel::{
    boxed_input, buttons_lines, buttons_rows, colored, fg, input_lines, pad, padded, sat_sub,
    FG_BRIGHT, FG_CYAN, FG_CYAN_DIM, FG_DIM, FG_NORM, PH, PW,
};

verus! {

/// The number of machines the list shows at once.
pub const LROWS: usize = 6;

/// What has the focus on the selection screen.
#[derive(Clone, Copy, PartialEq, Eq, Debug, Structural)]
pub enum Sel {
    List,
    AddIp,
    AddRole,
    Enter,
    Esc,
}

/// The body while machines are searched: a title, a blank line and the last
/// lines of the log that fit.
pub open spec fn log_lines(log: Seq<Seq<char>>) -> Seq<Seq<char>> {
    let start = sat_sub(log.len(), (PH - 2) as nat);
    seq![colored(FG_BRIGHT@, "Carregando..."@), Seq::<char>::empty()] + Seq::new(
        (log.len() - start) as nat,
        |i: int| colored(FG_NORM@, padded(log[start + i], PW as nat)),
    )
}

/// The body while machines are searched.
pub fn log_body(log: &[String]) -> (r: Vec<String>)
    ensures
        r.deep_view() == log_lines(log@.map_values(|l: String| l@)),
{
    let ghost lv = log@.map_values(|l: String| l@);
    let mut body: Vec<String> = Vec::new();
    body.push(fg(FG_BRIGHT, "Carregando..."));
    body.push(String::new());
    let n = log.len();
    let start = if n >= PH - 2 {
        n - (PH - 2)
    } else {
        0
    };
    let mut i: usize = start;
    while i < n
        invariant
            start <= i <= n,
            n == log@.len(),
            start == sat_sub(n as nat, (PH - 2) as nat),
            lv == log@.map_values(|l: String| l@),
            body.deep_view() == seq![colored(FG_BRIGHT@, "Carregando..."@), Seq::<char>::empty()]
                + Seq::new(
                (i - start) as nat,
                |k: int| colored(FG_NORM@, padded(lv[start + k], PW as nat)),
            ),
        decreases n - i,
    {
        let line = fg(FG_NORM, pad(log[i].as_str(), PW).as_str());
        let ghost before = body.deep_view();
        body.push(line);
        assert(body.deep_view() =~= before.push(line@));
        assert(body.deep_view() =~= seq![colored(FG_BRIGHT@, "Carregando..."@), Seq::<char>::empty()]
            + Seq::new(
            (i + 1 - start) as nat,
            |k: int| colored(FG_NORM@, padded(lv[start + k], PW as nat)),
        ));
        i = i + 1;
    }
    body
}

/// What the list shows of a machine's role: its role, else its suggested one.
pub open spec fn role_tag(c: CandView) -> Seq<char> {
    match c.role {
        Some(r) => "["@ + role_name(r) + "]"@,
        None => match c.suggest {
            Some(r) => "(sug "@ + role_name(r) + ")"@,
            None => Seq::empty(),
        },
    }
}

fn role_tag_text(c: &Cand) -> (r: String)
    ensures
        r@ == role_tag(c@),
{
    match c.role {
        Some(r) => {
            let mut out = "[".to_string();
            out.append(r.name());
            out.append("]");
            out
        },
        None => match c.suggest {
            Some(r) => {
                let mut out = "(sug ".to_string();
                out.append(r.name());
                out.append(")");
                out
            },
            None => String::new(),
        },
    }
}

/// The columns of a machine's line: address, host name, internal address and
/// role; for a machine no credential opened, its address and the failure.
pub open spec fn cand_text(c: CandView) -> Seq<char> {
    if c.working.len() > 0 {
        padded(c.ip, 14) + padded(c.host, 14) + padded(c.intern, 16) + role_tag(c)
    } else {
        padded(c.ip, 14) + "login falhou (sem acesso)"@
    }
}

/// Line `vi` of the list window that starts at machine `top`.
pub open spec fn list_line(c: Seq<CandView>, focus: Sel, li: int, top: int, vi: int) -> Seq<char> {
    let idx = top + vi;
    let list_focus = focus == Sel::List;
    if idx >= c.len() {
        Seq::empty()
    } else {
        let cursor = idx == li;
        let mk = if cursor {
            colored(
                if list_focus {
                    FG_CYAN@
                } else {
                    FG_CYAN_DIM@
                },
                "\u{25b6} "@,
            )
        } else {
            "  "@
        };
        let code = if cursor && list_focus {
            FG_BRIGHT@
        } else if list_focus {
            FG_NORM@
        } else {
            FG_DIM@
        };
        mk + colored(code, padded(cand_text(c[idx]), (PW - 2) as nat))
    }
}

/// The header line of the list.
pub open spec fn list_head() -> Seq<char> {
    colored(
        FG_DIM@,
        padded(
            padded("IP"@, 16) + padded("hostname"@, 14) + padded("interna"@, 16) + "fun\u{e7}\u{e3}o"@,
            PW as nat,
        ),
    )
}

/// The role shown in the box of a machine being added: the one chosen, else
/// the first free one, else "?".
pub open spec fn add_role_text(c: Seq<CandView>, add_role: Option<Role>) -> Seq<char> {
    match add_role {
        Some(r) => role_name(r),
        None => if free_roles(c).len() > 0 {
            role_name(free_roles(c)[0])
        } else {
            "?"@
        },
    }
}

/// The three lines that add a machine by hand: its address box and, once an
/// address is typed, its role box.
pub open spec fn add_lines(c: Seq<CandView>, focus: Sel, add_ip: Seq<char>, add_role: Option<Role>) -> Seq<Seq<char>> {
    let ipbox = input_lines("IP"@, add_ip, focus == Sel::AddIp, 15);
    let rb = if add_ip.len() > 0 {
        input_lines("fun\u{e7}\u{e3}o"@, add_role_text(c, add_role), focus == Sel::AddRole, 9)
    } else {
        seq![Seq::<char>::empty(), Seq::<char>::empty(), Seq::<char>::empty()]
    };
    Seq::new(3, |i: int| ipbox[i] + "  "@ + rb[i])
}

/// The help line of the selection screen, by what has the focus.
pub open spec fn select_hint(focus: Sel) -> Seq<char> {
    colored(
        FG_DIM@,
        match focus {
            Sel::List => "setas movem  -  Enter define a fun\u{e7}\u{e3}o  -  Tab sai da lista"@,
            Sel::AddIp => "digite um IP que o scan perdeu  -  Tab vai pra fun\u{e7}\u{e3}o"@,
            Sel::AddRole => "setas escolhem a fun\u{e7}\u{e3}o  -  Enter adiciona"@,
            _ => "Enter confirma tudo  -  Esc cancela"@,
        },
    )
}

/// The body of the selection screen: the header, `LROWS` lines of the list
/// from machine `top`, the lines to add a machine (blank when every role is
/// taken), the buttons and the help line.
pub open spec fn select_lines(
    c: Seq<CandView>,
    focus: Sel,
    li: int,
    top: int,
    show_add: bool,
    add_ip: Seq<char>,
    add_role: Option<Role>,
) -> Seq<Seq<char>> {
    seq![list_head()] + Seq::new(LROWS as nat, |vi: int| list_line(c, focus, li, top, vi)) + (
    if show_add {
        add_lines(c, focus, add_ip, add_role)
    } else {
        seq![Seq::<char>::empty(), Seq::<char>::empty(), Seq::<char>::empty()]
    }) + buttons_lines(focus == Sel::Enter, focus == Sel::Esc) + seq![select_hint(focus)]
}

fn cand_line(cands: &Vec<Cand>, focus: Sel, li: usize, top: usize, vi: usize) -> (r: String)
    ensures
        r@ == list_line(cands_view(cands@), focus, li as int, top as int, vi as int),
{
    if vi >= cands.len() || top >= cands.len() - vi {
        return String::new();
    }
    let idx = top + vi;
    let list_focus = focus == Sel::List;
    let c = &cands[idx];
    let cursor = idx == li;
    let mut out = if cursor {
        fg(
            if list_focus {
                FG_CYAN
            } else {
                FG_CYAN_DIM
            },
            "\u{25b6} ",
        )
    } else {
        "  ".to_string()
    };
    let txt = if c.accessible() {
        let mut t = pad(c.ip.as_str(), 14);
        t.append(pad(c.host.as_str(), 14).as_str());
        t.append(pad(c.intern.as_str(), 16).as_str());
        t.append(role_tag_text(c).as_str());
        t
    } else {
        let mut t = pad(c.ip.as_str(), 14);
        t.append("login falhou (sem acesso)");
        t
    };
    let code = if cursor && list_focus {
        FG_BRIGHT
    } else if list_focus {
        FG_NORM
    } else {
        FG_DIM
    };
    out.append(fg(code, pad(txt.as_str(), PW - 2).as_str()).as_str());
    assert(cands_view(cands@)[idx as int] == c@);
    out
}

fn head_line() -> (r: String)
    ensures
        r@ == list_head(),
{
    let mut h = pad("IP", 16);
    h.append(pad("hostname", 14).as_str());
    h.append(pad("interna", 16).as_str());
    h.append("fun\u{e7}\u{e3}o");
    fg(FG_DIM, pad(h.as_str(), PW).as_str())
}

fn hint_line(focus: Sel) -> (r: String)
    ensures
        r@ == select_hint(focus),
{
    let h = match focus {
        Sel::List => "setas movem  -  Enter define a fun\u{e7}\u{e3}o  -  Tab sai da lista",
        Sel::AddIp => "digite um IP que o scan perdeu  -  Tab vai pra fun\u{e7}\u{e3}o",
        Sel::AddRole => "setas escolhem a fun\u{e7}\u{e3}o  -  Enter adiciona",
        _ => "Enter confirma tudo  -  Esc cancela",
    };
    fg(FG_DIM, h)
}

fn add_role_label(cands: &Vec<Cand>, add_role: Option<Role>) -> (r: &'static str)
    ensures
        r@ == add_role_text(cands_view(cands@), add_role),
{
    match add_role {
        Some(r) => r.name(),
        None => match first_free_role(cands) {
            Some(r) => r.name(),
            None => "?",
        },
    }
}

/// The body of the selection screen.
pub fn select_body(
    cands: &Vec<Cand>,
    focus: Sel,
    li: usize,
    top: usize,
    show_add: bool,
    add_ip: &str,
    add_role: Option<Role>,
) -> (r: Vec<String>)
    ensures
        r.deep_view() == select_lines(
            cands_view(cands@),
            focus,
            li as int,
            top as int,
            show_add,
            add_ip@,
            add_role,
        ),
{
    let ghost cv = cands_view(cands@);
    let mut body: Vec<String> = Vec::new();
    body.push(head_line());
    let mut vi: usize = 0;
    while vi < LROWS
        invariant
            vi <= LROWS,
            cv == cands_view(cands@),
            body.deep_view() == seq![list_head()] + Seq::new(
                vi as nat,
                |k: int| list_line(cv, focus, li as int, top as int, k),
            ),
        decreases LROWS - vi,
    {
        let line = cand_line(cands, focus, li, top, vi);
        let ghost before = body.deep_view();
        body.push(line);
        assert(body.deep_view() =~= before.push(line@));
        assert(body.deep_view() =~= seq![list_head()] + Seq::new(
            (vi + 1) as nat,
            |k: int| list_line(cv, focus, li as int, top as int, k),
        ));
        vi = vi + 1;
    }
    let ghost after_list = body.deep_view();
    proof {
        reveal_strlit("");
    }
    if show_add {
        let ipbox = boxed_input("IP", add_ip, focus == Sel::AddIp, 15);
        let rb = if add_ip.unicode_len() > 0 {
            boxed_input("fun\u{e7}\u{e3}o", add_role_label(cands, add_role), focus == Sel::AddRole, 9)
        } else {
            [String::new(), String::new(), String::new()]
        };
        let ghost ipv = ipbox@.map_values(|l: String| l@);
        let ghost rbv = rb@.map_values(|l: String| l@);
        assert(ipv[0] == ipbox@[0]@ && ipv[1] == ipbox@[1]@ && ipv[2] == ipbox@[2]@);
        assert(rbv[0] == rb@[0]@ && rbv[1] == rb@[1]@ && rbv[2] == rb@[2]@);
        assert(rbv =~= (if add_ip@.len() > 0 {
            input_lines("fun\u{e7}\u{e3}o"@, add_role_text(cv, add_role), focus == Sel::AddRole, 9)
        } else {
            seq![Seq::<char>::empty(), Seq::<char>::empty(), Seq::<char>::empty()]
        }));
        let mut k: usize = 0;
        while k < 3
            invariant
                k <= 3,
                body.deep_view() == after_list + add_lines(cv, focus, add_ip@, add_role).subrange(0, k as int),
                ipv == ipbox@.map_values(|l: String| l@),
                rbv == rb@.map_values(|l: String| l@),
                ipv == input_lines("IP"@, add_ip@, focus == Sel::AddIp, 15),
                rbv == (if add_ip@.len() > 0 {
                    input_lines("fun\u{e7}\u{e3}o"@, add_role_text(cv, add_role), focus == Sel::AddRole, 9)
                } else {
                    seq![Seq::<char>::empty(), Seq::<char>::empty(), Seq::<char>::empty()]
                }),
            decreases 3 - k,
        {
            let mut line = ipbox[k].clone();
            line.append("  ");
            line.append(rb[k].as_str());
            let ghost before = body.deep_view();
            assert(line@ == ipv[k as int] + "  "@ + rbv[k as int]);
            assert(add_lines(cv, focus, add_ip@, add_role)[k as int] == ipv[k as int] + "  "@ + rbv[k as int]);
            let ghost lv = line@;
            body.push(line);
            assert(body.deep_view() =~= before.push(lv));
            assert(body.deep_view() =~= after_list + add_lines(cv, focus, add_ip@, add_role).subrange(0, k + 1));
            k = k + 1;
        }
        assert(add_lines(cv, focus, add_ip@, add_role).subrange(0, 3) =~= add_lines(cv, focus, add_ip@, add_role));
    } else {
        body.push(String::new());
        body.push(String::new());
        body.push(String::new());
    }
    let ghost after_add = body.deep_view();
    let b = buttons_rows(focus == Sel::Enter, focus == Sel::Esc);
    proof {
        let bv = b@.map_values(|l: String| l@);
        assert(bv[0] == b@[0]@ && bv[1] == b@[1]@ && bv[2] == b@[2]@);
    }
    body.push(b[0].clone());
    body.push(b[1].clone());
    body.push(b[2].clone());
    body.push(hint_line(focus));
    assert(body.deep_view() =~= select_lines(
        cv,
        focus,
        li as int,
        top as int,
        show_add,
        add_ip@,
        add_role,
    ));
    body
}


/// The log line after probing the machine at `ip`: no access, or access and
/// the role it suggests.
pub open spec fn probe_log_text(ip: Seq<char>, p: ProbedView) -> Seq<char> {
    if p.working.len() == 0 {
        "  "@ + ip + ": sem acesso"@
    } else {
        "  "@ + ip + ": acesso ok"@ + match p.suggest {
            Some(r) => " ("@ + role_name(r) + ")"@,
            None => Seq::empty(),
        }
    }
}

/// The log line after probing the machine at `ip`.
pub fn probe_log_line(ip: &str, p: &Probed) -> (r: String)
    ensures
        r@ == probe_log_text(ip@, p@),
{
    let mut out = "  ".to_string();
    out.append(ip);
    if p.working.len() == 0 {
        out.append(": sem acesso");
    } else {
        out.append(": acesso ok");
        if let Some(r) = p.suggest {
            out.append(" (");
            out.append(r.name());
            out.append(")");
        }
    }
    out
}

// ------------------------------------------------------------------ the screen

/// The state of the selection screen: the machines, what has the focus, the
/// machine under the cursor and the first one shown, and the machine being
/// added by hand (its address and chosen role).
pub struct SelectScreen {
    pub cands: Vec<Cand>,
    pub focus: Sel,
    pub li: usize,
    pub top: usize,
    pub add_ip: String,
    pub add_role: Option<Role>,
}

pub struct SelectScreenView {
    pub cands: Seq<CandView>,
    pub focus: Sel,
    pub li: usize,
    pub top: usize,
    pub add_ip: Seq<char>,
    pub add_role: Option<Role>,
}

impl View for SelectScreen {
    type V = SelectScreenView;

    open spec fn view(&self) -> SelectScreenView {
        SelectScreenView {
            cands: cands_view(self.cands@),
            focus: self.focus,
            li: self.li,
            top: self.top,
            add_ip: self.add_ip@,
            add_role: self.add_role,
        }
    }
}

impl SelectScreenView {
    /// The cursor is on a machine whenever there is one.
    pub open spec fn ready(self) -> bool {
        self.cands.len() > 0 ==> self.li < self.cands.len()
    }
}

/// Whether every role is held by some machine.
pub open spec fn all_taken(c: Seq<CandView>) -> bool {
    taken(c, Role::Mgm) && taken(c, Role::N1) && taken(c, Role::N2)
}

/// The screen as drawn: the cursor kept on the list, the window scrolled to
/// show it, and the focus taken from the boxes to add a machine when every
/// role is taken (they are not shown then).
pub open spec fn select_prepared(v: SelectScreenView) -> SelectScreenView {
    let total = v.cands.len();
    let li = if v.li >= total && total > 0 {
        (total - 1) as usize
    } else {
        v.li
    };
    let top1 = if li < v.top {
        li
    } else {
        v.top
    };
    let top = if li >= top1 + LROWS {
        (li + 1 - LROWS) as usize
    } else {
        top1
    };
    let focus = if all_taken(v.cands) && (v.focus == Sel::AddIp || v.focus == Sel::AddRole) {
        Sel::List
    } else {
        v.focus
    };
    SelectScreenView { li, top, focus, ..v }
}

/// What a key leads to.
pub enum SelectOutcome {
    Continue,
    Cancel,
    /// Install on these machines: (role, address, credential).
    Confirm(Vec<(Role, String, Cred)>),
    /// Ask which role the machine under the cursor gets.
    PickRole,
    /// Try the credentials on the typed address; the machine gets this role.
    Probe(Role),
}

pub enum SelectOutcomeView {
    Continue,
    Cancel,
    Confirm(Seq<(Role, Seq<char>, CredView)>),
    PickRole,
    Probe(Role),
}

impl View for SelectOutcome {
    type V = SelectOutcomeView;

    open spec fn view(&self) -> SelectOutcomeView {
        match self {
            SelectOutcome::Continue => SelectOutcomeView::Continue,
            SelectOutcome::Cancel => SelectOutcomeView::Cancel,
            SelectOutcome::Confirm(v) => SelectOutcomeView::Confirm(picks_view(v@)),
            SelectOutcome::PickRole => SelectOutcomeView::PickRole,
            SelectOutcome::Probe(r) => SelectOutcomeView::Probe(*r),
        }
    }
}

pub open spec fn with_focus(v: SelectScreenView, f: Sel) -> SelectScreenView {
    SelectScreenView { focus: f, ..v }
}

/// Enter on the boxes to add a machine: probe the typed address, for the
/// chosen role or else the first free one; nothing without an address or a
/// free role.
pub open spec fn adding(v: SelectScreenView) -> (SelectScreenView, SelectOutcomeView) {
    match role_for_added(v.cands, v.add_ip, v.add_role) {
        Some(r) => (v, SelectOutcomeView::Probe(r)),
        None => (v, SelectOutcomeView::Continue),
    }
}

/// The typed address after a key: Backspace drops a character, a character
/// other than whitespace is added.
pub open spec fn ip_typed(ip: Seq<char>, k: Key) -> Seq<char> {
    match k {
        Key::Backspace => if ip.len() > 0 {
            ip.drop_last()
        } else {
            ip
        },
        Key::Char(c) => if !is_ws(c) {
            ip.push(c)
        } else {
            ip
        },
        Key::Ctrl(c) => if !is_ws(c) {
            ip.push(c)
        } else {
            ip
        },
        _ => ip,
    }
}

/// What key `k` does on the selection screen: Esc gives up and F2 confirms
/// from anywhere; otherwise it depends on what has the focus (on the list,
/// `a` goes to the boxes that add a machine).
pub open spec fn select_keyed(v: SelectScreenView, k: Key) -> (SelectScreenView, SelectOutcomeView) {
    let total = v.cands.len();
    let show = !all_taken(v.cands);
    let out_of_list = if show {
        Sel::AddIp
    } else {
        Sel::Enter
    };
    let back_to = if show {
        Sel::AddIp
    } else {
        Sel::List
    };
    let cont = SelectOutcomeView::Continue;
    if k == Key::Esc {
        (v, SelectOutcomeView::Cancel)
    } else if k == Key::F2 {
        (v, SelectOutcomeView::Confirm(gathered(v.cands)))
    } else {
        match v.focus {
            Sel::List => match k {
                Key::Char(c) => if c == 'a' && show {
                    (with_focus(v, Sel::AddIp), cont)
                } else {
                    (v, cont)
                },
                Key::Tab => (with_focus(v, out_of_list), cont),
                Key::BackTab => (with_focus(v, Sel::Esc), cont),
                Key::Up => if total > 0 {
                    (
                        SelectScreenView {
                            li: if v.li == 0 {
                                (total - 1) as usize
                            } else {
                                (v.li - 1) as usize
                            },
                            ..v
                        },
                        cont,
                    )
                } else {
                    (v, cont)
                },
                Key::Down => if total == 0 || v.li + 1 >= total {
                    (with_focus(v, out_of_list), cont)
                } else {
                    (SelectScreenView { li: (v.li + 1) as usize, ..v }, cont)
                },
                Key::Enter => if total > 0 {
                    (v, SelectOutcomeView::PickRole)
                } else {
                    (v, cont)
                },
                _ => (v, cont),
            },
            Sel::AddIp => match k {
                Key::Tab => (
                    with_focus(
                        v,
                        if v.add_ip.len() == 0 {
                            Sel::Enter
                        } else {
                            Sel::AddRole
                        },
                    ),
                    cont,
                ),
                Key::BackTab => (with_focus(v, Sel::List), cont),
                Key::Up => (with_focus(v, Sel::List), cont),
                Key::Down => (with_focus(v, Sel::Enter), cont),
                Key::Enter => adding(v),
                _ => (SelectScreenView { add_ip: ip_typed(v.add_ip, k), ..v }, cont),
            },
            Sel::AddRole => match k {
                Key::Tab => (with_focus(v, Sel::Enter), cont),
                Key::BackTab => (with_focus(v, Sel::AddIp), cont),
                Key::Left => (
                    SelectScreenView { add_role: cycled_role(v.cands, v.add_role, false), ..v },
                    cont,
                ),
                Key::Right => (
                    SelectScreenView { add_role: cycled_role(v.cands, v.add_role, true), ..v },
                    cont,
                ),
                Key::Up => (with_focus(v, Sel::AddIp), cont),
                Key::Down => (with_focus(v, Sel::Enter), cont),
                Key::Enter => adding(v),
                _ => (v, cont),
            },
            Sel::Enter => match k {
                Key::Tab => (with_focus(v, Sel::Esc), cont),
                Key::BackTab => (with_focus(v, back_to), cont),
                Key::Up => (with_focus(v, back_to), cont),
                Key::Right => (with_focus(v, Sel::Esc), cont),
                Key::Enter => (v, SelectOutcomeView::Confirm(gathered(v.cands))),
                _ => (v, cont),
            },
            Sel::Esc => match k {
                Key::Tab => (with_focus(v, Sel::List), cont),
                Key::BackTab => (with_focus(v, Sel::Enter), cont),
                Key::Left => (with_focus(v, Sel::Enter), cont),
                Key::Up => (with_focus(v, back_to), cont),
                Key::Enter => (v, SelectOutcomeView::Cancel),
                _ => (v, cont),
            },
        }
    }
}

/// A machine found by probing the address `ip`, without a role yet.
pub open spec fn probed_cand(ip: Seq<char>, p: ProbedView) -> CandView {
    CandView {
        ip,
        host: p.host,
        intern: p.intern,
        suggest: p.suggest,
        working: p.working,
        role: None,
    }
}

/// The machines after choosing a role for machine `li` (`None`: no role).
pub open spec fn picked(c: Seq<CandView>, li: int, choice: Option<Role>) -> Seq<CandView> {
    match choice {
        Some(r) => role_assigned(c, li, r),
        None => c.update(li, with_role(c[li], None)),
    }
}

impl SelectScreen {
    /// The screen once the machines are known: sorted for listing, each
    /// accessible one with the role it suggests, no role held twice.
    pub fn new(cands: Vec<Cand>) -> (s: SelectScreen)
        ensures
            exists|sorted: Seq<CandView>|
                listing_sorted(cands_view(cands@), sorted) && s@.cands == roles_fixed(
                    roles_preset(sorted),
                ),
            s@.focus == Sel::List,
            s@.li == 0,
            s@.top == 0,
            s@.add_ip.len() == 0,
            s@.add_role is None,
    {
        let mut cands = cands;
        let ghost orig = cands_view(cands@);
        sort_cands(&mut cands);
        let ghost sorted = cands_view(cands@);
        preset_roles(&mut cands);
        fix_roles(&mut cands);
        let s = SelectScreen {
            cands,
            focus: Sel::List,
            li: 0,
            top: 0,
            add_ip: String::new(),
            add_role: None,
        };
        assert(listing_sorted(orig, sorted) && s@.cands == roles_fixed(roles_preset(sorted)));
        s
    }

    /// Before each drawing: keeps the cursor on the list and in the window,
    /// and the focus off the hidden boxes.
    pub fn prepare(&mut self)
        ensures
            final(self)@ == select_prepared(old(self)@),
    {
        let total = self.cands.len();
        if self.li >= total && total > 0 {
            self.li = total - 1;
        }
        if self.li < self.top {
            self.top = self.li;
        }
        if self.li - self.top >= LROWS {
            self.top = self.li - (LROWS - 1);
        }
        let show_add = !all_roles_taken(&self.cands);
        if !show_add && (self.focus == Sel::AddIp || self.focus == Sel::AddRole) {
            self.focus = Sel::List;
        }
    }

    /// Whether the screen can take a key.
    pub fn is_ready(&self) -> (b: bool)
        ensures
            b == self@.ready(),
    {
        self.cands.len() == 0 || self.li < self.cands.len()
    }

    /// The body to draw.
    pub fn body(&self) -> (r: Vec<String>)
        ensures
            r.deep_view() == select_lines(
                self@.cands,
                self.focus,
                self.li as int,
                self.top as int,
                !all_taken(self@.cands),
                self@.add_ip,
                self.add_role,
            ),
    {
        let show_add = !all_roles_taken(&self.cands);
        select_body(
            &self.cands,
            self.focus,
            self.li,
            self.top,
            show_add,
            self.add_ip.as_str(),
            self.add_role,
        )
    }

    /// Answers key `k`.
    pub fn on_key(&mut self, k: Key) -> (r: SelectOutcome)
        requires
            old(self)@.ready(),
        ensures
            (final(self)@, r@) == select_keyed(old(self)@, k),
    {
        let total = self.cands.len();
        let show = !all_roles_taken(&self.cands);
        let out_of_list = if show {
            Sel::AddIp
        } else {
            Sel::Enter
        };
        let back_to = if show {
            Sel::AddIp
        } else {
            Sel::List
        };
        if k == Key::Esc {
            return SelectOutcome::Cancel;
        }
        if k == Key::F2 {
            return SelectOutcome::Confirm(gather(&self.cands));
        }
        match self.focus {
            Sel::List => match k {
                Key::Char(c) => {
                    if c == 'a' && show {
                        self.focus = Sel::AddIp;
                    }
                },
                Key::Tab => self.focus = out_of_list,
                Key::BackTab => self.focus = Sel::Esc,
                Key::Up => {
                    if total > 0 {
                        if self.li == 0 {
                            self.li = total - 1;
                        } else {
                            self.li = self.li - 1;
                        }
                    }
                },
                Key::Down => {
                    if total == 0 || self.li + 1 >= total {
                        self.focus = out_of_list;
                    } else {
                        self.li = self.li + 1;
                    }
                },
                Key::Enter => {
                    if total > 0 {
                        return SelectOutcome::PickRole;
                    }
                },
                _ => {},
            },
            Sel::AddIp => match k {
                Key::Tab => {
                    self.focus = if self.add_ip.unicode_len() == 0 {
                        Sel::Enter
                    } else {
                        Sel::AddRole
                    }
                },
                Key::BackTab => self.focus = Sel::List,
                Key::Up => self.focus = Sel::List,
                Key::Down => self.focus = Sel::Enter,
                Key::Enter => return self.adding(),
                Key::Backspace => {
                    let n = self.add_ip.unicode_len();
                    if n > 0 {
                        let shorter = self.add_ip.as_str().substring_char(0, n - 1).to_string();
                        assert(shorter@ =~= self.add_ip@.drop_last());
                        self.add_ip = shorter;
                    }
                },
                Key::Char(c) => {
                    if !is_whitespace(c) {
                        push_char(&mut self.add_ip, c);
                    }
                },
                Key::Ctrl(c) => {
                    if !is_whitespace(c) {
                        push_char(&mut self.add_ip, c);
                    }
                },
                _ => {},
            },
            Sel::AddRole => match k {
                Key::Tab => self.focus = Sel::Enter,
                Key::BackTab => self.focus = Sel::AddIp,
                Key::Left => self.add_role = cycle_free_role(&self.cands, self.add_role, false),
                Key::Right => self.add_role = cycle_free_role(&self.cands, self.add_role, true),
                Key::Up => self.focus = Sel::AddIp,
                Key::Down => self.focus = Sel::Enter,
                Key::Enter => return self.adding(),
                _ => {},
            },
            Sel::Enter => match k {
                Key::Tab => self.focus = Sel::Esc,
                Key::BackTab => self.focus = back_to,
                Key::Up => self.focus = back_to,
                Key::Right => self.focus = Sel::Esc,
                Key::Enter => return SelectOutcome::Confirm(gather(&self.cands)),
                _ => {},
            },
            Sel::Esc => match k {
                Key::Tab => self.focus = Sel::List,
                Key::BackTab => self.focus = Sel::Enter,
                Key::Left => self.focus = Sel::Enter,
                Key::Up => self.focus = back_to,
                Key::Enter => return SelectOutcome::Cancel,
                _ => {},
            },
        }
        SelectOutcome::Continue
    }

    fn adding(&self) -> (r: SelectOutcome)
        ensures
            r@ == adding(self@).1,
    {
        if self.add_ip.unicode_len() == 0 {
            return SelectOutcome::Continue;
        }
        let r = match self.add_role {
            Some(r) => Some(r),
            None => first_free_role(&self.cands),
        };
        match r {
            Some(r) => SelectOutcome::Probe(r),
            None => SelectOutcome::Continue,
        }
    }

    /// Gives machine `li` the role chosen for it (`None`: no role).
    pub fn set_picked(&mut self, choice: Option<Role>)
        requires
            old(self).li < old(self).cands@.len(),
        ensures
            final(self)@ == (SelectScreenView {
                cands: picked(old(self)@.cands, old(self).li as int, choice),
                ..old(self)@
            }),
    {
        let ghost v = cands_view(self.cands@);
        match choice {
            Some(r) => assign_role(&mut self.cands, self.li, r),
            None => set_role(&mut self.cands, self.li, None),
        }
        assert(cands_view(self.cands@) =~= picked(v, self.li as int, choice));
    }

    /// Adds the machine probed at the typed address, with role `r` if a
    /// credential opened it, sorts the list again and empties the boxes.
    pub fn add_probed(&mut self, p: Probed, r: Role)
        ensures
            listing_sorted(
                old(self)@.cands.push(as_added(probed_cand(old(self)@.add_ip, p@), r)),
                final(self)@.cands,
            ),
            final(self)@.add_ip.len() == 0,
            final(self)@.add_role is None,
            final(self)@.focus == old(self)@.focus,
            final(self)@.li == old(self)@.li,
            final(self)@.top == old(self)@.top,
    {
        let c = Cand {
            ip: self.add_ip.clone(),
            host: p.host,
            intern: p.intern,
            suggest: p.suggest,
            working: p.working,
            role: None,
        };
        add_candidate(&mut self.cands, c, r);
        self.add_ip = String::new();
        self.add_role = None;
    }
}

// ------------------------------------------------------------------ role picker

/// The small list that asks which role a machine gets: the roles no other
/// machine has, then "(remover)".
pub struct RolePicker {
    pub opts: Vec<Option<Role>>,
    pub sel: usize,
    /// The machine's role before asking, kept when the question is left.
    pub current: Option<Role>,
}

/// What a key leads to in the role picker.
#[derive(Clone, Copy, PartialEq, Eq, Debug, Structural)]
pub enum PickOutcome {
    Continue,
    Done(Option<Role>),
}

/// Where the picker's cursor starts: on the machine's role, else the first.
pub open spec fn first_sel(opts: Seq<Option<Role>>, current: Option<Role>) -> int {
    match current {
        Some(r) => if opts.contains(Some(r)) {
            opts.index_of(Some(r))
        } else {
            0
        },
        None => 0,
    }
}

/// What a key does in the picker: the arrows move the cursor within the
/// list, Enter answers the option under it, Esc keeps the current role.
pub open spec fn pick_keyed(opts: Seq<Option<Role>>, sel: int, current: Option<Role>, k: Key) -> (int, PickOutcome) {
    match k {
        Key::Up => (
            if sel > 0 {
                sel - 1
            } else {
                sel
            },
            PickOutcome::Continue,
        ),
        Key::Down => (
            if sel + 1 < opts.len() {
                sel + 1
            } else {
                sel
            },
            PickOutcome::Continue,
        ),
        Key::Enter => (sel, PickOutcome::Done(opts[sel])),
        Key::Esc => (sel, PickOutcome::Done(current)),
        _ => (sel, PickOutcome::Continue),
    }
}

/// The name of an option of the picker.
pub open spec fn option_name(o: Option<Role>) -> Seq<char> {
    match o {
        Some(r) => role_name(r),
        None => "(remover)"@,
    }
}

/// The picker's body: its question, a blank line, then each option, the one
/// under the cursor marked.
pub open spec fn picker_lines(opts: Seq<Option<Role>>, sel: int) -> Seq<Seq<char>> {
    seq![colored(FG_BRIGHT@, "Fun\u{e7}\u{e3}o desta VM:"@), Seq::<char>::empty()] + Seq::new(
        opts.len(),
        |i: int|
            (if i == sel {
                colored(FG_CYAN@, "\u{25b6} "@)
            } else {
                "  "@
            }) + colored(
                if i == sel {
                    FG_BRIGHT@
                } else {
                    FG_NORM@
                },
                option_name(opts[i]),
            ),
    )
}

fn option_label(o: Option<Role>) -> (r: &'static str)
    ensures
        r@ == option_name(o),
{
    match o {
        Some(r) => r.name(),
        None => "(remover)",
    }
}

impl RolePicker {
    /// The picker for machine `li`.
    pub fn new(cands: &Vec<Cand>, li: usize) -> (p: RolePicker)
        requires
            li < cands@.len(),
        ensures
            p.opts@ == role_choices_spec(cands_view(cands@), li as int),
            p.current == cands_view(cands@)[li as int].role,
            p.sel == first_sel(p.opts@, p.current),
            p.sel < p.opts@.len(),
    {
        let opts = role_choices(cands, li);
        let current = cands[li].role;
        assert(cands_view(cands@)[li as int].role == current);
        let mut sel: usize = 0;
        if let Some(r) = current {
            let mut k: usize = 0;
            let mut found = false;
            while k < opts.len()
                invariant
                    k <= opts@.len(),
                    !found ==> sel == 0 && forall|j: int| 0 <= j < k ==> opts@[j] != Some(r),
                    found ==> sel < opts@.len() && opts@[sel as int] == Some(r) && forall|j: int|
                        0 <= j < sel ==> opts@[j] != Some(r),
                decreases opts@.len() - k,
            {
                if !found && opts[k] == Some(r) {
                    sel = k;
                    found = true;
                }
                k = k + 1;
            }
            proof {
                if found {
                    assert(opts@.contains(Some(r)));
                    opts@.index_of_first_ensures(Some(r));
                } else {
                    assert(!opts@.contains(Some(r)));
                }
            }
        }
        RolePicker { opts, sel, current }
    }

    /// The body to draw.
    pub fn body(&self) -> (r: Vec<String>)
        ensures
            r.deep_view() == picker_lines(self.opts@, self.sel as int),
    {
        let mut body: Vec<String> = Vec::new();
        body.push(fg(FG_BRIGHT, "Fun\u{e7}\u{e3}o desta VM:"));
        body.push(String::new());
        let mut i: usize = 0;
        while i < self.opts.len()
            invariant
                i <= self.opts@.len(),
                body.deep_view() == picker_lines(self.opts@, self.sel as int).subrange(0, i + 2),
            decreases self.opts@.len() - i,
        {
            let mut line = if i == self.sel {
                fg(FG_CYAN, "\u{25b6} ")
            } else {
                "  ".to_string()
            };
            let code = if i == self.sel {
                FG_BRIGHT
            } else {
                FG_NORM
            };
            line.append(fg(code, option_label(self.opts[i])).as_str());
            let ghost before = body.deep_view();
            let ghost lv = line@;
            body.push(line);
            assert(body.deep_view() =~= before.push(lv));
            assert(body.deep_view() =~= picker_lines(self.opts@, self.sel as int).subrange(0, i + 3));
            i = i + 1;
        }
        assert(picker_lines(self.opts@, self.sel as int).subrange(0, self.opts@.len() + 2int) =~= picker_lines(
            self.opts@,
            self.sel as int,
        ));
        body
    }

    /// Answers key `k`.
    pub fn on_key(&mut self, k: Key) -> (r: PickOutcome)
        requires
            old(self).sel < old(self).opts@.len(),
        ensures
            (final(self).sel as int, r) == pick_keyed(old(self).opts@, old(self).sel as int, old(self).current, k),
            final(self).opts == old(self).opts,
            final(self).current == old(self).current,
            final(self).sel < final(self).opts@.len(),
    {
        match k {
            Key::Up => {
                if self.sel > 0 {
                    self.sel = self.sel - 1;
                }
                PickOutcome::Continue
            },
            Key::Down => {
                let n = self.opts.len();
                if self.sel + 1 < n {
                    self.sel = self.sel + 1;
                }
                PickOutcome::Continue
            },
            Key::Enter => PickOutcome::Done(self.opts[self.sel]),
            Key::Esc => PickOutcome::Done(self.current),
            _ => PickOutcome::Continue,
        }
    }
}


// ------------------------------------------------------------------ laws

/// The screen opens with no role held by two machines.
pub proof fn lemma_select_starts_unique(sorted: Seq<CandView>)
    ensures
        roles_unique(roles_fixed(roles_preset(sorted))),
{
    lemma_fix_roles_unique(roles_preset(sorted));
}

/// Drawing and keys leave the machines as they are, and keep the cursor on
/// the list.
pub proof fn lemma_select_keys_keep_machines(v: SelectScreenView, k: Key)
    ensures
        select_prepared(v).cands == v.cands,
        select_prepared(v).ready(),
        v.ready() ==> select_keyed(v, k).0.cands == v.cands,
        v.ready() ==> select_keyed(v, k).0.ready(),
{
}

/// Choosing a role for a machine, or taking its role away, keeps the roles
/// unique.
pub proof fn lemma_picked_keeps_unique(c: Seq<CandView>, li: int, choice: Option<Role>)
    requires
        roles_unique(c),
        0 <= li < c.len(),
    ensures
        roles_unique(picked(c, li, choice)),
        picked(c, li, choice)[li].role == choice,
{
    match choice {
        Some(r) => lemma_assign_role_unique(c, li, r),
        None => {
            let d = picked(c, li, choice);
            assert forall|i: int, j: int|
                0 <= i < d.len() && 0 <= j < d.len() && i != j && (#[trigger] d[i]).role is Some implies d[i].role
                    != (#[trigger] d[j]).role by {
                assert(c[i].role is Some);
            }
        },
    }
}

/// The roles the picker offers besides "(remover)" are held by no other
/// machine.
pub proof fn lemma_picker_offers_free_roles(c: Seq<CandView>, li: int, k: int)
    requires
        0 <= k < role_choices_spec(c, li).len(),
        role_choices_spec(c, li)[k] is Some,
    ensures
        forall|i: int|
            0 <= i < c.len() && i != li ==> (#[trigger] c[i]).role != role_choices_spec(c, li)[k],
{
}

/// The role of a machine added by hand, when none was chosen, is a free one;
/// so is a role chosen with the arrows.
pub proof fn lemma_added_role_free(v: SelectScreenView, k: Key)
    ensures
        v.add_role is None ==> (adding(v).1 matches SelectOutcomeView::Probe(r) ==> !taken(v.cands, r)),
        v.focus == Sel::AddRole && (k == Key::Left || k == Key::Right) ==> (select_keyed(
            v,
            k,
        ).0.add_role matches Some(x) ==> !taken(v.cands, x)),
{
    lemma_free_roles_are_free(v.cands, v.add_role, false);
    lemma_free_roles_are_free(v.cands, v.add_role, true);
}

/// Adding a machine with a role that no machine has keeps the roles unique.
pub proof fn lemma_added_keeps_unique(
    c: Seq<CandView>,
    ip: Seq<char>,
    p: ProbedView,
    r: Role,
    after: Seq<CandView>,
)
    requires
        roles_unique(c),
        !taken(c, r),
        c.len() < usize::MAX,
        listing_sorted(c.push(as_added(probed_cand(ip, p), r)), after),
    ensures
        roles_unique(after),
{
    let d = c.push(as_added(probed_cand(ip, p), r));
    assert forall|i: int, j: int|
        0 <= i < d.len() && 0 <= j < d.len() && i != j && (#[trigger] d[i]).role is Some implies d[i].role
            != (#[trigger] d[j]).role by {
        if i < c.len() && j < c.len() {
            assert(d[i] == c[i] && d[j] == c[j]);
        } else if i < c.len() {
            assert(d[i] == c[i]);
            if d[j].role == d[i].role {
                assert(c[i].role == Some(r));
            }
        } else {
            assert(d[j] == c[j]);
            if d[j].role == d[i].role {
                assert(c[j].role == Some(r));
            }
        }
    }
    lemma_sort_keeps_roles(d, after);
}

} // verus!
