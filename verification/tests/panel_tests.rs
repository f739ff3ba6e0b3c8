use bdd::panel::{
    boxed_button, boxed_input, button_box_w, buttons_rows, center, clip, fg, frame, pad,
    panel_bottom, panel_line, panel_top, visible_len, Screen, FG_CYAN, FG_DIM, FG_NORM, PH, PW, SR,
};

#[test]
fn visible_length_skips_escape_sequences() {
    assert_eq!(visible_len("\x1b[1mab\x1b[0m"), 2);
    assert_eq!(visible_len("abc"), 3);
    assert_eq!(visible_len(""), 0);
    assert_eq!(visible_len("ção"), 3);
    assert_eq!(visible_len("a\x1b[1"), 1);
}

#[test]
fn clip_keeps_escape_sequences() {
    assert_eq!(clip("\x1b[1mabcdef\x1b[0m", 3), "\x1b[1mabc\x1b[0m");
    assert_eq!(clip("ab", 5), "ab");
    assert_eq!(clip("abc", 0), "");
}

#[test]
fn pad_and_center() {
    assert_eq!(pad("ab", 4), "ab  ");
    assert_eq!(pad("abcdef", 3), "abc");
    assert_eq!(pad("ação", 5), "ação ");
    assert_eq!(center("ab", 6), "  ab  ");
    assert_eq!(center("ab", 5), " ab  ");
    assert_eq!(center("abcdef", 4), "abcd");
}

#[test]
fn colour_then_reset_foreground() {
    assert_eq!(fg(FG_DIM, "x"), "\x1b[90mx\x1b[22;39m");
    assert_eq!(SR, "\x1b[22;39m");
}

#[test]
fn panel_lines_have_a_fixed_width() {
    assert_eq!(PW, 58);
    assert_eq!(visible_len(&panel_line("hello")), PW + 4);
    assert_eq!(visible_len(&panel_line("")), PW + 4);
    let long = "x".repeat(100);
    assert_eq!(visible_len(&panel_line(&long)), PW + 4);
    assert_eq!(visible_len(&panel_line(&fg(FG_CYAN, "colour"))), PW + 4);
    assert_eq!(visible_len(&panel_top("Credenciais")), PW + 4);
    assert_eq!(visible_len(&panel_bottom()), PW + 4);
}

#[test]
fn frame_has_a_fixed_height() {
    let body: Vec<String> = (0..20).map(|i| format!("line {}", i)).collect();
    let f = frame("Selecione as VMs", &body);
    assert_eq!(f.len(), PH + 2);
    for l in &f {
        assert_eq!(visible_len(l), PW + 4);
    }
    let g = frame("T", &Vec::new());
    assert_eq!(g.len(), PH + 2);
    assert!(g[1].contains("\u{2502} "));
    assert!(f[1].contains("line 0"));
    assert!(!f[PH].contains("line 14"));
}

#[test]
fn buttons_and_boxes() {
    let b = boxed_button("Esc", false);
    assert_eq!(b[0], format!("{}\u{250c}\u{2500}\u{2500}\u{2500}\u{2500}\u{2500}\u{2510}{}", FG_NORM, SR));
    assert_eq!(b[1], format!("{}\u{2502}{}{} Esc {}{}\u{2502}{}", FG_NORM, SR, FG_NORM, SR, FG_NORM, SR));
    assert_eq!(visible_len(&b[2]), button_box_w("Esc") - 2 + 2);
    assert_eq!(button_box_w("Enter"), 9);
    let rows = buttons_rows(true, false);
    for r in &rows {
        assert_eq!(visible_len(r), 19 + 9 + 3 + 7);
    }
    assert!(rows[1].starts_with(&" ".repeat(19)));
    assert!(rows[1].contains(" Enter "));
    let ib = boxed_input("IP", "1.2", true, 15);
    assert_eq!(visible_len(&ib[0]), 17);
    assert_eq!(visible_len(&ib[1]), 17);
    assert!(ib[0].contains("\u{2500} IP "));
    assert!(ib[1].contains("1.2            "));
}

#[test]
fn screen_remembers_the_last_drawing() {
    let mut s = Screen::new();
    assert_eq!(s.prev, 0);
    s.drawn(16);
    assert_eq!(s.prev, 15);
    s.drawn(0);
    assert_eq!(s.prev, 0);
    s.drawn(3);
    s.cleared();
    assert_eq!(s.prev, 0);
}
