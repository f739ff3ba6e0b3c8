use bdd::ui::{paint, BOLD, GREEN, RED, RESET};

#[test]
fn paint_wraps_in_colour_and_reset() {
    assert_eq!(paint(GREEN, "ok"), "\x1b[32mok\x1b[0m");
    assert_eq!(paint(RED, ""), "\x1b[31m\x1b[0m");
    assert_eq!(paint(BOLD, "x"), format!("{}x{}", BOLD, RESET));
}
