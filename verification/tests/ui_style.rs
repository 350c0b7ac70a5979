use zitree::ui::style::{centered_styled, style, visible_width, BOLD, CYAN, WHITE};

#[test]
fn visible_width_ignores_ansi_escape_sequences() {
    let styled = style("zitree", BOLD, Some(WHITE));

    assert_eq!(visible_width(&styled), 6);
}

#[test]
fn centered_styled_accounts_for_visible_width() {
    let centered = centered_styled(&style("hi", BOLD, Some(CYAN)), 6);

    assert_eq!(visible_width(&centered), 4);
    assert!(centered.starts_with("  "));
}

#[test]
fn style_without_color_wraps_in_modifier_and_reset() {
    assert_eq!(style("x", BOLD, None), "\x1b[1mx\x1b[0m".to_string());
    assert_eq!(visible_width("plain"), 5);
}
