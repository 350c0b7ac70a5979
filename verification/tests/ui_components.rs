use zitree::ui::components::{keycap, status_line, BoxPanel, PanelLayout};
use zitree::ui::style::{style, visible_width, BOLD, CYAN, GREEN};

#[test]
fn line_padding_uses_visible_width() {
    let panel = BoxPanel::new(PanelLayout::new(24));
    let line = panel.format_line(&style("branch", BOLD, Some(CYAN)));

    assert!(line.starts_with("│ "));
    assert!(line.ends_with(" │"));
    assert_eq!(visible_width(&line), panel.width() + 4);
}

#[test]
fn section_header_fills_remaining_width() {
    let panel = BoxPanel::new(PanelLayout::new(40));
    let line = panel.format_section_header("Configuration");

    assert!(visible_width(&line) <= panel.width());
    assert!(line.contains('─'));
}

#[test]
fn panel_width_is_clamped_between_limits() {
    assert_eq!(BoxPanel::new(PanelLayout::new(10)).width(), 16);
    assert_eq!(BoxPanel::new(PanelLayout::new(500)).width(), 96);
}

#[test]
fn borders_span_the_panel() {
    let panel = BoxPanel::new(PanelLayout::new(30));
    let top = panel.print_top();
    let bottom = panel.print_bottom();

    assert!(top.ends_with('┐'));
    assert!(bottom.ends_with('┘'));
    assert_eq!(visible_width(&top), visible_width(&bottom));
}

#[test]
fn keycap_and_status_line_are_styled() {
    assert_eq!(visible_width(&keycap("Enter")), "[Enter]".len());
    assert_eq!(visible_width(&status_line("✓", GREEN, "done")), 6);
}

#[test]
fn printed_lines_match_the_border_width() {
    let panel = BoxPanel::new(PanelLayout::new(30));
    let line = panel.print_line("hello");
    assert_eq!(line, panel.format_line("hello"));
    assert_eq!(visible_width(&line), visible_width(&panel.print_top()));
    assert_eq!(visible_width(&panel.print_key_value("Repo", "zitree")), visible_width(&line));
}
