use leaf::app::App;
use leaf::toc::{normalize_toc, toc_display_level, toc_promotion, TocEntry};

fn entry(level: u8, line: usize) -> TocEntry {
    TocEntry { level, title: format!("h{level}-{line}"), line }
}

#[test]
fn promotion_hides_single_h1_above_deeper_headings() {
    let toc = vec![entry(1, 0), entry(2, 5), entry(3, 9), entry(2, 20)];
    assert_eq!(toc_promotion(&toc), (1, true));
}

#[test]
fn promotion_shifts_to_minimum_level() {
    let toc = vec![entry(2, 0), entry(3, 5), entry(2, 20)];
    assert_eq!(toc_promotion(&toc), (1, false));
    let toc = vec![entry(1, 0), entry(1, 10)];
    assert_eq!(toc_promotion(&toc), (0, false));
    assert_eq!(toc_promotion(&[]), (0, false));
}

#[test]
fn promotion_keeps_single_h2_root() {
    let toc = vec![entry(2, 0), entry(3, 4)];
    assert_eq!(toc_promotion(&toc), (1, false));
}

#[test]
fn display_level_examples() {
    assert_eq!(toc_display_level(2, 1, true), 1);
    assert_eq!(toc_display_level(1, 1, true), 0);
    assert_eq!(toc_display_level(3, 1, false), 2);
    assert_eq!(toc_display_level(1, 3, false), 0);
}

#[test]
fn normalize_keeps_three_levels() {
    let toc = vec![entry(2, 0), entry(3, 1), entry(4, 2), entry(5, 3), entry(6, 4), entry(4, 5)];
    let levels: Vec<u8> = normalize_toc(toc).iter().map(|e| e.level).collect();
    assert_eq!(levels, vec![2, 3, 4, 4]);
    assert!(normalize_toc(Vec::new()).is_empty());
}

fn app_with(total: usize, height: u16, toc: Vec<TocEntry>) -> App {
    App::new(total, height, toc, Some(20))
}

#[test]
fn scrolling_stays_within_document() {
    let mut app = app_with(100, 20, vec![]);
    assert_eq!(app.max_scroll(), 80);
    app.scroll_down(50);
    assert_eq!(app.scroll, 50);
    app.scroll_down(50);
    assert_eq!(app.scroll, 80);
    assert_eq!(app.visible_end(), 100);
    assert_eq!(app.scroll_percent(), 100);
    app.scroll_up(30);
    assert_eq!(app.scroll, 50);
    assert_eq!(app.scroll_percent(), 62);
    app.scroll_up(500);
    assert_eq!(app.scroll, 0);
    app.scroll_bottom();
    assert_eq!(app.scroll, 80);
    app.scroll_top();
    assert_eq!(app.scroll, 0);
    app.scroll_to(1000);
    assert_eq!(app.scroll, 80);
    app.scroll_to(7);
    assert_eq!(app.scroll, 7);
    assert_eq!(app.visible_end(), 27);
}

#[test]
fn short_document_is_fully_scrolled() {
    let app = app_with(10, 20, vec![]);
    assert_eq!(app.max_scroll(), 0);
    assert_eq!(app.scroll_percent(), 100);
    assert_eq!(app.visible_end(), 10);
}

#[test]
fn toggles_flip_flags() {
    let mut app = app_with(10, 5, vec![]);
    assert!(app.toc_visible);
    app.hovered_toc_idx = Some(3);
    app.toggle_toc();
    assert!(!app.toc_visible);
    assert_eq!(app.hovered_toc_idx, None);
    app.toggle_toc();
    assert!(app.toc_visible);
    let before = app.line_number_visible;
    app.toggle_line_numbers();
    assert_eq!(app.line_number_visible, !before);
    app.toggle_reverse_mode();
    assert!(app.reverse_mode);
    app.scroll_down(1);
    assert!(!app.reverse_mode);
}

fn sectioned_app() -> App {
    // A lone H1 (hidden) above two H2 sections with H3 children.
    let toc = vec![
        entry(1, 0),
        entry(2, 10),
        entry(3, 20),
        entry(3, 30),
        entry(2, 40),
        entry(3, 50),
    ];
    app_with(200, 20, toc)
}

#[test]
fn numkey_groups_follow_sections() {
    let app = sectioned_app();
    let v = app.visible_toc_entries();
    assert_eq!(v, vec![(1, 1), (2, 2), (3, 2), (4, 1), (5, 2)]);
    assert_eq!(app.toc_group_for_numkey(1), vec![1, 2, 3]);
    assert_eq!(app.toc_group_for_numkey(2), vec![4, 5]);
    assert!(app.toc_group_for_numkey(3).is_empty());
    assert!(app.toc_group_for_numkey(0).is_empty());
}

#[test]
fn numkey_cycles_forward_and_back() {
    let mut app = sectioned_app();
    app.cycle_numkey(1);
    assert_eq!(app.scroll, 10);
    app.cycle_numkey(1);
    assert_eq!(app.scroll, 20);
    app.cycle_numkey(1);
    assert_eq!(app.scroll, 30);
    app.cycle_numkey(1);
    assert_eq!(app.scroll, 10);
    app.toggle_reverse_mode();
    app.cycle_numkey(1);
    assert_eq!(app.scroll, 30);
    // Forward then back returns to the same heading.
    app.toggle_reverse_mode();
    app.cycle_numkey(1);
    assert_eq!(app.scroll, 10);
    app.toggle_reverse_mode();
    app.cycle_numkey(1);
    assert_eq!(app.scroll, 30);
    // Another key starts at its section's top heading, forward again.
    app.cycle_numkey(2);
    assert_eq!(app.scroll, 40);
    assert!(!app.reverse_mode);
    // A key with no section changes nothing.
    app.cycle_numkey(9);
    assert_eq!(app.scroll, 40);
}

#[test]
fn numkey_jump_is_capped_by_max_scroll() {
    let toc = vec![entry(2, 0), entry(2, 95)];
    let mut app = app_with(100, 20, toc);
    app.cycle_numkey(2);
    assert_eq!(app.scroll, 80);
}

#[test]
fn toc_display_line_scrolls_to_heading() {
    let mut app = sectioned_app();
    app.toc_display_entries = vec![1, 2, 4];
    app.scroll_to_toc_display_line(2);
    assert_eq!(app.scroll, 40);
    app.scroll_to_toc_display_line(9);
    assert_eq!(app.scroll, 40);
}
