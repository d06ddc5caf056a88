use leaf::class_cards::render_vertical_class_diagram;
use leaf::mermaid_render::{drawing_sources, render, MermaidRender};
use leaf::wrap::wrap_display_text;

fn line_lengths(s: &str) -> Vec<usize> {
    s.lines().map(|l| l.chars().count()).collect()
}

#[test]
fn sources_of_a_class_diagram() {
    let d = drawing_sources("  classDiagram\nclass A  \n");
    assert_eq!(d.first.as_deref(), Some("classDiagram\nclass A"));
    assert_eq!(d.horizontal.as_deref(), Some("classDiagram\n    direction LR\nclass A"));
    assert_eq!(d.vertical, None);
}

#[test]
fn sources_of_a_flowchart() {
    let d = drawing_sources("\nflowchart LR\n  A-->B\n");
    assert_eq!(d.first.as_deref(), Some("flowchart LR\n  A-->B"));
    assert_eq!(d.horizontal, None);
    assert_eq!(d.vertical.as_deref(), Some("flowchart TD\n  A-->B"));
}

#[test]
fn sources_of_a_flowchart_already_top_down() {
    let d = drawing_sources("flowchart TD\nA-->B");
    assert_eq!(d.first.as_deref(), Some("flowchart TD\nA-->B"));
    assert_eq!(d.vertical, None);
}

#[test]
fn no_sources_for_empty_or_pie_blocks() {
    let d = drawing_sources("   \n ");
    assert_eq!((d.first, d.horizontal, d.vertical), (None, None, None));
    let d = drawing_sources("pie title Pets\n\"Dogs\" : 3");
    assert_eq!((d.first, d.horizontal, d.vertical), (None, None, None));
}

#[test]
fn wrapped_ascii_with_control_characters_fits() {
    assert_eq!(wrap_display_text("ab\u{7}cd ef", 3), vec!["ab\u{7}", "cd", "ef"]);
    assert_eq!(wrap_display_text("a\tb  c", 3), vec!["a b", "c"]);
    for line in wrap_display_text("x\u{1b}yz\u{7f}w long-word-here q", 4) {
        assert!(line.chars().count() <= 4);
        assert!(!line.is_empty());
    }
}

#[test]
fn stacked_cards_keep_within_the_width() {
    let src = "classDiagram\n  class VeryLongClassNameThatOverflows {\n    +aMemberWithAFairlyLongName()\n    +x\n  }\n  class B\n  VeryLongClassNameThatOverflows <|-- B with a long description of the link\n";
    let out = render_vertical_class_diagram(src, 16).unwrap();
    for n in line_lengths(&out) {
        assert!(n <= 16, "{out}");
    }
    let cards: Vec<&str> = out.split("\n\nRelationships").next().unwrap().lines().collect();
    for line in cards {
        assert!(line.is_empty() || line.chars().count() == 16, "{line}");
    }
}

#[test]
fn stacked_cards_share_the_narrow_width() {
    let out = render_vertical_class_diagram("classDiagram\nclass A\nclass Bb {\n+c\n}", 40).unwrap();
    assert_eq!(out, "┌──────────┐\n│ A        │\n└──────────┘\n\n┌──────────┐\n│ Bb       │\n├──────────┤\n│ +c       │\n└──────────┘");
}

#[test]
fn render_gives_nothing_for_empty_source_or_zero_width() {
    assert!(matches!(render("  \n", 40), MermaidRender::Unrendered));
    assert!(matches!(render("flowchart LR\nA-->B", 0), MermaidRender::Unrendered));
}
