use leaf::class_cards::{looks_like_class_relationship, push_card_text, push_prefixed_wrapped_text, render_vertical_class_diagram, truncate_display_width};
use leaf::keywords::{is_diagram_keyword, is_direction_keyword, is_structure_keyword};
use leaf::mermaid::{use_horizontal_class_direction, use_vertical_direction};
use leaf::mermaid_render::{fits_width, render, render_drawn, MermaidRender};
use leaf::mermaid_tokens::{colorize_line, is_keyword, try_match_arrow, TokenKind};
use leaf::wrap::wrap_display_text;

#[test]
fn vertical_direction_rewrites_first_flowchart_header() {
    assert_eq!(use_vertical_direction("flowchart LR\n  A-->B").as_deref(), Some("flowchart TD\n  A-->B"));
    assert_eq!(use_vertical_direction("%% c\n  graph RL;\nA-->B").as_deref(), Some("%% c\n  graph TD;\nA-->B"));
    assert_eq!(use_vertical_direction("flowchart TB\nA-->B"), None);
    assert_eq!(use_vertical_direction("flowchart\nA-->B"), None);
    assert_eq!(use_vertical_direction("sequenceDiagram\nA->>B: hi"), None);
}

#[test]
fn horizontal_class_direction_sets_lr() {
    assert_eq!(
        use_horizontal_class_direction("classDiagram\n  direction TB\n  class A").as_deref(),
        Some("classDiagram\n  direction LR\n  class A")
    );
    assert_eq!(
        use_horizontal_class_direction("classDiagram\n  direction BT;\n").as_deref(),
        Some("classDiagram\n  direction LR;")
    );
    assert_eq!(
        use_horizontal_class_direction("classDiagram\nclass A").as_deref(),
        Some("classDiagram\n    direction LR\nclass A")
    );
    assert_eq!(use_horizontal_class_direction("classDiagram\ndirection RL"), None);
    assert_eq!(use_horizontal_class_direction("flowchart LR"), None);
}

#[test]
fn wrap_joins_words_and_cuts_long_ones() {
    assert_eq!(wrap_display_text("hello world foo", 11), vec!["hello world", "foo"]);
    assert_eq!(wrap_display_text("abcdefghij", 4), vec!["abcd", "efgh", "ij"]);
    assert_eq!(wrap_display_text("", 5), vec![""]);
    assert!(wrap_display_text("   ", 5).is_empty());
    assert_eq!(wrap_display_text("a  b", 10), vec!["a b"]);
}

#[test]
fn card_rows_are_padded() {
    let mut out = String::new();
    push_card_text(&mut out, "Animal", 8, 10);
    assert_eq!(out, "│ Animal   │\n");
    let mut out = String::new();
    push_prefixed_wrapped_text(&mut out, "one two three", "• ", "  ", 9);
    assert_eq!(out, "• one two\n  three\n");
}

#[test]
fn relationship_lines_are_recognised() {
    assert!(looks_like_class_relationship("Animal <|-- Dog"));
    assert!(looks_like_class_relationship("A ..> B"));
    assert!(!looks_like_class_relationship("note for A"));
}

#[test]
fn truncation_keeps_a_fitting_prefix() {
    assert_eq!(truncate_display_width("Relationships", 12), "Relationship");
    assert_eq!(truncate_display_width("Relationships", 40), "Relationships");
}

#[test]
fn class_diagram_as_stacked_cards() {
    let src = "classDiagram\n    class Animal {\n        +name\n        +speak()\n    }\n    class Dog\n    Animal <|-- Dog\n";
    let expected = "┌──────────┐\n│ Animal   │\n├──────────┤\n│ +name    │\n│ +speak() │\n└──────────┘\n\n┌──────────┐\n│ Dog      │\n└──────────┘\n\nRelationships\n─────────────\n• Animal <|-- Dog";
    assert_eq!(render_vertical_class_diagram(src, 30).as_deref(), Some(expected));
    assert_eq!(render_vertical_class_diagram(src, 11), None);
    assert_eq!(render_vertical_class_diagram("classDiagram\nA <|-- B", 30), None);
}

#[test]
fn fits_width_checks_every_line() {
    assert!(fits_width("ab\nabc", 3));
    assert!(!fits_width("ab\nabcd", 3));
    assert!(!fits_width("", 0));
}

#[test]
fn render_draws_flowcharts_that_fit() {
    match render("flowchart TD\n  A-->B\n", 80) {
        MermaidRender::Diagram(text) => {
            assert!(!text.is_empty());
            assert!(fits_width(&text, 80));
        }
        _ => panic!("expected a drawing"),
    }
    match render("pie title Pets\n \"Dogs\" : 3\n", 80) {
        MermaidRender::PieChart(src) => assert!(src.starts_with("pie")),
        _ => panic!("expected a pie chart"),
    }
    assert!(matches!(render("   \n", 80), MermaidRender::Unrendered));
}

#[test]
fn keywords() {
    assert!(is_diagram_keyword("stateDiagram-v2"));
    assert!(is_direction_keyword("LR"));
    assert!(is_structure_keyword("subgraph"));
    assert!(is_keyword("end"));
    assert!(!is_keyword("node"));
    assert!(!is_keyword("Flowchart"));
}

#[test]
fn arrows_match_longest_form_first() {
    assert_eq!(try_match_arrow("-.->x"), Some(("-.->".to_string(), 4)));
    assert_eq!(try_match_arrow("-->B"), Some(("-->".to_string(), 3)));
    assert_eq!(try_match_arrow("--B"), Some(("--".to_string(), 2)));
    assert_eq!(try_match_arrow("=>"), None);
}

fn kinds(line: &str) -> Vec<(String, TokenKind)> {
    colorize_line(line).into_iter().map(|t| (t.text, t.kind)).collect()
}

#[test]
fn colorize_splits_keywords_arrows_and_labels() {
    assert_eq!(
        kinds("flowchart LR"),
        vec![("flowchart".into(), TokenKind::Keyword), (" ".into(), TokenKind::Plain), ("LR".into(), TokenKind::Keyword)]
    );
    assert_eq!(
        kinds("  x --> y"),
        vec![
            ("  ".into(), TokenKind::Plain),
            ("x".into(), TokenKind::Plain),
            (" ".into(), TokenKind::Plain),
            ("-->".into(), TokenKind::Arrow),
            (" ".into(), TokenKind::Plain),
            ("y".into(), TokenKind::Plain)
        ]
    );
    assert_eq!(
        kinds("A-->|yes| B"),
        vec![
            ("A--".into(), TokenKind::Plain),
            (">".into(), TokenKind::Plain),
            ("|yes|".into(), TokenKind::Label),
            (" ".into(), TokenKind::Plain),
            ("B".into(), TokenKind::Plain)
        ]
    );
    assert_eq!(kinds("a|b"), vec![("a".into(), TokenKind::Plain), ("|".into(), TokenKind::Plain), ("b".into(), TokenKind::Plain)]);
    assert_eq!(kinds(""), vec![("".into(), TokenKind::Plain)]);
}

#[test]
fn drawings_are_chosen_by_fit() {
    let wide = "0123456789012345".to_string();
    let narrow = "abc\nde".to_string();
    match render_drawn("flowchart LR\nA-->B", 10, Some(narrow.clone()), None, None) {
        MermaidRender::Diagram(text) => assert_eq!(text, narrow),
        _ => panic!("expected the first drawing"),
    }
    match render_drawn("flowchart LR\nA-->B", 10, Some(wide.clone()), None, Some(narrow.clone())) {
        MermaidRender::Diagram(text) => assert_eq!(text, narrow),
        _ => panic!("expected the top-down drawing"),
    }
    assert!(matches!(render_drawn("flowchart LR\nA-->B", 10, Some(wide.clone()), None, Some(wide.clone())), MermaidRender::Unrendered));
    assert!(matches!(render_drawn("flowchart TD\nA-->B", 10, Some(wide.clone()), None, Some(narrow.clone())), MermaidRender::Unrendered));
    assert!(matches!(render_drawn("classDiagram\nclass A", 30, None, Some(narrow.clone()), None), MermaidRender::Unrendered));
    match render_drawn("classDiagram\nclass A", 30, Some("x".repeat(40)), Some(narrow.clone()), None) {
        MermaidRender::Diagram(text) => assert_eq!(text, narrow),
        _ => panic!("expected the left-to-right drawing"),
    }
    match render_drawn("classDiagram\n    class Dog\n", 30, Some("x".repeat(40)), Some(wide.clone() + &wide), None) {
        MermaidRender::Diagram(text) => {
            assert_eq!(Some(text), render_vertical_class_diagram("classDiagram\n    class Dog", 30))
        }
        _ => panic!("expected stacked cards"),
    }
    match render_drawn("  pie title P\n", 10, None, None, None) {
        MermaidRender::PieChart(src) => assert_eq!(src, "pie title P"),
        _ => panic!("expected a pie chart"),
    }
    assert!(matches!(render_drawn("  ", 10, Some(narrow), None, None), MermaidRender::Unrendered));
}
