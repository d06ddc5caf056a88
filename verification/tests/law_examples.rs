use leaf::app::App;
use leaf::completions::{content_has_line, remove_line_content, source_line_addition};
use leaf::history::{record_open_entries, HistoryEntry};
use leaf::picker_width::{parse_picker_width_spec, PickerWidthSpec};
use leaf::popup_lines::PopupLine;
use leaf::history_picker::FuzzyMatch;
use leaf::mermaid_tokens::colorize_line;
use leaf::popup::truncate_middle;
use leaf::toc::TocEntry;
use leaf::wrap::wrap_display_text;

#[test]
fn installing_twice_adds_the_line_once() {
    for content in ["", "alias ll='ls -l'", "alias ll='ls -l'\n", "x\r"] {
        let line = "source /home/u/.local/share/leaf/completions/leaf.bash";
        let added = source_line_addition(content, line).unwrap();
        let after = format!("{content}{added}");
        assert!(content_has_line(&after, line));
        assert_eq!(source_line_addition(&after, line), None);
    }
}

#[test]
fn removed_line_is_gone() {
    for content in ["source /x\n", "a\n  source /x\nb", "source /x\r\nsource /x\n\n", "a\nsource /x"] {
        let kept = remove_line_content(content, "source /x").unwrap();
        assert!(!content_has_line(&kept, "source /x"));
    }
}

#[test]
fn picker_width_ignores_case_and_padding() {
    for (a, b) in [("78CELLS", "78cells"), (" 50% ", "50%"), ("\t1Cell\n", "1cell"), ("junk", " JUNK ")] {
        assert_eq!(parse_picker_width_spec(a), parse_picker_width_spec(b));
    }
}

#[test]
fn floor_warning_only_when_the_floor_starts_to_apply() {
    let mut app = App::new(1, 10, Vec::new(), None);
    app.set_file_picker_width(PickerWidthSpec::Cells(30));
    app.refresh_picker_width_floor(100);
    app.clear_config_flash();
    app.refresh_picker_width_floor(120);
    assert_eq!(app.config_flash(), None);
}

#[test]
fn history_popup_fills_area_and_shows_selection() {
    let mut app = App::new(1, 10, Vec::new(), Some(50));
    let entries = (0..30).map(|i| HistoryEntry { path: format!("/d/{i}.md") }).collect();
    app.install_loaded_history_picker(entries);
    for _ in 0..17 {
        app.move_history_picker_down();
    }
    for height in [6usize, 9, 15, 40] {
        let lines = app.history_popup_lines(height);
        assert!(lines.len() >= height);
        assert!(lines.contains(&PopupLine::Entry { row: 17, entry: 17, selected: true }));
    }
}

#[test]
fn reopening_keeps_one_entry_per_path() {
    let mut entries: Vec<HistoryEntry> = Vec::new();
    for path in ["/a.md", "/b.md", "/a.md", "/c.md", "/b.md"] {
        entries = record_open_entries(entries, path.to_string(), 10);
    }
    let paths: Vec<&str> = entries.iter().map(|e| e.path.as_str()).collect();
    assert_eq!(paths, vec!["/b.md", "/c.md", "/a.md"]);
}

#[test]
fn removing_right_after_adding_restores_the_file() {
    for content in ["", "alias a=b\n", "x\n\ny\n", "\n\n"] {
        let line = "source /h/leaf.bash";
        let added = format!("{content}{}", source_line_addition(content, line).unwrap());
        assert_eq!(remove_line_content(&added, line).as_deref(), Some(content));
    }
}

#[test]
fn coloured_pieces_spell_the_line() {
    for line in ["flowchart LR", "  A-->|yes| B", "a|b", "", "x ==> y -.-> z|"] {
        let joined: String = colorize_line(line).into_iter().map(|t| t.text).collect();
        assert_eq!(joined, line);
    }
}

#[test]
fn number_key_presses_walk_and_wrap() {
    let toc = vec![
        TocEntry { level: 1, title: "a".to_string(), line: 0 },
        TocEntry { level: 2, title: "b".to_string(), line: 10 },
        TocEntry { level: 2, title: "c".to_string(), line: 20 },
        TocEntry { level: 1, title: "d".to_string(), line: 30 },
    ];
    let mut app = App::new(100, 10, toc, None);
    for k in 1..=7usize {
        app.cycle_numkey(1);
        let position = app.numkey_cycle.unwrap().position;
        assert_eq!(position, (k - 1) % 3);
        assert_eq!(app.scroll, [0, 10, 20][position]);
    }
}

fn prefix_matcher(name: &str, query: &str) -> Option<FuzzyMatch> {
    if name.starts_with(query) {
        Some(FuzzyMatch { score: name.len() as u64, positions: (0..query.chars().count()).collect() })
    } else {
        None
    }
}

#[test]
fn deleting_a_typed_character_gives_back_the_rows() {
    let mut app = App::new(1, 10, Vec::new(), Some(10));
    let entries = vec![HistoryEntry { path: "/d/red.md".to_string() }, HistoryEntry { path: "/d/road.md".to_string() }, HistoryEntry { path: "/d/tea.md".to_string() }];
    app.install_loaded_history_picker(entries);
    app.push_history_picker_query('r', &prefix_matcher);
    let rows = app.history_picker_filtered_indices().to_vec();
    let positions = app.history_picker.match_positions.clone();
    app.push_history_picker_query('e', &prefix_matcher);
    assert_ne!(app.history_picker_filtered_indices(), rows.as_slice());
    app.pop_history_picker_query(&prefix_matcher);
    assert_eq!(app.history_picker_query(), "r");
    assert_eq!(app.history_picker_filtered_indices(), rows.as_slice());
    assert_eq!(app.history_picker.match_positions, positions);
}

#[test]
fn ascii_text_fits_its_width() {
    for width in 1..12usize {
        for text in ["hello world foo", "abcdefghijklmnop qr", "a  b   c", "x"] {
            for line in wrap_display_text(text, width) {
                assert!(line.len() <= width);
            }
        }
        let cut = truncate_middle("/very/long/directory/notes.md", width);
        assert!(cut.len() <= width || (width <= 3 && cut == "/very/long/directory/notes.md"));
    }
}
