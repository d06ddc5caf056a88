use leaf::app::App;
use leaf::history::{HistoryEntry, MSG_FILE_NO_LONGER_AVAILABLE, MSG_HISTORY_DISABLED, MSG_LOADING_FILE_HISTORY};
use leaf::popup_lines::{
    editor_popup_lines, file_popup_lines, history_loading_popup_lines, picker_loading_popup_lines, popup_height,
    EditorKind, PopupLine, FILE_POPUP_TITLE, HISTORY_POPUP_TITLE, MSG_INDEXING, MSG_LOAD_FAILED, MSG_NO_EDITORS,
    MSG_NO_MARKDOWN_FOUND, MSG_NO_MATCH,
};

type Line = PopupLine<String>;

fn s(text: &str) -> String {
    text.to_string()
}

fn entry(row: usize, entry: usize, selected: bool) -> Line {
    PopupLine::Entry { row, entry, selected }
}

fn history_app(len: Option<i32>, n: usize) -> App {
    let mut app = App::new(10, 10, Vec::new(), len);
    let entries = (0..n).map(|i| HistoryEntry { path: format!("/notes/{i}.md") }).collect();
    app.install_loaded_history_picker(entries);
    app
}

#[test]
fn history_popup_lists_rows_and_pads() {
    let app = history_app(Some(10), 3);
    assert_eq!(
        app.history_popup_lines(10),
        vec![
            PopupLine::Title(s(HISTORY_POPUP_TITLE)),
            PopupLine::QueryPlaceholder,
            PopupLine::Blank,
            entry(0, 0, true),
            entry(1, 1, false),
            entry(2, 2, false),
            PopupLine::Blank,
            PopupLine::Blank,
            PopupLine::Blank,
            PopupLine::Footer,
        ]
    );
}

#[test]
fn history_popup_scrolls_to_the_selection() {
    let mut app = history_app(Some(20), 12);
    for _ in 0..6 {
        app.move_history_picker_down();
    }
    let lines = app.history_popup_lines(9);
    assert_eq!(lines.len(), 9);
    assert_eq!(&lines[3..7], &[entry(3, 3, false), entry(4, 4, false), entry(5, 5, false), entry(6, 6, true)]);
}

#[test]
fn history_popup_shows_messages() {
    let app = history_app(None, 2);
    assert_eq!(
        app.history_popup_lines(6),
        vec![
            PopupLine::Title(s(HISTORY_POPUP_TITLE)),
            PopupLine::QueryPlaceholder,
            PopupLine::Blank,
            PopupLine::Note(s(MSG_HISTORY_DISABLED)),
            PopupLine::Blank,
            PopupLine::Footer,
        ]
    );
    let mut app = history_app(Some(10), 1);
    app.complete_history_picker_activation(s("/notes/0.md"), false);
    let lines = app.history_popup_lines(8);
    assert_eq!(lines.len(), 8);
    assert_eq!(lines[3], entry(0, 0, true));
    assert_eq!(&lines[5..], &[PopupLine::Blank, PopupLine::Warning(s(MSG_FILE_NO_LONGER_AVAILABLE)), PopupLine::Footer]);
}

#[test]
fn history_loading_popup() {
    assert_eq!(
        history_loading_popup_lines(7),
        vec![
            PopupLine::Title(s(HISTORY_POPUP_TITLE)),
            PopupLine::QueryPlaceholder,
            PopupLine::Blank,
            PopupLine::Note(s(MSG_LOADING_FILE_HISTORY)),
            PopupLine::Blank,
            PopupLine::Blank,
            PopupLine::Footer,
        ]
    );
    assert_eq!(history_loading_popup_lines(0).len(), 6);
}

#[test]
fn file_popup_browsing() {
    assert_eq!(
        file_popup_lines(false, "/docs", "", true, &[0, 2], 1, None, 9),
        vec![
            PopupLine::Title(s(FILE_POPUP_TITLE)),
            PopupLine::Dir(s("/docs")),
            PopupLine::Blank,
            entry(0, 0, false),
            entry(1, 2, true),
            PopupLine::Blank,
            PopupLine::Blank,
            PopupLine::Blank,
            PopupLine::Footer,
        ]
    );
}

#[test]
fn file_popup_fuzzy_messages() {
    let lines = file_popup_lines(true, "/docs", "ab", true, &[], 0, Some("Showing the first 500 files"), 8);
    assert_eq!(
        lines,
        vec![
            PopupLine::Title(s(FILE_POPUP_TITLE)),
            PopupLine::Dir(s("/docs")),
            PopupLine::Query(s("ab")),
            PopupLine::Blank,
            PopupLine::Note(s(MSG_NO_MATCH)),
            PopupLine::Blank,
            PopupLine::Warning(s("Showing the first 500 files")),
            PopupLine::Footer,
        ]
    );
    let lines = file_popup_lines(true, "/docs", "", false, &[], 0, None, 0);
    assert_eq!(lines[2], PopupLine::QueryPlaceholder);
    assert_eq!(lines[4], PopupLine::Note(s(MSG_NO_MARKDOWN_FOUND)));
}

#[test]
fn file_popup_caps_fuzzy_rows() {
    let filtered: Vec<usize> = (0..40).collect();
    let lines = file_popup_lines(true, "/d", "", true, &filtered, 30, None, 40);
    let rows: Vec<&Line> = lines.iter().filter(|l| matches!(l, PopupLine::Entry { .. })).collect();
    assert_eq!(rows.len(), 12);
    assert_eq!(rows[0], &entry(19, 19, false));
    assert_eq!(rows[11], &entry(30, 30, true));
    assert_eq!(lines.len(), 40);
}

#[test]
fn picker_loading_popup() {
    assert_eq!(
        picker_loading_popup_lines(true, None, "", false, None, 8),
        vec![
            PopupLine::Title(s(FILE_POPUP_TITLE)),
            PopupLine::Dir(s(".")),
            PopupLine::QueryPlaceholder,
            PopupLine::Blank,
            PopupLine::Note(s(MSG_INDEXING)),
            PopupLine::Blank,
            PopupLine::Blank,
            PopupLine::Footer,
        ]
    );
    let failed = picker_loading_popup_lines(false, Some("/x"), "q", true, None, 0);
    assert_eq!(failed[1], PopupLine::Dir(s("/x")));
    assert_eq!(failed[3], PopupLine::Note(s(MSG_LOAD_FAILED)));
    let failed = picker_loading_popup_lines(false, Some("/x"), "", true, Some("permission denied"), 0);
    assert_eq!(failed[3], PopupLine::Note(s("permission denied")));
}

#[test]
fn editor_popup_groups_terminal_then_gui() {
    let kinds = vec![EditorKind::Gui, EditorKind::Terminal, EditorKind::Gui];
    let current = vec![false, true, false];
    assert_eq!(
        editor_popup_lines(&kinds, &current, 1),
        vec![
            PopupLine::Title(s("Choose an editor")),
            PopupLine::Blank,
            PopupLine::Section(s("Terminal")),
            PopupLine::Choice { row: 0, entry: 1, selected: false, current: true },
            PopupLine::Blank,
            PopupLine::Section(s("GUI")),
            PopupLine::Choice { row: 1, entry: 0, selected: true, current: false },
            PopupLine::Choice { row: 2, entry: 2, selected: false, current: false },
            PopupLine::Blank,
            PopupLine::Footer,
        ]
    );
    let only_gui = editor_popup_lines(&vec![EditorKind::Gui], &vec![false], 0);
    assert_eq!(only_gui[2], PopupLine::Section(s("GUI")));
    assert_eq!(only_gui.len(), 6);
    assert_eq!(
        editor_popup_lines(&Vec::new(), &Vec::new(), 0),
        vec![
            PopupLine::Title(s("Choose an editor")),
            PopupLine::Blank,
            PopupLine::Error(s(MSG_NO_EDITORS)),
            PopupLine::Blank,
            PopupLine::Footer,
        ]
    );
}

#[test]
fn popup_height_is_capped() {
    assert_eq!(popup_height(10, 18), 12);
    assert_eq!(popup_height(16, 18), 18);
    assert_eq!(popup_height(30, 18), 18);
}
