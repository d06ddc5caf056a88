use leaf::images::{is_remote_url, resolve_image_path};
use leaf::paths::{path_file_name, path_is_absolute, path_join, row_parent};
use leaf::popup::{history_entry_layout, picker_window, truncate_middle, HistoryEntryLayout};

fn layout(path: &str, parent: &str, name: &str, max: usize) -> (String, Option<String>) {
    match history_entry_layout(path, parent, name, max) {
        HistoryEntryLayout::Whole(p) => (p, None),
        HistoryEntryLayout::Split { parent, filename } => (parent, Some(filename)),
    }
}

#[test]
fn middle_truncation() {
    assert_eq!(truncate_middle("abcdefghij", 7), "ab...ij");
    assert_eq!(truncate_middle("abcdefghij", 8), "ab...hij");
    assert_eq!(truncate_middle("abcdefghij", 10), "abcdefghij");
    assert_eq!(truncate_middle("abcdefghij", 3), "abcdefghij");
    assert_eq!(truncate_middle("日本語のファイル", 9), "日...ル");
}

#[test]
fn history_rows_split_name_from_directory() {
    assert_eq!(layout("/docs/a.md", "/docs/", "a.md", 20), ("/docs/".to_string(), Some("a.md".to_string())));
    assert_eq!(
        layout("/very/long/directory/notes.md", "/very/long/directory/", "notes.md", 18),
        ("/ve...ory/".to_string(), Some("notes.md".to_string()))
    );
    assert_eq!(layout("/d/averylongname.md", "/d/", "averylongname.md", 18), ("/d/aver...gname.md".to_string(), None));
    assert_eq!(layout("/", "", "", 10), ("/".to_string(), None));
}

#[test]
fn picker_window_keeps_selection_visible() {
    assert_eq!(picker_window(15, 3, 2, 10, 12, 30), (3, 13));
    assert_eq!(picker_window(15, 3, 2, 10, 4, 30), (0, 10));
    assert_eq!(picker_window(15, 3, 2, 10, 4, 6), (0, 6));
    assert_eq!(picker_window(4, 3, 2, 10, 4, 6), (0, 0));
    assert_eq!(picker_window(10, 3, 3, 10, 5, 9), (2, 6));
}

#[test]
fn file_names_and_joins() {
    assert_eq!(path_file_name("/a/b/c.md", false).as_deref(), Some("c.md"));
    assert_eq!(path_file_name("c.md", false).as_deref(), Some("c.md"));
    assert_eq!(path_file_name("/a/b/", false).as_deref(), Some("b"));
    assert_eq!(path_file_name("/", false), None);
    assert_eq!(path_file_name("/a/..", false), None);
    assert!(path_is_absolute("/x", false));
    assert!(!path_is_absolute("x/y", false));
    assert_eq!(path_join("/docs", "img/a.png", false), "/docs/img/a.png");
    assert_eq!(path_join("/docs/", "a.png", false), "/docs/a.png");
    assert_eq!(path_join("/docs", "/abs.png", false), "/abs.png");
    assert_eq!(path_join("", "a.png", false), "a.png");
}

#[test]
fn image_destinations() {
    assert!(is_remote_url("https://example.com/a.png"));
    assert!(is_remote_url("http://x"));
    assert!(is_remote_url("data:image/png;base64,AAAA"));
    assert!(!is_remote_url("img/a.png"));
    assert!(!is_remote_url("ftp://x"));
    assert_eq!(resolve_image_path("img/a.png", Some("/docs"), false), "/docs/img/a.png");
    assert_eq!(resolve_image_path("/abs/a.png", Some("/docs"), false), "/abs/a.png");
    assert_eq!(resolve_image_path("a.png", None, false), "a.png");
}

#[test]
fn windows_paths() {
    assert!(path_is_absolute("C:\\x.png", true));
    assert!(path_is_absolute("c:/x.png", true));
    assert!(path_is_absolute("\\\\server\\share\\x.png", true));
    assert!(!path_is_absolute("C:x.png", true));
    assert!(!path_is_absolute("\\x.png", true));
    assert!(!path_is_absolute("C:\\x.png", false));
    assert_eq!(path_join("C:\\docs", "img\\a.png", true), "C:\\docs\\img\\a.png");
    assert_eq!(path_join("C:\\docs\\", "a.png", true), "C:\\docs\\a.png");
    assert_eq!(path_join("C:\\docs", "D:\\x.png", true), "D:\\x.png");
    assert_eq!(path_join("C:\\docs", "D:x.png", true), "D:x.png");
    assert_eq!(path_join("C:\\docs", "\\x.png", true), "C:\\x.png");
    assert_eq!(path_join("C:", "x.png", true), "C:x.png");
    assert_eq!(path_join("/docs", "a.png", true), "/docs\\a.png");
    assert_eq!(resolve_image_path("C:\\pics\\x.png", Some("C:\\docs"), true), "C:\\pics\\x.png");
    assert_eq!(resolve_image_path("pics\\x.png", Some("C:\\docs"), true), "C:\\docs\\pics\\x.png");
    assert_eq!(path_file_name("C:\\docs\\a.md", true).as_deref(), Some("a.md"));
    assert_eq!(path_file_name("C:a.md", true).as_deref(), Some("a.md"));
    assert_eq!(path_file_name("C:\\", true), None);
    assert_eq!(path_file_name("\\\\server\\share", true), None);
    assert_eq!(path_file_name("\\\\server\\share\\n.md", true).as_deref(), Some("n.md"));
    assert_eq!(path_file_name("C:\\docs\\a.md", false).as_deref(), Some("C:\\docs\\a.md"));
}

#[test]
fn history_row_parents() {
    assert_eq!(row_parent("/docs/a.md", false), "/docs/");
    assert_eq!(row_parent("/a.md", false), "/");
    assert_eq!(row_parent("a.md", false), "");
    assert_eq!(row_parent("docs//./a.md", false), "docs/");
    assert_eq!(row_parent("/docs/a.md/", false), "/docs/");
    assert_eq!(row_parent("/", false), "");
    assert_eq!(row_parent("/docs/..", false), "");
    assert_eq!(row_parent("C:\\docs\\a.md", true), "C:\\docs\\");
    assert_eq!(row_parent("C:\\a.md", true), "C:\\");
    assert_eq!(row_parent("C:a.md", true), "C:\\");
    assert_eq!(row_parent("C:/docs/a.md", true), "C:/docs\\");
    assert_eq!(row_parent("\\\\srv\\share\\n.md", true), "\\\\srv\\share\\");
}
