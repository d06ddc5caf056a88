use leaf::history::{msg_history_capped, record_open_entries, remove_paths_entries, HistoryEntry};

fn entries(paths: &[&str]) -> Vec<HistoryEntry> {
    paths.iter().map(|p| HistoryEntry { path: p.to_string() }).collect()
}

fn paths(v: &[HistoryEntry]) -> Vec<String> {
    v.iter().map(|e| e.path.clone()).collect()
}

#[test]
fn opening_moves_path_to_front() {
    let r = record_open_entries(entries(&["/a.md", "/b.md", "/c.md"]), "/b.md".to_string(), 10);
    assert_eq!(paths(&r), vec!["/b.md", "/a.md", "/c.md"]);
}

#[test]
fn opening_a_new_path_prepends_it_and_caps_the_history() {
    let r = record_open_entries(entries(&["/a.md", "/b.md", "/c.md"]), "/d.md".to_string(), 3);
    assert_eq!(paths(&r), vec!["/d.md", "/a.md", "/b.md"]);
    let r = record_open_entries(entries(&["/a.md"]), "/a.md".to_string(), 0);
    assert!(r.is_empty());
    let r = record_open_entries(Vec::new(), "/x.md".to_string(), 1);
    assert_eq!(paths(&r), vec!["/x.md"]);
}

#[test]
fn duplicates_of_the_opened_path_all_go() {
    let r = record_open_entries(entries(&["/a.md", "/b.md", "/a.md"]), "/a.md".to_string(), 10);
    assert_eq!(paths(&r), vec!["/a.md", "/b.md"]);
}

#[test]
fn removal_keeps_order_of_the_rest() {
    let r = remove_paths_entries(entries(&["/a.md", "/b.md", "/c.md", "/b.md"]), &vec!["/b.md".to_string(), "/z.md".to_string()]);
    assert_eq!(paths(&r), vec!["/a.md", "/c.md"]);
    let r = remove_paths_entries(entries(&["/a.md"]), &Vec::new());
    assert_eq!(paths(&r), vec!["/a.md"]);
}

#[test]
fn capped_length_notice() {
    assert_eq!(msg_history_capped(1000, 5000), "Config file-history-length was capped at 1000 (was 5000)");
    assert_eq!(msg_history_capped(0, 0), "Config file-history-length was capped at 0 (was 0)");
    assert_eq!(msg_history_capped(7, -12), "Config file-history-length was capped at 7 (was -12)");
    assert_eq!(
        msg_history_capped(u64::MAX, i32::MIN),
        "Config file-history-length was capped at 18446744073709551615 (was -2147483648)"
    );
}
