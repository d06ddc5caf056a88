use leaf::app::App;
use leaf::history::{HistoryEntry, MSG_FILE_NO_LONGER_AVAILABLE, MSG_HISTORY_DISABLED, MSG_NO_FILE_HISTORY};
use leaf::history_picker::FuzzyMatch;

fn entries(paths: &[&str]) -> Vec<HistoryEntry> {
    paths.iter().map(|p| HistoryEntry { path: p.to_string() }).collect()
}

/// Accepts a file name that contains the query; the earlier the match, the
/// better the score.
fn substring_matcher(name: &str, query: &str) -> Option<FuzzyMatch> {
    let chars: Vec<char> = name.chars().collect();
    let q: Vec<char> = query.chars().collect();
    if q.len() > chars.len() {
        return None;
    }
    for start in 0..=(chars.len() - q.len()) {
        if chars[start..start + q.len()] == q[..] {
            return Some(FuzzyMatch { score: start as u64, positions: (start..start + q.len()).collect() });
        }
    }
    None
}

fn opened(len: Option<i32>, paths: &[&str]) -> App {
    let mut app = App::new(100, 20, Vec::new(), len);
    app.install_loaded_history_picker(entries(paths));
    app
}

#[test]
fn install_shows_every_entry_up_to_capacity() {
    let app = opened(Some(2), &["/docs/Alpha.md", "/docs/beta.md", "/gamma.md"]);
    assert!(app.is_history_picker_open());
    assert_eq!(app.history_picker_entries().len(), 2);
    assert_eq!(app.history_picker_filtered_indices(), &[0, 1]);
    assert_eq!(app.history_picker_index(), 0);
    assert_eq!(app.history_picker_error(), None);
    assert_eq!(app.history_picker.filenames_lower, vec!["alpha.md".to_string(), "beta.md".to_string()]);
}

#[test]
fn install_reports_disabled_and_empty_history() {
    let app = opened(None, &["/a.md"]);
    assert_eq!(app.history_picker_error(), Some(MSG_HISTORY_DISABLED));
    assert!(app.history_picker_entries().is_empty());
    let app = opened(Some(0), &["/a.md"]);
    assert_eq!(app.history_picker_error(), Some(MSG_HISTORY_DISABLED));
    let app = opened(Some(5), &[]);
    assert_eq!(app.history_picker_error(), Some(MSG_NO_FILE_HISTORY));
}

#[test]
fn query_filters_and_ranks_by_score() {
    let mut app = opened(Some(10), &["/x/notes.md", "/x/readme.md", "/y/todo.md", "/z/ME.md"]);
    app.push_history_picker_query('m', &substring_matcher);
    app.push_history_picker_query('e', &substring_matcher);
    assert_eq!(app.history_picker_query(), "me");
    // "me.md" matches at 0, "readme.md" at 4; "notes.md" and "todo.md" do not match "me".
    assert_eq!(app.history_picker_filtered_indices(), &[3, 1]);
    assert_eq!(app.history_picker_match_positions(0), &[0, 1]);
    assert_eq!(app.history_picker_match_positions(1), &[4, 5]);
    app.pop_history_picker_query(&substring_matcher);
    assert_eq!(app.history_picker_query(), "m");
    app.clear_history_picker_query(&substring_matcher);
    assert_eq!(app.history_picker_filtered_indices(), &[0, 1, 2, 3]);
    assert!(app.history_picker_match_positions(0).is_empty());
}

#[test]
fn blank_query_shows_everything() {
    let mut app = opened(Some(10), &["/a.md", "/b.md"]);
    app.push_history_picker_query(' ', &substring_matcher);
    assert_eq!(app.history_picker_filtered_indices(), &[0, 1]);
}

#[test]
fn selection_wraps_both_ways() {
    let mut app = opened(Some(10), &["/a.md", "/b.md", "/c.md"]);
    app.move_history_picker_up();
    assert_eq!(app.history_picker_index(), 2);
    app.move_history_picker_down();
    assert_eq!(app.history_picker_index(), 0);
    app.move_history_picker_down();
    assert_eq!(app.history_picker_selected_path().as_deref(), Some("/b.md"));
}

#[test]
fn missing_file_is_marked_and_later_removed() {
    let mut app = opened(Some(10), &["/gone.md", "/here.md"]);
    assert_eq!(app.complete_history_picker_activation("/gone.md".to_string(), false), None);
    assert_eq!(app.history_picker_activation_error(), Some(MSG_FILE_NO_LONGER_AVAILABLE));
    assert_eq!(app.complete_history_picker_activation("/gone.md".to_string(), false), None);
    assert_eq!(app.history_pending_removals, vec!["/gone.md".to_string()]);
    app.move_history_picker_down();
    assert_eq!(app.history_picker_activation_error(), None);
    let removed = app.complete_history_picker_activation("/here.md".to_string(), true);
    assert_eq!(removed, Some(vec!["/gone.md".to_string()]));
    assert!(!app.is_history_picker_open());
    assert!(app.history_pending_removals.is_empty());
}

#[test]
fn capacity_follows_configuration() {
    assert_eq!(App::new(1, 1, Vec::new(), Some(7)).history_capacity(), 7);
    assert_eq!(App::new(1, 1, Vec::new(), Some(-3)).history_capacity(), 0);
    assert_eq!(App::new(1, 1, Vec::new(), None).history_capacity(), 0);
}
