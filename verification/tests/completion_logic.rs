use leaf::cli::{parse_auto_complete_value, parse_cli, AutoCompleteMode, CliError};
use leaf::completions::{
    check_shell_os_compat, completion_file_path, completion_filename, content_has_line, parse_shell,
    remove_line_content, source_line_addition, source_line_for, CompletionError, RemovalPlan, Shell,
};

#[test]
fn shell_names_round_trip() {
    for shell in [Shell::Bash, Shell::Zsh, Shell::Fish, Shell::Pwsh, Shell::Nushell] {
        assert_eq!(parse_shell(shell.name()), Ok(shell));
    }
    assert_eq!(parse_shell("pwsh"), Err(CompletionError::UnknownShell("pwsh".to_string())));
    assert_eq!(parse_shell("Bash"), Err(CompletionError::UnknownShell("Bash".to_string())));
}

#[test]
fn file_names_and_source_lines() {
    assert_eq!(completion_file_path(&Shell::Pwsh, "C:\\Users\\u\\AppData\\Roaming\\leaf\\completions", true), "C:\\Users\\u\\AppData\\Roaming\\leaf\\completions\\leaf.ps1");
    assert_eq!(completion_filename(&Shell::Bash), "leaf.bash");
    assert_eq!(completion_filename(&Shell::Fish), "leaf.fish");
    assert_eq!(completion_filename(&Shell::Nushell), "leaf.nu");
    assert_eq!(source_line_for(&Shell::Zsh, "/h/.leaf/leaf.zsh").as_deref(), Some("source /h/.leaf/leaf.zsh"));
    assert_eq!(source_line_for(&Shell::Pwsh, "C:/p/leaf.ps1").as_deref(), Some(". C:/p/leaf.ps1"));
    assert_eq!(source_line_for(&Shell::Fish, "/x"), None);
    assert_eq!(completion_file_path(&Shell::Bash, "/home/u/.config/leaf", false), "/home/u/.config/leaf/leaf.bash");
    assert_eq!(completion_file_path(&Shell::Bash, "/dir/", false), "/dir/leaf.bash");
}

#[test]
fn os_compatibility() {
    assert_eq!(check_shell_os_compat(&Shell::Pwsh, true), Ok(()));
    assert_eq!(check_shell_os_compat(&Shell::Nushell, true), Ok(()));
    assert_eq!(check_shell_os_compat(&Shell::Bash, true), Err(CompletionError::UnsupportedOnWindows(Shell::Bash)));
    assert_eq!(check_shell_os_compat(&Shell::Pwsh, false), Err(CompletionError::PowershellUnsupported));
    assert_eq!(check_shell_os_compat(&Shell::Fish, false), Ok(()));
}

#[test]
fn lines_match_after_trimming() {
    assert!(content_has_line("a\n  source /x  \nb", "source /x"));
    assert!(!content_has_line("a\nsource /xy\n", "source /x"));
    assert!(!content_has_line("", "source /x"));
}

#[test]
fn adding_a_source_line() {
    assert_eq!(source_line_addition("", "source /x").as_deref(), Some("source /x\n"));
    assert_eq!(source_line_addition("alias a=b", "source /x").as_deref(), Some("\nsource /x\n"));
    assert_eq!(source_line_addition("alias a=b\n", "source /x").as_deref(), Some("source /x\n"));
    assert_eq!(source_line_addition("source /x\n", "source /x"), None);
}

#[test]
fn removing_a_source_line() {
    assert_eq!(remove_line_content("a\nsource /x\nb\n", "source /x").as_deref(), Some("a\nb\n"));
    assert_eq!(remove_line_content("a\nsource /x", "source /x").as_deref(), Some("a"));
    assert_eq!(remove_line_content("source /x\n", "source /x").as_deref(), Some(""));
    assert_eq!(remove_line_content(" source /x \r\nz\r\n", "source /x").as_deref(), Some("z\n"));
    assert_eq!(remove_line_content("a\nb\n", "source /x"), None);
}

#[test]
fn removal_plan_lists_file_and_rc_lines() {
    let rcs = vec![("/h/.bashrc".to_string(), true), ("/h/.profile".to_string(), false)];
    let plan = RemovalPlan::compute(&Shell::Bash, "/h/.leaf/leaf.bash", true, &rcs);
    assert_eq!(plan.files, vec!["/h/.leaf/leaf.bash".to_string()]);
    assert_eq!(plan.rc_lines, vec![("/h/.bashrc".to_string(), "source /h/.leaf/leaf.bash".to_string())]);
    assert!(!plan.is_empty());
    let plan = RemovalPlan::compute(&Shell::Fish, "/h/fish/leaf.fish", false, &rcs);
    assert!(plan.is_empty());
}

#[test]
fn auto_complete_values() {
    let a = parse_auto_complete_value("fish:remove").unwrap();
    assert_eq!((a.shell.as_deref(), a.mode), (Some("fish"), AutoCompleteMode::Remove));
    let a = parse_auto_complete_value("remove").unwrap();
    assert_eq!((a.shell, a.mode), (None, AutoCompleteMode::Remove));
    assert!(parse_auto_complete_value("tcsh").is_none());
    assert!(parse_auto_complete_value("bash:nuke").is_none());
    assert!(parse_auto_complete_value("").is_none());
}

#[test]
fn auto_complete_errors() {
    let args = vec!["leaf".to_string(), "--auto-complete".to_string(), "tcsh".to_string()];
    assert_eq!(parse_cli(&args), Err(CliError::InvalidAutoCompleteArg("tcsh".to_string())));
    let args = vec!["leaf".to_string(), "notes.md".to_string()];
    let options = parse_cli(&args).unwrap();
    assert_eq!(options.auto_complete, None);
    assert_eq!(options.args, vec!["notes.md".to_string()]);
}
