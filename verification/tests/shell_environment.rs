use leaf::completions::{completion_dir_for, detect_shell, fallback_shell_paths, rc_files_for, CompletionError, Shell};
use leaf::mermaid_pie::pie_parts;
use leaf::one_shot::render_width_for;

#[test]
fn completion_directories() {
    let home = Some("/home/u");
    let appdata = Some("C:\\Users\\u\\AppData\\Roaming");
    assert_eq!(completion_dir_for(&Shell::Bash, false, home, None), Ok("/home/u/.local/share/leaf/completions".to_string()));
    assert_eq!(completion_dir_for(&Shell::Zsh, false, home, None), Ok("/home/u/.local/share/leaf/completions".to_string()));
    assert_eq!(completion_dir_for(&Shell::Fish, false, home, None), Ok("/home/u/.config/fish/completions".to_string()));
    assert_eq!(completion_dir_for(&Shell::Nushell, false, home, None), Ok("/home/u/.config/nushell/autoload".to_string()));
    assert_eq!(
        completion_dir_for(&Shell::Nushell, true, None, appdata),
        Ok("C:\\Users\\u\\AppData\\Roaming\\nushell\\autoload".to_string())
    );
    assert_eq!(
        completion_dir_for(&Shell::Pwsh, true, None, appdata),
        Ok("C:\\Users\\u\\AppData\\Roaming\\leaf\\completions".to_string())
    );
    assert_eq!(completion_dir_for(&Shell::Bash, false, None, appdata), Err(CompletionError::NoHomeDir));
    assert_eq!(completion_dir_for(&Shell::Pwsh, true, home, None), Err(CompletionError::NoAppDataDir));
    assert_eq!(completion_dir_for(&Shell::Fish, true, None, appdata), Err(CompletionError::NoHomeDir));
}

#[test]
fn startup_files() {
    assert_eq!(rc_files_for(&Shell::Zsh, false, Some("/home/u"), None), Ok(vec!["/home/u/.zshrc".to_string()]));
    assert_eq!(rc_files_for(&Shell::Bash, false, Some("/home/u/"), None), Ok(vec!["/home/u/.bashrc".to_string()]));
    assert_eq!(rc_files_for(&Shell::Bash, false, None, None), Err(CompletionError::NoHomeDir));
    assert_eq!(rc_files_for(&Shell::Fish, false, Some("/home/u"), None), Ok(Vec::new()));
    assert_eq!(
        rc_files_for(&Shell::Pwsh, true, None, Some("C:\\Users\\u")),
        Ok(vec![
            "C:\\Users\\u\\Documents\\PowerShell\\Microsoft.PowerShell_profile.ps1".to_string(),
            "C:\\Users\\u\\Documents\\WindowsPowerShell\\Microsoft.PowerShell_profile.ps1".to_string(),
        ])
    );
    assert_eq!(rc_files_for(&Shell::Pwsh, true, None, None), Err(CompletionError::NoUserProfileDir));
    assert_eq!(rc_files_for(&Shell::Pwsh, false, None, None), Ok(Vec::new()));
}

#[test]
fn shell_detection() {
    let none = vec![false; 5];
    assert_eq!(detect_shell(Some("/usr/bin/zsh"), false, &none), Ok(Shell::Zsh));
    assert_eq!(detect_shell(Some("/opt/homebrew/bin/fish"), true, &none), Ok(Shell::Fish));
    assert_eq!(detect_shell(Some("/usr/local/bin/nu"), false, &none), Ok(Shell::Nushell));
    assert_eq!(detect_shell(Some("C:\\tools\\nu"), true, &none), Ok(Shell::Nushell));
    assert_eq!(detect_shell(Some("C:\\tools\\nu"), false, &none), Err(CompletionError::CannotDetectShell));
    assert_eq!(detect_shell(Some("/bin/tcsh"), true, &none), Ok(Shell::Pwsh));
    assert_eq!(detect_shell(None, false, &vec![false, true, true, false, false]), Ok(Shell::Bash));
    assert_eq!(detect_shell(Some("/bin/ksh"), false, &vec![false, false, false, false, true]), Ok(Shell::Nushell));
    assert_eq!(detect_shell(None, false, &none), Err(CompletionError::CannotDetectShell));
    assert_eq!(fallback_shell_paths(), vec!["/bin/zsh", "/bin/bash", "/bin/fish", "/bin/nu", "/usr/bin/nu"]);
}

#[test]
fn pie_chart_source() {
    let parts = pie_parts("pie title Pets adopted\n    \"Dogs\" : 386\n    \"Cats\" : 85.5\n  Rats: 15\n  note here\n");
    assert_eq!(parts.title, "Pets adopted");
    assert_eq!(
        parts.slices,
        vec![
            ("Dogs".to_string(), "386".to_string()),
            ("Cats".to_string(), "85.5".to_string()),
            ("Rats".to_string(), "15".to_string()),
        ]
    );
    let parts = pie_parts("pie\ntitle First\ntitle Second\n\"a:b\" : x\n");
    assert_eq!(parts.title, "Second");
    assert_eq!(parts.slices, vec![("a:b".to_string(), "x".to_string())]);
    let parts = pie_parts("pie showData\n");
    assert_eq!(parts.title, "");
    assert!(parts.slices.is_empty());
}

#[test]
fn one_shot_width() {
    assert_eq!(render_width_for(Some(120)), 120);
    assert_eq!(render_width_for(Some(0)), 1);
    assert_eq!(render_width_for(None), 80);
}
