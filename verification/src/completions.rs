use vstd::prelude::*;
use crate::lines::{eq_chars, spec_lines, split_lines, join_with_newlines, join_lines};
use crate::paths::{path_file_name, path_join, spec_file_name, spec_join};
use crate::text::{chars_of, push_all, string_of, trim_chars, trimmed};

verus! {

/// The shells that completions are written for.
#[derive(Clone, Copy, Debug, PartialEq, Eq, Structural)]
pub enum Shell {
    Pwsh,
    Zsh,
    Bash,
    Fish,
    Nushell,
}

/// Why a completion request cannot be carried out.
#[derive(Clone, Debug, PartialEq, Eq)]
pub enum CompletionError {
    /// The named shell is not one of those supported.
    UnknownShell(String),
    /// Only PowerShell and Nushell are supported on Windows.
    UnsupportedOnWindows(Shell),
    /// PowerShell is supported on Windows only.
    PowershellUnsupported,
    /// The home directory is not known.
    NoHomeDir,
    /// The application-data directory (Windows) is not known.
    NoAppDataDir,
    /// The user-profile directory (Windows) is not known.
    NoUserProfileDir,
    /// No shell was named and none could be found.
    CannotDetectShell,
}

pub open spec fn spec_shell_name(shell: Shell) -> Seq<char> {
    match shell {
        Shell::Bash => seq!['b', 'a', 's', 'h'],
        Shell::Zsh => seq!['z', 's', 'h'],
        Shell::Fish => seq!['f', 'i', 's', 'h'],
        Shell::Pwsh => seq!['p', 'o', 'w', 'e', 'r', 's', 'h', 'e', 'l', 'l'],
        Shell::Nushell => seq!['n', 'u', 's', 'h', 'e', 'l', 'l'],
    }
}

impl Shell {
    /// The shell's name as the user types it.
    pub fn name(&self) -> (r: &'static str)
        ensures
            r@ == spec_shell_name(*self),
    {
        match self {
            Shell::Bash => {
                proof {
                    reveal_strlit("bash");
                }
                "bash"
            },
            Shell::Zsh => {
                proof {
                    reveal_strlit("zsh");
                }
                "zsh"
            },
            Shell::Fish => {
                proof {
                    reveal_strlit("fish");
                }
                "fish"
            },
            Shell::Pwsh => {
                proof {
                    reveal_strlit("powershell");
                }
                "powershell"
            },
            Shell::Nushell => {
                proof {
                    reveal_strlit("nushell");
                }
                "nushell"
            },
        }
    }
}

pub open spec fn spec_completion_filename(shell: Shell) -> Seq<char> {
    match shell {
        Shell::Bash => seq!['l', 'e', 'a', 'f', '.', 'b', 'a', 's', 'h'],
        Shell::Zsh => seq!['_', 'l', 'e', 'a', 'f'],
        Shell::Fish => seq!['l', 'e', 'a', 'f', '.', 'f', 'i', 's', 'h'],
        Shell::Pwsh => seq!['l', 'e', 'a', 'f', '.', 'p', 's', '1'],
        Shell::Nushell => seq!['l', 'e', 'a', 'f', '.', 'n', 'u'],
    }
}

/// The file name that a shell's completion script is installed under.
pub fn completion_filename(shell: &Shell) -> (r: &'static str)
    ensures
        r@ == spec_completion_filename(*shell),
{
    match shell {
        Shell::Bash => {
            proof {
                reveal_strlit("leaf.bash");
            }
            "leaf.bash"
        },
        Shell::Zsh => {
            proof {
                reveal_strlit("_leaf");
            }
            "_leaf"
        },
        Shell::Fish => {
            proof {
                reveal_strlit("leaf.fish");
            }
            "leaf.fish"
        },
        Shell::Pwsh => {
            proof {
                reveal_strlit("leaf.ps1");
            }
            "leaf.ps1"
        },
        Shell::Nushell => {
            proof {
                reveal_strlit("leaf.nu");
            }
            "leaf.nu"
        },
    }
}

/// The line a shell's start-up file needs to load the script at `path`:
/// `source PATH` for bash and zsh, `. PATH` for PowerShell; fish and Nushell
/// load completions by themselves.
pub open spec fn spec_source_line_for(shell: Shell, path: Seq<char>) -> Option<Seq<char>> {
    match shell {
        Shell::Bash | Shell::Zsh => Some(seq!['s', 'o', 'u', 'r', 'c', 'e', ' '] + path),
        Shell::Pwsh => Some(seq!['.', ' '] + path),
        _ => None,
    }
}

pub fn source_line_for(shell: &Shell, path: &str) -> (r: Option<String>)
    ensures
        r matches Some(s) ==> spec_source_line_for(*shell, path@) == Some(s@),
        r is None ==> spec_source_line_for(*shell, path@) is None,
{
    let p = chars_of(path);
    match shell {
        Shell::Bash | Shell::Zsh => {
            let mut v = vec!['s', 'o', 'u', 'r', 'c', 'e', ' '];
            push_all(&mut v, &p);
            Some(string_of(&v))
        },
        Shell::Pwsh => {
            let mut v = vec!['.', ' '];
            push_all(&mut v, &p);
            Some(string_of(&v))
        },
        _ => None,
    }
}

/// The shell that a name given on the command line denotes.
pub open spec fn spec_parse_shell(name: Seq<char>) -> Option<Shell> {
    if name == spec_shell_name(Shell::Bash) {
        Some(Shell::Bash)
    } else if name == spec_shell_name(Shell::Zsh) {
        Some(Shell::Zsh)
    } else if name == spec_shell_name(Shell::Fish) {
        Some(Shell::Fish)
    } else if name == spec_shell_name(Shell::Pwsh) {
        Some(Shell::Pwsh)
    } else if name == spec_shell_name(Shell::Nushell) {
        Some(Shell::Nushell)
    } else {
        None
    }
}

fn name_chars(shell: Shell) -> (r: Vec<char>)
    ensures
        r@ == spec_shell_name(shell),
{
    let r = match shell {
        Shell::Bash => vec!['b', 'a', 's', 'h'],
        Shell::Zsh => vec!['z', 's', 'h'],
        Shell::Fish => vec!['f', 'i', 's', 'h'],
        Shell::Pwsh => vec!['p', 'o', 'w', 'e', 'r', 's', 'h', 'e', 'l', 'l'],
        Shell::Nushell => vec!['n', 'u', 's', 'h', 'e', 'l', 'l'],
    };
    assert(r@ == spec_shell_name(shell));
    r
}

/// Parses a shell name from characters.
pub fn parse_shell_chars(n: &Vec<char>) -> (r: Option<Shell>)
    ensures
        r == spec_parse_shell(n@),
{
    if eq_chars(n, &name_chars(Shell::Bash)) {
        Some(Shell::Bash)
    } else if eq_chars(n, &name_chars(Shell::Zsh)) {
        Some(Shell::Zsh)
    } else if eq_chars(n, &name_chars(Shell::Fish)) {
        Some(Shell::Fish)
    } else if eq_chars(n, &name_chars(Shell::Pwsh)) {
        Some(Shell::Pwsh)
    } else if eq_chars(n, &name_chars(Shell::Nushell)) {
        Some(Shell::Nushell)
    } else {
        None
    }
}

/// Reads a shell name; an unknown name is an error that carries it.
pub fn parse_shell(name: &str) -> (r: Result<Shell, CompletionError>)
    ensures
        r matches Ok(s) ==> spec_parse_shell(name@) == Some(s),
        r matches Err(e) ==> spec_parse_shell(name@) is None && (e matches CompletionError::UnknownShell(n) && n@ == name@),
{
    let n = chars_of(name);
    match parse_shell_chars(&n) {
        Some(s) => Ok(s),
        None => Err(CompletionError::UnknownShell(string_of(&n))),
    }
}

/// Whether a shell is supported on this system: on Windows only PowerShell
/// and Nushell; elsewhere every shell but PowerShell.
pub fn check_shell_os_compat(shell: &Shell, windows: bool) -> (r: Result<(), CompletionError>)
    ensures
        windows ==> (r is Ok <==> (*shell == Shell::Pwsh || *shell == Shell::Nushell)),
        windows && r is Err ==> r == Err::<(), CompletionError>(CompletionError::UnsupportedOnWindows(*shell)),
        !windows ==> (r is Ok <==> *shell != Shell::Pwsh),
        !windows && r is Err ==> r == Err::<(), CompletionError>(CompletionError::PowershellUnsupported),
{
    if windows {
        match shell {
            Shell::Pwsh | Shell::Nushell => Ok(()),
            _ => Err(CompletionError::UnsupportedOnWindows(*shell)),
        }
    } else {
        match shell {
            Shell::Pwsh => Err(CompletionError::PowershellUnsupported),
            _ => Ok(()),
        }
    }
}

/// Where a shell's completion file lies under the directory `dir`.
pub fn completion_file_path(shell: &Shell, dir: &str, windows: bool) -> (r: String)
    ensures
        r@ == spec_join(dir@, spec_completion_filename(*shell), windows),
{
    path_join(dir, completion_filename(shell), windows)
}

/// Whether `content` has a line that, trimmed, is `line` trimmed.
pub open spec fn spec_content_has_line(content: Seq<char>, line: Seq<char>) -> bool {
    exists|i: int| 0 <= i < spec_lines(content).len() && trimmed(#[trigger] spec_lines(content)[i]) == trimmed(line)
}

pub fn content_has_line(content: &str, line: &str) -> (r: bool)
    ensures
        r == spec_content_has_line(content@, line@),
{
    let needle = trim_chars(&chars_of(line));
    let c = chars_of(content);
    let ls = split_lines(&c);
    let ghost lv = ls@.map_values(|l: Vec<char>| l@);
    let mut i: usize = 0;
    while i < ls.len()
        invariant
            i <= ls.len(),
            lv == ls@.map_values(|l: Vec<char>| l@),
            lv == spec_lines(content@),
            needle@ == trimmed(line@),
            forall|j: int| 0 <= j < i ==> trimmed(#[trigger] lv[j]) != trimmed(line@),
        decreases ls.len() - i,
    {
        let t = trim_chars(&ls[i]);
        if eq_chars(&t, &needle) {
            assert(trimmed(lv[i as int]) == trimmed(line@));
            return true;
        }
        i += 1;
    }
    false
}

/// What removing a shell's completions deletes: the completion file, and
/// the source line in each start-up file that has it.
pub struct RemovalPlan {
    pub files: Vec<String>,
    pub rc_lines: Vec<(String, String)>,
}

pub open spec fn rc_line_views(v: Seq<(String, String)>) -> Seq<(Seq<char>, Seq<char>)> {
    v.map_values(|p: (String, String)| (p.0@, p.1@))
}

/// The start-up files among `candidates` that hold the line, each with it.
pub open spec fn rc_with_line(candidates: Seq<(String, bool)>, line: Seq<char>) -> Seq<(Seq<char>, Seq<char>)>
    decreases candidates.len(),
{
    if candidates.len() == 0 {
        Seq::empty()
    } else {
        let prev = rc_with_line(candidates.drop_last(), line);
        if candidates.last().1 {
            prev.push((candidates.last().0@, line))
        } else {
            prev
        }
    }
}

impl RemovalPlan {
    pub fn is_empty(&self) -> (r: bool)
        ensures
            r == (self.files@.len() == 0 && self.rc_lines@.len() == 0),
    {
        self.files.len() == 0 && self.rc_lines.len() == 0
    }

    /// The plan for `shell`: its completion file at `completion_file` when
    /// that file exists, and, for a shell that is loaded by a source line,
    /// each start-up file in `rc_candidates` that holds the line (the flag
    /// says whether it does).
    pub fn compute(shell: &Shell, completion_file: &str, file_exists: bool, rc_candidates: &Vec<(String, bool)>) -> (r: RemovalPlan)
        ensures
            r.files@.map_values(|f: String| f@) == (if file_exists {
                seq![completion_file@]
            } else {
                Seq::empty()
            }),
            rc_line_views(r.rc_lines@) == match spec_source_line_for(*shell, completion_file@) {
                Some(l) => rc_with_line(rc_candidates@, l),
                None => Seq::empty(),
            },
    {
        let mut files: Vec<String> = Vec::new();
        if file_exists {
            files.push(string_of(&chars_of(completion_file)));
            assert(files@.map_values(|f: String| f@) == seq![completion_file@]);
        } else {
            assert(files@.map_values(|f: String| f@) == Seq::<Seq<char>>::empty());
        }
        let mut rc_lines: Vec<(String, String)> = Vec::new();
        assert(rc_line_views(rc_lines@) == Seq::<(Seq<char>, Seq<char>)>::empty());
        match source_line_for(shell, completion_file) {
            Some(line) => {
                let ghost cs = rc_candidates@;
                let mut i: usize = 0;
                assert(cs.take(0) =~= Seq::<(String, bool)>::empty());
                while i < rc_candidates.len()
                    invariant
                        i <= rc_candidates.len(),
                        cs == rc_candidates@,
                        rc_line_views(rc_lines@) == rc_with_line(cs.take(i as int), line@),
                    decreases rc_candidates.len() - i,
                {
                    assert(cs.take(i + 1).drop_last() == cs.take(i as int));
                    assert(cs.take(i + 1).last() == cs[i as int]);
                    if rc_candidates[i].1 {
                        let ghost before = rc_line_views(rc_lines@);
                        let rc = string_of(&chars_of(rc_candidates[i].0.as_str()));
                        let l = string_of(&chars_of(line.as_str()));
                        rc_lines.push((rc, l));
                        assert(rc_line_views(rc_lines@) == before.push((cs[i as int].0@, line@)));
                    }
                    i += 1;
                }
                assert(cs.take(rc_candidates.len() as int) == cs);
            },
            None => {},
        }
        RemovalPlan { files, rc_lines }
    }
}

/// The lines of `content` kept when the source line `line` is removed.
pub open spec fn kept_lines(ls: Seq<Seq<char>>, line: Seq<char>) -> Seq<Seq<char>>
    decreases ls.len(),
{
    if ls.len() == 0 {
        Seq::empty()
    } else {
        let prev = kept_lines(ls.drop_last(), line);
        if trimmed(ls.last()) == trimmed(line) {
            prev
        } else {
            prev.push(ls.last())
        }
    }
}

/// A start-up file's text without the lines that, trimmed, are `line`: the
/// other lines joined by line breaks, with a final line break when the text
/// had one and anything is left; `None` when no line matches.
pub open spec fn spec_remove_line(content: Seq<char>, line: Seq<char>) -> Option<Seq<char>> {
    if !spec_content_has_line(content, line) {
        None
    } else {
        let joined = join_lines(kept_lines(spec_lines(content), line));
        if content.len() > 0 && content.last() == '\n' && joined.len() > 0 {
            Some(joined + seq!['\n'])
        } else {
            Some(joined)
        }
    }
}

pub fn remove_line_content(content: &str, line: &str) -> (r: Option<String>)
    ensures
        r matches Some(s) ==> spec_remove_line(content@, line@) == Some(s@),
        r is None ==> spec_remove_line(content@, line@) is None,
{
    let needle = trim_chars(&chars_of(line));
    let c = chars_of(content);
    let ls = split_lines(&c);
    let ghost lv = ls@.map_values(|l: Vec<char>| l@);
    let mut kept: Vec<Vec<char>> = Vec::new();
    let mut removed = false;
    let mut i: usize = 0;
    assert(lv.take(0) =~= Seq::<Seq<char>>::empty());
    while i < ls.len()
        invariant
            i <= ls.len(),
            lv == ls@.map_values(|l: Vec<char>| l@),
            lv == spec_lines(content@),
            needle@ == trimmed(line@),
            kept@.map_values(|l: Vec<char>| l@) == kept_lines(lv.take(i as int), line@),
            removed == exists|j: int| 0 <= j < i && trimmed(#[trigger] lv[j]) == trimmed(line@),
        decreases ls.len() - i,
    {
        assert(lv.take(i + 1).drop_last() == lv.take(i as int));
        assert(lv.take(i + 1).last() == lv[i as int]);
        let t = trim_chars(&ls[i]);
        if eq_chars(&t, &needle) {
            removed = true;
        } else {
            let ghost before = kept@.map_values(|l: Vec<char>| l@);
            let copy = crate::lines::subrange_chars(&ls[i], 0, ls[i].len());
            assert(copy@ == ls@[i as int]@);
            kept.push(copy);
            assert(kept@.map_values(|l: Vec<char>| l@) == before.push(lv[i as int]));
        }
        i += 1;
    }
    assert(lv.take(ls.len() as int) == lv);
    if !removed {
        return None;
    }
    let mut joined = join_with_newlines(&kept);
    if c.len() > 0 && c[c.len() - 1] == '\n' && joined.len() > 0 {
        joined.push('\n');
    }
    Some(string_of(&joined))
}

/// What to append to a start-up file so that it holds `line`: nothing when
/// it already does; otherwise a line break if the text does not end in one,
/// then the line and a line break.
pub open spec fn spec_source_line_addition(content: Seq<char>, line: Seq<char>) -> Option<Seq<char>> {
    if spec_content_has_line(content, line) {
        None
    } else if content.len() > 0 && content.last() != '\n' {
        Some(seq!['\n'] + line + seq!['\n'])
    } else {
        Some(line + seq!['\n'])
    }
}

pub fn source_line_addition(content: &str, line: &str) -> (r: Option<String>)
    ensures
        r matches Some(s) ==> spec_source_line_addition(content@, line@) == Some(s@),
        r is None ==> spec_source_line_addition(content@, line@) is None,
{
    if content_has_line(content, line) {
        return None;
    }
    let c = chars_of(content);
    let mut out: Vec<char> = Vec::new();
    if c.len() > 0 && c[c.len() - 1] != '\n' {
        out.push('\n');
    }
    push_all(&mut out, &chars_of(line));
    out.push('\n');
    Some(string_of(&out))
}

/// The directory a shell's completion script is installed in: for fish,
/// `~/.config/fish/completions`; for Nushell, `autoload` under its
/// configuration (`%APPDATA%\nushell` on Windows); for the others, this
/// program's completion directory (`%APPDATA%\leaf\completions` on Windows,
/// `~/.local/share/leaf/completions` elsewhere). `home` and `appdata` are the
/// directories the environment names, if it does.
pub open spec fn spec_completion_dir(
    shell: Shell,
    windows: bool,
    home: Option<Seq<char>>,
    appdata: Option<Seq<char>>,
) -> Result<Seq<char>, CompletionError> {
    match shell {
        Shell::Fish => match home {
            Some(h) => Ok(spec_join(spec_join(spec_join(h, ".config"@, windows), "fish"@, windows), "completions"@, windows)),
            None => Err(CompletionError::NoHomeDir),
        },
        Shell::Nushell => if windows {
            match appdata {
                Some(a) => Ok(spec_join(spec_join(a, "nushell"@, windows), "autoload"@, windows)),
                None => Err(CompletionError::NoAppDataDir),
            }
        } else {
            match home {
                Some(h) => Ok(spec_join(spec_join(spec_join(h, ".config"@, windows), "nushell"@, windows), "autoload"@, windows)),
                None => Err(CompletionError::NoHomeDir),
            }
        },
        _ => if windows {
            match appdata {
                Some(a) => Ok(spec_join(spec_join(a, "leaf"@, windows), "completions"@, windows)),
                None => Err(CompletionError::NoAppDataDir),
            }
        } else {
            match home {
                Some(h) => Ok(
                    spec_join(spec_join(spec_join(spec_join(h, ".local"@, windows), "share"@, windows), "leaf"@, windows), "completions"@, windows),
                ),
                None => Err(CompletionError::NoHomeDir),
            }
        },
    }
}

fn known(dir: Option<&str>, missing: CompletionError) -> (r: Result<&str, CompletionError>)
    ensures
        match dir {
            Some(d) => r matches Ok(x) && x@ == d@,
            None => r == Err::<&str, CompletionError>(missing),
        },
{
    match dir {
        Some(d) => Ok(d),
        None => Err(missing),
    }
}

/// Where `shell`'s completion script goes, as `spec_completion_dir` says.
pub fn completion_dir_for(shell: &Shell, windows: bool, home: Option<&str>, appdata: Option<&str>) -> (r: Result<String, CompletionError>)
    ensures
        match (r, spec_completion_dir(*shell, windows, opt_str(home), opt_str(appdata))) {
            (Ok(d), Ok(e)) => d@ == e,
            (Err(x), Err(y)) => x == y,
            _ => false,
        },
{
    match shell {
        Shell::Fish => {
            let h = known(home, CompletionError::NoHomeDir)?;
            Ok(path_join(&path_join(&path_join(h, ".config", windows), "fish", windows), "completions", windows))
        },
        Shell::Nushell => if windows {
            let a = known(appdata, CompletionError::NoAppDataDir)?;
            Ok(path_join(&path_join(a, "nushell", windows), "autoload", windows))
        } else {
            let h = known(home, CompletionError::NoHomeDir)?;
            Ok(path_join(&path_join(&path_join(h, ".config", windows), "nushell", windows), "autoload", windows))
        },
        _ => if windows {
            let a = known(appdata, CompletionError::NoAppDataDir)?;
            Ok(path_join(&path_join(a, "leaf", windows), "completions", windows))
        } else {
            let h = known(home, CompletionError::NoHomeDir)?;
            Ok(path_join(
                &path_join(&path_join(&path_join(h, ".local", windows), "share", windows), "leaf", windows),
                "completions",
                windows,
            ))
        },
    }
}

pub open spec fn opt_str(s: Option<&str>) -> Option<Seq<char>> {
    match s {
        Some(t) => Some(t@),
        None => None,
    }
}

/// The start-up files that load a shell's completions: `~/.zshrc` and
/// `~/.bashrc`; on Windows the two PowerShell profiles under
/// `Documents` in the user profile; none for the other shells.
pub open spec fn spec_rc_files(
    shell: Shell,
    windows: bool,
    home: Option<Seq<char>>,
    userprofile: Option<Seq<char>>,
) -> Result<Seq<Seq<char>>, CompletionError> {
    match shell {
        Shell::Zsh => match home {
            Some(h) => Ok(seq![spec_join(h, ".zshrc"@, windows)]),
            None => Err(CompletionError::NoHomeDir),
        },
        Shell::Bash => match home {
            Some(h) => Ok(seq![spec_join(h, ".bashrc"@, windows)]),
            None => Err(CompletionError::NoHomeDir),
        },
        Shell::Pwsh => if windows {
            match userprofile {
                Some(u) => {
                    let docs = spec_join(u, "Documents"@, windows);
                    Ok(
                        seq![
                            spec_join(spec_join(docs, "PowerShell"@, windows), "Microsoft.PowerShell_profile.ps1"@, windows),
                            spec_join(spec_join(docs, "WindowsPowerShell"@, windows), "Microsoft.PowerShell_profile.ps1"@, windows),
                        ],
                    )
                },
                None => Err(CompletionError::NoUserProfileDir),
            }
        } else {
            Ok(Seq::empty())
        },
        _ => Ok(Seq::empty()),
    }
}

pub open spec fn string_seqs(v: Seq<String>) -> Seq<Seq<char>> {
    v.map_values(|s: String| s@)
}

/// The start-up files of `shell`, as `spec_rc_files` says.
pub fn rc_files_for(shell: &Shell, windows: bool, home: Option<&str>, userprofile: Option<&str>) -> (r: Result<Vec<String>, CompletionError>)
    ensures
        match (r, spec_rc_files(*shell, windows, opt_str(home), opt_str(userprofile))) {
            (Ok(v), Ok(e)) => string_seqs(v@) == e,
            (Err(x), Err(y)) => x == y,
            _ => false,
        },
{
    let mut out: Vec<String> = Vec::new();
    match shell {
        Shell::Zsh => {
            let h = known(home, CompletionError::NoHomeDir)?;
            out.push(path_join(h, ".zshrc", windows));
        },
        Shell::Bash => {
            let h = known(home, CompletionError::NoHomeDir)?;
            out.push(path_join(h, ".bashrc", windows));
        },
        Shell::Pwsh => if windows {
            let u = known(userprofile, CompletionError::NoUserProfileDir)?;
            let docs = path_join(u, "Documents", windows);
            out.push(path_join(&path_join(&docs, "PowerShell", windows), "Microsoft.PowerShell_profile.ps1", windows));
            out.push(path_join(&path_join(&docs, "WindowsPowerShell", windows), "Microsoft.PowerShell_profile.ps1", windows));
        },
        _ => {},
    }
    assert(string_seqs(out@) =~= spec_rc_files(*shell, windows, opt_str(home), opt_str(userprofile))->Ok_0);
    Ok(out)
}

/// The shell a program name denotes: `zsh`, `bash`, `fish` or `nu`.
pub open spec fn shell_of_program(name: Seq<char>) -> Option<Shell> {
    if name == seq!['z', 's', 'h'] {
        Some(Shell::Zsh)
    } else if name == seq!['b', 'a', 's', 'h'] {
        Some(Shell::Bash)
    } else if name == seq!['f', 'i', 's', 'h'] {
        Some(Shell::Fish)
    } else if name == seq!['n', 'u'] {
        Some(Shell::Nushell)
    } else {
        None
    }
}

/// The shell named by the `SHELL` variable: the one its program's file name
/// denotes.
pub open spec fn env_shell(shell_var: Option<Seq<char>>, windows: bool) -> Option<Shell> {
    match shell_var {
        Some(v) => match spec_file_name(v, windows) {
            Some(n) => shell_of_program(n),
            None => None,
        },
        None => None,
    }
}

/// The shells looked for when `SHELL` names none, in this order.
pub open spec fn fallback_shell(i: int) -> Shell {
    if i == 0 {
        Shell::Zsh
    } else if i == 1 {
        Shell::Bash
    } else if i == 2 {
        Shell::Fish
    } else {
        Shell::Nushell
    }
}

/// Where each of the fallback shells is looked for.
pub open spec fn fallback_path(i: int) -> Seq<char> {
    if i == 0 {
        "/bin/zsh"@
    } else if i == 1 {
        "/bin/bash"@
    } else if i == 2 {
        "/bin/fish"@
    } else if i == 3 {
        "/bin/nu"@
    } else {
        "/usr/bin/nu"@
    }
}

/// The first fallback shell from the `i`th on whose program is present.
pub open spec fn first_present(present: Seq<bool>, i: int) -> Option<Shell>
    decreases 5 - i,
{
    if i >= 5 || i < 0 {
        None
    } else if present[i] {
        Some(fallback_shell(i))
    } else {
        first_present(present, i + 1)
    }
}

/// The shell whose completions are handled when none is named: the one
/// `SHELL` names; otherwise PowerShell on Windows; otherwise the first of
/// zsh, bash, fish and Nushell found at its usual place (`present[i]` says
/// whether `fallback_path(i)` exists).
pub open spec fn spec_detect_shell(shell_var: Option<Seq<char>>, windows: bool, present: Seq<bool>) -> Option<Shell> {
    match env_shell(shell_var, windows) {
        Some(s) => Some(s),
        None => if windows {
            Some(Shell::Pwsh)
        } else {
            first_present(present, 0)
        },
    }
}

/// A `SHELL` whose program's file name is `zsh`, `bash`, `fish` or `nu`
/// selects that shell, whatever programs are installed and on every system.
pub proof fn law_shell_variable_names_the_shell(v: Seq<char>, windows: bool, present: Seq<bool>)
    ensures
        spec_file_name(v, windows) == Some(seq!['z', 's', 'h']) ==> spec_detect_shell(Some(v), windows, present) == Some(Shell::Zsh),
        spec_file_name(v, windows) == Some(seq!['b', 'a', 's', 'h']) ==> spec_detect_shell(Some(v), windows, present) == Some(Shell::Bash),
        spec_file_name(v, windows) == Some(seq!['f', 'i', 's', 'h']) ==> spec_detect_shell(Some(v), windows, present) == Some(Shell::Fish),
        spec_file_name(v, windows) == Some(seq!['n', 'u']) ==> spec_detect_shell(Some(v), windows, present) == Some(Shell::Nushell),
{
}

/// Only the program names `zsh`, `bash`, `fish` and `nu` denote a shell,
/// each its own.
pub proof fn law_shell_program_names(name: Seq<char>)
    ensures
        shell_of_program(name) == Some(Shell::Zsh) <==> name == seq!['z', 's', 'h'],
        shell_of_program(name) == Some(Shell::Bash) <==> name == seq!['b', 'a', 's', 'h'],
        shell_of_program(name) == Some(Shell::Fish) <==> name == seq!['f', 'i', 's', 'h'],
        shell_of_program(name) == Some(Shell::Nushell) <==> name == seq!['n', 'u'],
        shell_of_program(name) is Some <==> (name == seq!['z', 's', 'h'] || name == seq!['b', 'a', 's', 'h']
            || name == seq!['f', 'i', 's', 'h'] || name == seq!['n', 'u']),
{
}

/// The places where the fallback shells are looked for, in order.
pub fn fallback_shell_paths() -> (r: Vec<&'static str>)
    ensures
        r@.len() == 5,
        forall|i: int| 0 <= i < 5 ==> (#[trigger] r@[i])@ == fallback_path(i),
{
    let v = vec!["/bin/zsh", "/bin/bash", "/bin/fish", "/bin/nu", "/usr/bin/nu"];
    v
}

fn shell_of_program_chars(name: &Vec<char>) -> (r: Option<Shell>)
    ensures
        r == shell_of_program(name@),
{
    let zsh = vec!['z', 's', 'h'];
    let bash = vec!['b', 'a', 's', 'h'];
    let fish = vec!['f', 'i', 's', 'h'];
    let nu = vec!['n', 'u'];
    assert(zsh@ == seq!['z', 's', 'h']);
    assert(bash@ == seq!['b', 'a', 's', 'h']);
    assert(fish@ == seq!['f', 'i', 's', 'h']);
    assert(nu@ == seq!['n', 'u']);
    if eq_chars(name, &zsh) {
        Some(Shell::Zsh)
    } else if eq_chars(name, &bash) {
        Some(Shell::Bash)
    } else if eq_chars(name, &fish) {
        Some(Shell::Fish)
    } else if eq_chars(name, &nu) {
        Some(Shell::Nushell)
    } else {
        None
    }
}

/// Decides the shell when none is named, as `spec_detect_shell` says.
pub fn detect_shell(shell_var: Option<&str>, windows: bool, present: &Vec<bool>) -> (r: Result<Shell, CompletionError>)
    requires
        present@.len() == 5,
    ensures
        match spec_detect_shell(opt_str(shell_var), windows, present@) {
            Some(s) => r == Ok::<Shell, CompletionError>(s),
            None => r == Err::<Shell, CompletionError>(CompletionError::CannotDetectShell),
        },
{
    if let Some(v) = shell_var {
        if let Some(name) = path_file_name(v, windows) {
            if let Some(s) = shell_of_program_chars(&chars_of(name.as_str())) {
                return Ok(s);
            }
        }
    }
    if windows {
        return Ok(Shell::Pwsh);
    }
    let mut i: usize = 0;
    while i < 5
        invariant
            i <= 5,
            present@.len() == 5,
            first_present(present@, 0) == first_present(present@, i as int),
            env_shell(opt_str(shell_var), windows) is None,
            !windows,
        decreases 5 - i,
    {
        if present[i] {
            let s = if i == 0 {
                Shell::Zsh
            } else if i == 1 {
                Shell::Bash
            } else if i == 2 {
                Shell::Fish
            } else {
                Shell::Nushell
            };
            return Ok(s);
        }
        i += 1;
    }
    Err(CompletionError::CannotDetectShell)
}

} // verus!
