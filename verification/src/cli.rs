use vstd::prelude::*;
use crate::completions::{parse_shell_chars, spec_parse_shell};
use crate::lines::{eq_chars, subrange_chars};
use crate::mermaid_tokens::{char_index, lemma_char_index};
use crate::text::{chars_of, string_of};

verus! {

/// What `--auto-complete` does.
#[derive(Clone, Copy, Debug, PartialEq, Eq, Structural)]
pub enum AutoCompleteMode {
    Install,
    Dump,
    Remove,
}

/// The value of `--auto-complete`: an optional shell and a mode.
#[derive(Clone, Debug, PartialEq, Eq)]
pub struct AutoCompleteArg {
    pub shell: Option<String>,
    pub mode: AutoCompleteMode,
}

/// The command line, as far as shell completion is concerned: the
/// `--auto-complete` request, or the arguments left for the viewer.
#[derive(Clone, Debug, PartialEq, Eq)]
pub struct CliOptions {
    pub auto_complete: Option<AutoCompleteArg>,
    pub args: Vec<String>,
}

#[derive(Clone, Debug, PartialEq, Eq)]
pub enum CliError {
    /// `--auto-complete` was given with other arguments.
    AutoCompleteWithOtherArgs,
    /// The value of `--auto-complete` names no shell or mode.
    InvalidAutoCompleteArg(String),
}

pub open spec fn auto_complete_flag() -> Seq<char> {
    seq!['-', '-', 'a', 'u', 't', 'o', '-', 'c', 'o', 'm', 'p', 'l', 'e', 't', 'e']
}

/// The mode a word names: `install`, `dump` or `remove`.
pub open spec fn spec_parse_mode(w: Seq<char>) -> Option<AutoCompleteMode> {
    if w == seq!['i', 'n', 's', 't', 'a', 'l', 'l'] {
        Some(AutoCompleteMode::Install)
    } else if w == seq!['d', 'u', 'm', 'p'] {
        Some(AutoCompleteMode::Dump)
    } else if w == seq!['r', 'e', 'm', 'o', 'v', 'e'] {
        Some(AutoCompleteMode::Remove)
    } else {
        None
    }
}

/// The request a value of `--auto-complete` makes: `SHELL:MODE`, a mode
/// alone (shell detected), or a shell alone (installing).
pub open spec fn spec_parse_auto_complete_value(v: Seq<char>) -> Option<(Option<Seq<char>>, AutoCompleteMode)> {
    let k = char_index(v, ':');
    if k >= 0 {
        let shell = v.take(k);
        let mode = v.skip(k + 1);
        if spec_parse_shell(shell) is Some && spec_parse_mode(mode) is Some {
            Some((Some(shell), spec_parse_mode(mode)->0))
        } else {
            None
        }
    } else if spec_parse_mode(v) is Some {
        Some((None, spec_parse_mode(v)->0))
    } else if spec_parse_shell(v) is Some {
        Some((Some(v), AutoCompleteMode::Install))
    } else {
        None
    }
}

pub open spec fn arg_view(a: AutoCompleteArg) -> (Option<Seq<char>>, AutoCompleteMode) {
    (match a.shell {
        Some(s) => Some(s@),
        None => None,
    }, a.mode)
}

fn parse_mode_chars(w: &Vec<char>) -> (r: Option<AutoCompleteMode>)
    ensures
        r == spec_parse_mode(w@),
{
    let install = vec!['i', 'n', 's', 't', 'a', 'l', 'l'];
    let dump = vec!['d', 'u', 'm', 'p'];
    let remove = vec!['r', 'e', 'm', 'o', 'v', 'e'];
    assert(install@ == seq!['i', 'n', 's', 't', 'a', 'l', 'l']);
    assert(dump@ == seq!['d', 'u', 'm', 'p']);
    assert(remove@ == seq!['r', 'e', 'm', 'o', 'v', 'e']);
    if eq_chars(w, &install) {
        Some(AutoCompleteMode::Install)
    } else if eq_chars(w, &dump) {
        Some(AutoCompleteMode::Dump)
    } else if eq_chars(w, &remove) {
        Some(AutoCompleteMode::Remove)
    } else {
        None
    }
}

/// Reads the value of `--auto-complete`.
pub fn parse_auto_complete_value(value: &str) -> (r: Option<AutoCompleteArg>)
    ensures
        r matches Some(a) ==> spec_parse_auto_complete_value(value@) == Some(arg_view(a)),
        r is None ==> spec_parse_auto_complete_value(value@) is None,
{
    let v = chars_of(value);
    let mut k: usize = 0;
    while k < v.len() && v[k] != ':'
        invariant
            k <= v.len(),
            forall|j: int| 0 <= j < k ==> v@[j] != ':',
        decreases v.len() - k,
    {
        k += 1;
    }
    proof {
        lemma_char_index(v@, ':');
        if k < v.len() {
            if char_index(v@, ':') >= 0 && char_index(v@, ':') < k {
                assert(v@[char_index(v@, ':')] == ':');
            }
            assert(char_index(v@, ':') == k);
        } else if char_index(v@, ':') >= 0 {
            assert(v@[char_index(v@, ':')] == ':');
        }
    }
    if k < v.len() {
        let shell = subrange_chars(&v, 0, k);
        let mode = subrange_chars(&v, k + 1, v.len());
        assert(shell@ == v@.take(k as int));
        assert(mode@ == v@.skip(k + 1));
        let s = parse_shell_chars(&shell);
        let m = parse_mode_chars(&mode);
        return match (s, m) {
            (Some(_), Some(m)) => Some(AutoCompleteArg { shell: Some(string_of(&shell)), mode: m }),
            _ => None,
        };
    }
    match parse_mode_chars(&v) {
        Some(m) => {
            return Some(AutoCompleteArg { shell: None, mode: m });
        },
        None => {},
    }
    match parse_shell_chars(&v) {
        Some(_) => Some(AutoCompleteArg { shell: Some(string_of(&v)), mode: AutoCompleteMode::Install }),
        None => None,
    }
}

pub open spec fn arg_seqs(args: Seq<String>) -> Seq<Seq<char>> {
    args.map_values(|a: String| a@)
}

/// The command line after the program name.
pub open spec fn rest_args(args: Seq<String>) -> Seq<Seq<char>> {
    if args.len() > 0 {
        arg_seqs(args).skip(1)
    } else {
        Seq::empty()
    }
}

/// How the command line is read: without `--auto-complete` every argument is
/// left for the viewer; with it, nothing else may be given but its optional
/// value, which must name a shell, a mode, or both.
pub open spec fn spec_parse_cli(args: Seq<String>) -> Result<(Option<(Option<Seq<char>>, AutoCompleteMode)>, Seq<Seq<char>>), CliError> {
    let rest = rest_args(args);
    if !rest.contains(auto_complete_flag()) {
        Ok((None, rest))
    } else if rest == seq![auto_complete_flag()] {
        Ok((Some((None, AutoCompleteMode::Install)), Seq::empty()))
    } else if rest.len() == 2 && rest[0] == auto_complete_flag() {
        match spec_parse_auto_complete_value(rest[1]) {
            Some(a) => Ok((Some(a), Seq::empty())),
            None => Err(CliError::InvalidAutoCompleteArg(args[2])),
        }
    } else {
        Err(CliError::AutoCompleteWithOtherArgs)
    }
}

pub open spec fn options_view(o: CliOptions) -> (Option<(Option<Seq<char>>, AutoCompleteMode)>, Seq<Seq<char>>) {
    (match o.auto_complete {
        Some(a) => Some(arg_view(a)),
        None => None,
    }, arg_seqs(o.args@))
}

pub fn parse_cli(args: &Vec<String>) -> (r: Result<CliOptions, CliError>)
    ensures
        match (r, spec_parse_cli(args@)) {
            (Ok(o), Ok(v)) => options_view(o) == v,
            (Err(e), Err(f)) => e == f,
            _ => false,
        },
{
    let ghost rest = rest_args(args@);
    let flag = vec!['-', '-', 'a', 'u', 't', 'o', '-', 'c', 'o', 'm', 'p', 'l', 'e', 't', 'e'];
    assert(flag@ == auto_complete_flag());
    let mut found = false;
    let mut rest_vec: Vec<String> = Vec::new();
    let mut i: usize = 1;
    assert(rest.take(0) =~= Seq::<Seq<char>>::empty());
    while i < args.len()
        invariant
            1 <= i,
            i <= args.len() || (args.len() == 0 && i == 1),
            rest == rest_args(args@),
            flag@ == auto_complete_flag(),
            arg_seqs(rest_vec@) == rest.take(i - 1),
            found == rest.take(i - 1).contains(auto_complete_flag()),
        decreases args.len() - i,
    {
        assert(rest.take(i as int) == rest.take(i - 1).push(args@[i as int]@));
        let a = chars_of(args[i].as_str());
        if eq_chars(&a, &flag) {
            found = true;
            assert(rest.take(i as int)[i - 1] == auto_complete_flag());
        } else {
            assert(found == rest.take(i as int).contains(auto_complete_flag())) by {
                if rest.take(i as int).contains(auto_complete_flag()) {
                    let j = choose|j: int| 0 <= j < rest.take(i as int).len() && rest.take(i as int)[j] == auto_complete_flag();
                    if j < i - 1 {
                        assert(rest.take(i - 1)[j] == auto_complete_flag());
                    }
                }
            }
        }
        let ghost before = arg_seqs(rest_vec@);
        rest_vec.push(string_of(&a));
        assert(arg_seqs(rest_vec@) == before.push(a@));
        i += 1;
    }
    proof {
        if args.len() > 0 {
            assert(rest.take(args.len() - 1) == rest);
        } else {
            assert(rest.take(0) == rest);
        }
    }
    if !found {
        return Ok(CliOptions { auto_complete: None, args: rest_vec });
    }
    if args.len() == 2 {
        assert(rest == seq![rest[0]]);
        assert(rest[0] == auto_complete_flag());
        return Ok(CliOptions { auto_complete: Some(AutoCompleteArg { shell: None, mode: AutoCompleteMode::Install }), args: Vec::new() });
    }
    if args.len() == 3 && eq_chars(&chars_of(args[1].as_str()), &flag) {
        assert(rest.len() == 2 && rest[0] == auto_complete_flag());
        assert(rest != seq![auto_complete_flag()]);
        assert(rest[1] == args@[2]@);
        return match parse_auto_complete_value(args[2].as_str()) {
            Some(a) => Ok(CliOptions { auto_complete: Some(a), args: Vec::new() }),
            None => Err(CliError::InvalidAutoCompleteArg(args[2].clone())),
        };
    }
    proof {
        if args.len() == 3 {
            assert(rest[0] == args@[1]@);
        }
    }
    Err(CliError::AutoCompleteWithOtherArgs)
}

} // verus!
