use vstd::prelude::*;
use crate::one_shot::{decimal, decimal_chars};
use crate::text::{chars_of, push_all, string_of};

verus! {

pub const MSG_HISTORY_DISABLED: &'static str =
    "Set a positive file-history-length in config to enable history";

pub const MSG_NO_FILE_HISTORY: &'static str = "No file history available";

pub const MSG_HISTORY_WRITE_FAILED: &'static str = "Failed to save file history";

pub const MSG_LOADING_FILE_HISTORY: &'static str = "Loading file history...";

pub const MSG_FILE_NO_LONGER_AVAILABLE: &'static str = "File no longer available";

/// A file that was opened, most recent first in the history.
#[derive(Clone, Debug, PartialEq, Eq)]
pub struct HistoryEntry {
    pub path: String,
}

pub open spec fn paths_of(entries: Seq<HistoryEntry>) -> Seq<Seq<char>> {
    entries.map_values(|e: HistoryEntry| e.path@)
}

/// The history after opening `path`: `path` first, then the earlier entries
/// other than `path` in their order, at most `capacity` entries in all.
/// Paths other than `path`.
pub open spec fn other_than(path: Seq<char>) -> spec_fn(Seq<char>) -> bool {
    |p: Seq<char>| p != path
}

pub open spec fn spec_record_open(paths: Seq<Seq<char>>, path: Seq<char>, capacity: nat) -> Seq<Seq<char>> {
    let moved = seq![path] + paths.filter(other_than(path));
    if moved.len() > capacity {
        moved.take(capacity as int)
    } else {
        moved
    }
}

/// Puts `path` at the front of the history, removes its earlier occurrences,
/// and keeps at most `capacity` entries.
pub fn record_open_entries(entries: Vec<HistoryEntry>, path: String, capacity: usize) -> (r: Vec<HistoryEntry>)
    ensures
        paths_of(r@) == spec_record_open(paths_of(entries@), path@, capacity as nat),
{
    let ghost pred = other_than(path@);
    let ghost orig = paths_of(entries@);
    let mut rest: Vec<HistoryEntry> = Vec::new();
    assert(orig.take(0).filter(pred) =~= Seq::<Seq<char>>::empty()) by {
        reveal_with_fuel(Seq::<_>::filter, 1);
    }
    for e in it: entries
        invariant
            paths_of(it.seq()) == orig,
            paths_of(rest@) == orig.take(it.index() as int).filter(pred),
            pred == other_than(path@),
    {
        let ghost k = it.index();
        assert(it.seq()[k as int] == e);
        assert(orig[k as int] == e.path@);
        assert(orig.take(k + 1).drop_last() == orig.take(k as int));
        assert(orig.take(k + 1).last() == e.path@);
        let keep = !(e.path == path);
        if keep {
            rest.push(e);
            assert(paths_of(rest@) == paths_of(rest@.drop_last()).push(e.path@));
        }
        proof {
            reveal_with_fuel(Seq::<_>::filter, 1);
        }
    }
    assert(orig.take(orig.len() as int) == orig);
    let ghost path_view = path@;
    let mut out: Vec<HistoryEntry> = Vec::new();
    out.push(HistoryEntry { path });
    out.append(&mut rest);
    assert(paths_of(out@) =~= seq![path_view] + paths_of(entries@).filter(pred));
    if out.len() > capacity {
        out.truncate(capacity);
        assert(paths_of(out@) =~= (seq![path_view] + paths_of(entries@).filter(pred)).take(capacity as int));
    }
    out
}

/// The history without the entries whose path is in `paths`, order kept.
pub open spec fn spec_remove_paths(entries: Seq<Seq<char>>, paths: Seq<Seq<char>>) -> Seq<Seq<char>> {
    entries.filter(|p: Seq<char>| !paths.contains(p))
}

fn contains_path(paths: &Vec<String>, p: &String) -> (r: bool)
    ensures
        r == paths@.map_values(|q: String| q@).contains(p@),
{
    let ghost views = paths@.map_values(|q: String| q@);
    let mut i: usize = 0;
    while i < paths.len()
        invariant
            i <= paths.len(),
            views == paths@.map_values(|q: String| q@),
            forall|j: int| 0 <= j < i ==> views[j] != p@,
        decreases paths.len() - i,
    {
        if paths[i] == *p {
            assert(views[i as int] == p@);
            return true;
        }
        i += 1;
    }
    false
}

/// Drops every history entry whose path is one of `paths`.
pub fn remove_paths_entries(entries: Vec<HistoryEntry>, paths: &Vec<String>) -> (r: Vec<HistoryEntry>)
    ensures
        paths_of(r@) == spec_remove_paths(paths_of(entries@), paths@.map_values(|q: String| q@)),
{
    let ghost views = paths@.map_values(|q: String| q@);
    let ghost pred = |p: Seq<char>| !views.contains(p);
    let ghost orig = paths_of(entries@);
    let mut kept: Vec<HistoryEntry> = Vec::new();
    assert(orig.take(0).filter(pred) =~= Seq::<Seq<char>>::empty()) by {
        reveal_with_fuel(Seq::<_>::filter, 1);
    }
    for e in it: entries
        invariant
            paths_of(it.seq()) == orig,
            views == paths@.map_values(|q: String| q@),
            paths_of(kept@) == orig.take(it.index() as int).filter(pred),
            pred == (|p: Seq<char>| !views.contains(p)),
    {
        let ghost k = it.index();
        assert(it.seq()[k as int] == e);
        assert(orig[k as int] == e.path@);
        assert(orig.take(k + 1).drop_last() == orig.take(k as int));
        assert(orig.take(k + 1).last() == e.path@);
        if !contains_path(paths, &e.path) {
            kept.push(e);
            assert(paths_of(kept@) == paths_of(kept@.drop_last()).push(e.path@));
        }
        proof {
            reveal_with_fuel(Seq::<_>::filter, 1);
        }
    }
    assert(orig.take(orig.len() as int) == orig);
    kept
}

/// `n` in decimal, with a minus sign when negative.
pub open spec fn signed_decimal(n: int) -> Seq<char> {
    if n < 0 {
        seq!['-'] + decimal((-n) as nat)
    } else {
        decimal(n as nat)
    }
}

/// The notice that the configured history length `was` exceeded the
/// largest allowed, `max`, and was lowered to it.
pub open spec fn spec_msg_history_capped(max: u64, was: i32) -> Seq<char> {
    "Config file-history-length was capped at "@ + decimal(max as nat) + " (was "@ + signed_decimal(was as int) + ")"@
}

pub fn msg_history_capped(max: u64, was: i32) -> (r: String)
    ensures
        r@ == spec_msg_history_capped(max, was),
{
    let mut out = chars_of("Config file-history-length was capped at ");
    push_all(&mut out, &decimal_chars(max));
    push_all(&mut out, &chars_of(" (was "));
    if was < 0 {
        out.push('-');
        let magnitude: u64 = if was == i32::MIN { 2147483648 } else { (-was) as u64 };
        push_all(&mut out, &decimal_chars(magnitude));
    } else {
        push_all(&mut out, &decimal_chars(was as u64));
    }
    push_all(&mut out, &chars_of(")"));
    proof {
        let head = "Config file-history-length was capped at "@ + decimal(max as nat) + " (was "@;
        if was < 0 {
            assert(out@ =~= head + (seq!['-'] + decimal((-(was as int)) as nat)) + ")"@);
        } else {
            assert(out@ =~= head + decimal(was as nat) + ")"@);
        }
    }
    string_of(&out)
}

} // verus!
