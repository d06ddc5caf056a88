use vstd::prelude::*;
use crate::app::{App, PickerKind};
use crate::history::{other_than, HistoryEntry, MSG_HISTORY_DISABLED, MSG_NO_FILE_HISTORY, MSG_FILE_NO_LONGER_AVAILABLE};
use crate::paths::{path_file_name, spec_file_name};
use crate::width::all_ascii;
use crate::text::{ascii_lower_seq, chars_of, string_of, to_lowercase_string, trim_chars, trimmed, unicode_lowercase};

verus! {

/// A fuzzy match of the query against a file name: its score (lower ranks
/// first) and the matched character positions.
pub struct FuzzyMatch {
    pub score: u64,
    pub positions: Vec<usize>,
}

/// The state of the file-history picker.
pub struct HistoryPickerState {
    pub open: bool,
    pub entries: Vec<HistoryEntry>,
    /// The lower-cased file name of each entry, matched against the query.
    pub filenames_lower: Vec<String>,
    /// Indices into `entries` of the rows shown, in display order.
    pub filtered: Vec<usize>,
    /// Matched positions for each shown row; empty when no query is typed.
    pub match_positions: Vec<Vec<usize>>,
    pub query: String,
    /// The selected row, an index into `filtered`.
    pub index: usize,
    pub error: Option<String>,
    pub activation_error: Option<String>,
}

/// The lower-cased file name under which an entry is matched; empty for a
/// path without a file name.
pub open spec fn lowered_file_name(path: Seq<char>, windows: bool) -> Seq<char> {
    match spec_file_name(path, windows) {
        Some(n) => unicode_lowercase(n),
        None => Seq::empty(),
    }
}

/// The query as it is matched: trimmed, then lower-cased; for ASCII text,
/// each letter `A` to `Z` becomes `a` to `z`.
pub open spec fn normalized_query(q: Seq<char>) -> Seq<char> {
    if all_ascii(trimmed(q)) {
        ascii_lower_seq(trimmed(q))
    } else {
        unicode_lowercase(trimmed(q))
    }
}

/// Whether entry `a` ranks before entry `b`: lower score first, then lower
/// index.
pub open spec fn ranks_before(results: Seq<Option<FuzzyMatch>>, a: usize, b: usize) -> bool {
    results[a as int]->0.score < results[b as int]->0.score || (results[a as int]->0.score
        == results[b as int]->0.score && a < b)
}

/// `filtered` lists exactly the entries that matched, best first, and
/// `positions` gives each one's matched positions.
pub open spec fn ranked_matches(
    results: Seq<Option<FuzzyMatch>>,
    filtered: Seq<usize>,
    positions: Seq<Vec<usize>>,
) -> bool {
    &&& forall|j: int| 0 <= j < filtered.len() ==> (#[trigger] filtered[j]) < results.len()
        && results[filtered[j] as int] is Some
    &&& forall|i: int| 0 <= i < results.len() && (#[trigger] results[i]) is Some ==> exists|j: int|
        0 <= j < filtered.len() && filtered[j] == i
    &&& forall|j: int, k: int|
        0 <= j < k < filtered.len() ==> ranks_before(results, #[trigger] filtered[j], #[trigger] filtered[k])
    &&& positions.len() == filtered.len()
    &&& forall|j: int| 0 <= j < positions.len() ==> (#[trigger] positions[j])@ == results[filtered[j] as int]->0.positions@
}

/// Whether `matcher`, given the file name `name` and the query `query`,
/// may answer `result`.
pub open spec fn matcher_gave<F: Fn(&str, &str) -> Option<FuzzyMatch>>(
    matcher: F,
    name: Seq<char>,
    query: Seq<char>,
    result: Option<FuzzyMatch>,
) -> bool {
    exists|a: &str, b: &str| a@ == name && b@ == query && #[trigger] matcher.ensures((a, b), result)
}

/// The rows a picker over the file names `names` shows for the query
/// `query`: every entry when the trimmed, lower-cased query is empty;
/// otherwise the entries that `matcher` accepted, best first. The selection
/// `index_before` is kept while it points at a row.
pub open spec fn rows_for_query<F: Fn(&str, &str) -> Option<FuzzyMatch>>(
    matcher: F,
    names: Seq<String>,
    query: Seq<char>,
    index_before: usize,
    hp: HistoryPickerState,
) -> bool {
    &&& normalized_query(query).len() == 0 ==> {
        &&& hp.filtered@ == all_rows(names.len())
        &&& hp.match_positions@.len() == 0
    }
    &&& normalized_query(query).len() > 0 ==> exists|results: Seq<Option<FuzzyMatch>>|
        {
            &&& results.len() == names.len()
            &&& forall|i: int|
                0 <= i < results.len() ==> matcher_gave(matcher, names[i]@, normalized_query(query), #[trigger] results[i])
            &&& ranked_matches(results, hp.filtered@, hp.match_positions@)
        }
    &&& hp.index == spec_reset_index(index_before, hp.filtered@.len())
}

/// The selection one row up, wrapping from the first row to the last.
pub open spec fn spec_index_up(i: usize, total: nat) -> usize {
    if total == 0 {
        i
    } else if i == 0 {
        (total - 1) as usize
    } else {
        (i - 1) as usize
    }
}

/// The selection one row down, wrapping from the last row to the first.
pub open spec fn spec_index_down(i: usize, total: nat) -> usize {
    if total == 0 {
        i
    } else {
        ((i + 1) % (total as int)) as usize
    }
}

/// The selection after the rows change: kept while it still points at a row,
/// otherwise back to the first row.
pub open spec fn spec_reset_index(index: usize, rows: nat) -> usize {
    if rows == 0 || index >= rows {
        0
    } else {
        index
    }
}

impl HistoryPickerState {
    /// The file names line up with the entries, the rows point at entries,
    /// and the selection points at a row (or is 0 when there is none).
    pub open spec fn wf(&self) -> bool {
        &&& self.filenames_lower@.len() == self.entries@.len()
        &&& forall|j: int| 0 <= j < self.filtered@.len() ==> #[trigger] self.filtered@[j] < self.entries@.len()
        &&& (self.filtered@.len() == 0 ==> self.index == 0)
        &&& (self.filtered@.len() > 0 ==> self.index < self.filtered@.len())
    }

    /// The closed picker with nothing loaded.
    pub open spec fn is_empty_state(&self) -> bool {
        &&& !self.open
        &&& self.entries@.len() == 0
        &&& self.filenames_lower@.len() == 0
        &&& self.filtered@.len() == 0
        &&& self.match_positions@.len() == 0
        &&& self.query@.len() == 0
        &&& self.index == 0
        &&& self.error is None
        &&& self.activation_error is None
    }

    pub fn new() -> (r: HistoryPickerState)
        ensures
            r.wf(),
            r.is_empty_state(),
    {
        HistoryPickerState {
            open: false,
            entries: Vec::new(),
            filenames_lower: Vec::new(),
            filtered: Vec::new(),
            match_positions: Vec::new(),
            query: String::new(),
            index: 0,
            error: None,
            activation_error: None,
        }
    }
}

proof fn lemma_insert_ranked(
    results: Seq<Option<FuzzyMatch>>,
    i: usize,
    f0: Seq<usize>,
    s0: Seq<u64>,
    p0: Seq<Vec<usize>>,
    pos: int,
    score: u64,
    mp: Vec<usize>,
)
    requires
        i < results.len(),
        results[i as int] is Some,
        results[i as int]->0.score == score,
        results[i as int]->0.positions@ == mp@,
        s0.len() == f0.len(),
        0 <= pos <= f0.len(),
        ranked_matches(results.take(i as int), f0, p0),
        forall|j: int| 0 <= j < f0.len() ==> #[trigger] s0[j] == results[f0[j] as int]->0.score,
        forall|j: int| 0 <= j < pos ==> #[trigger] s0[j] <= score,
        forall|j: int| pos <= j < f0.len() ==> #[trigger] s0[j] > score,
    ensures
        ranked_matches(results.take(i + 1), f0.insert(pos, i), p0.insert(pos, mp)),
        forall|j: int| 0 <= j < f0.len() + 1 ==> #[trigger] s0.insert(pos, score)[j] == results[f0.insert(pos, i)[j] as int]->0.score,
{
    let pre = results.take(i as int);
    let post = results.take(i + 1);
    let f1 = f0.insert(pos, i);
    let p1 = p0.insert(pos, mp);
    assert forall|j: int| 0 <= j < f0.len() implies (#[trigger] f0[j]) < i && pre[f0[j] as int] == results[f0[j] as int] && post[f0[j] as int] == results[f0[j] as int] by {
        assert(f0[j] < pre.len());
    }
    assert forall|j: int| 0 <= j < f1.len() implies (#[trigger] f1[j]) < post.len() && post[f1[j] as int] is Some by {
        if j < pos {
            assert(f1[j] == f0[j]);
        } else if j > pos {
            assert(f1[j] == f0[j - 1]);
        }
    }
    assert forall|x: int| 0 <= x < post.len() && (#[trigger] post[x]) is Some implies exists|j: int|
        0 <= j < f1.len() && f1[j] == x by {
        if x == i {
            assert(f1[pos] == x);
        } else {
            assert(pre[x] == post[x]);
            let j0 = choose|j0: int| 0 <= j0 < f0.len() && f0[j0] == x;
            if j0 < pos {
                assert(f1[j0] == x);
            } else {
                assert(f1[j0 + 1] == x);
            }
        }
    }
    assert forall|j: int, k: int| 0 <= j < k < f1.len() implies ranks_before(post, #[trigger] f1[j], #[trigger] f1[k]) by {
        if j < pos && k < pos {
            assert(ranks_before(pre, f0[j], f0[k]));
        } else if j < pos && k == pos {
            assert(s0[j] <= score);
        } else if j < pos && k > pos {
            assert(ranks_before(pre, f0[j], f0[k - 1]));
        } else if j == pos {
            assert(s0[k - 1] > score);
        } else {
            assert(ranks_before(pre, f0[j - 1], f0[k - 1]));
        }
    }
    assert forall|j: int| 0 <= j < p1.len() implies (#[trigger] p1[j])@ == post[f1[j] as int]->0.positions@ by {
        if j < pos {
            assert(p1[j] == p0[j]);
        } else if j > pos {
            assert(p1[j] == p0[j - 1]);
        }
    }
    assert forall|j: int| 0 <= j < f0.len() + 1 implies #[trigger] s0.insert(pos, score)[j] == results[f1[j] as int]->0.score by {
        if j < pos {
            assert(s0.insert(pos, score)[j] == s0[j]);
        } else if j > pos {
            assert(s0.insert(pos, score)[j] == s0[j - 1]);
        }
    }
}

/// Inserts entry `i`, which follows every entry already ranked, at its place.
fn insert_ranked(
    filtered: &mut Vec<usize>,
    scores: &mut Vec<u64>,
    positions: &mut Vec<Vec<usize>>,
    i: usize,
    m: FuzzyMatch,
    Ghost(results): Ghost<Seq<Option<FuzzyMatch>>>,
)
    requires
        i < results.len(),
        results[i as int] == Some(m),
        old(scores)@.len() == old(filtered)@.len(),
        ranked_matches(results.take(i as int), old(filtered)@, old(positions)@),
        forall|j: int| 0 <= j < old(filtered)@.len() ==> #[trigger] old(scores)@[j] == results[old(filtered)@[j] as int]->0.score,
    ensures
        final(scores)@.len() == final(filtered)@.len(),
        ranked_matches(results.take(i + 1), final(filtered)@, final(positions)@),
        forall|j: int| 0 <= j < final(filtered)@.len() ==> #[trigger] final(scores)@[j] == results[final(filtered)@[j] as int]->0.score,
{
    let ghost f0 = filtered@;
    let ghost s0 = scores@;
    let ghost p0 = positions@;
    let mut pos: usize = 0;
    while pos < scores.len() && scores[pos] <= m.score
        invariant
            pos <= scores@.len(),
            scores@ == s0,
            s0.len() == f0.len(),
            forall|j: int| 0 <= j < pos ==> #[trigger] s0[j] <= m.score,
        decreases scores.len() - pos,
    {
        pos += 1;
    }
    proof {
        let pre = results.take(i as int);
        assert forall|j: int| pos <= j < f0.len() implies #[trigger] s0[j] > m.score by {
            if j > pos {
                assert(ranks_before(pre, f0[pos as int], f0[j]));
                assert(pre[f0[pos as int] as int] == results[f0[pos as int] as int]);
                assert(pre[f0[j] as int] == results[f0[j] as int]);
            }
        }
        lemma_insert_ranked(results, i, f0, s0, p0, pos as int, m.score, m.positions);
    }
    filtered.insert(pos, i);
    scores.insert(pos, m.score);
    positions.insert(pos, m.positions);
}

pub open spec fn string_views(v: Seq<String>) -> Seq<Seq<char>> {
    v.map_values(|s: String| s@)
}

pub open spec fn opt_view(o: Option<String>) -> Option<Seq<char>> {
    match o {
        Some(s) => Some(s@),
        None => None,
    }
}

/// The rows of a picker with no query: every entry, in history order.
pub open spec fn all_rows(n: nat) -> Seq<usize> {
    Seq::new(n, |i: int| i as usize)
}

/// The history picker as `install_loaded_history_picker` leaves it, given the
/// loaded entries and the history capacity.
pub open spec fn installed_picker(p: HistoryPickerState, loaded: Seq<HistoryEntry>, capacity: usize, windows: bool) -> bool {
    let kept = if loaded.len() > capacity {
        loaded.take(capacity as int)
    } else {
        loaded
    };
    &&& p.entries@ == kept
    &&& p.filenames_lower@.len() == kept.len()
    &&& forall|i: int| 0 <= i < kept.len() ==> (#[trigger] p.filenames_lower@[i])@ == lowered_file_name(kept[i].path@, windows)
    &&& p.query@.len() == 0
    &&& p.index == 0
    &&& opt_view(p.error) == (if capacity == 0 {
        Some(MSG_HISTORY_DISABLED@)
    } else if kept.len() == 0 {
        Some(MSG_NO_FILE_HISTORY@)
    } else {
        None
    })
    &&& p.open
    &&& p.filtered@ == all_rows(kept.len())
    &&& p.match_positions@.len() == 0
}

/// The number of history entries kept: the configured length when it is
/// positive, else none.
pub open spec fn spec_history_capacity(len: Option<i32>) -> usize {
    match len {
        Some(n) => if n > 0 {
            n as usize
        } else {
            0
        },
        None => 0,
    }
}

impl App {
    pub fn queue_history_picker(&mut self)
        ensures
            (App { pending_picker: Some(PickerKind::History), ..*old(self) }) == *final(self),
    {
        self.pending_picker = Some(PickerKind::History);
    }

    pub fn is_history_picker_open(&self) -> (r: bool)
        ensures
            r == self.history_picker.open,
    {
        self.history_picker.open
    }

    pub fn has_pending_picker(&self) -> (r: bool)
        ensures
            r == self.pending_picker is Some,
    {
        self.pending_picker.is_some()
    }

    pub fn is_picker_loading(&self) -> (r: bool)
        ensures
            r == self.picker_loading is Some,
    {
        self.picker_loading.is_some()
    }

    pub fn is_history_picker_loading(&self) -> (r: bool)
        ensures
            r == (self.picker_loading == Some(PickerKind::History)),
    {
        match self.picker_loading {
            Some(PickerKind::History) => true,
            _ => false,
        }
    }

    pub fn is_file_picker_open(&self) -> (r: bool)
        ensures
            r == self.file_picker_open,
    {
        self.file_picker_open
    }

    /// Stops loading a picker and drops the width-floor notice.
    pub fn cancel_picker_loading(&mut self)
        ensures
            (App { picker_loading: None, picker_width_floor_active: false, ..*old(self) }) == *final(self),
    {
        self.picker_loading = None;
        self.picker_width_floor_active = false;
    }

    /// Whether any picker is asked for, loading or open.
    pub fn is_any_picker_active(&self) -> (r: bool)
        ensures
            r == (self.pending_picker is Some || self.picker_loading is Some || self.file_picker_open
                || self.history_picker.open),
    {
        self.has_pending_picker() || self.is_picker_loading() || self.is_file_picker_open()
            || self.is_history_picker_open()
    }

    /// Closes the history picker, forgetting its state, cancels loading it,
    /// and drops the width-floor notice.
    pub fn close_history_picker(&mut self)
        requires
            old(self).wf(),
        ensures
            final(self).wf(),
            final(self).history_picker.is_empty_state(),
            (App {
                history_picker: final(self).history_picker,
                picker_loading: if old(self).picker_loading == Some(PickerKind::History) {
                    None
                } else {
                    old(self).picker_loading
                },
                picker_width_floor_active: false,
                ..*old(self)
            }) == *final(self),
    {
        self.history_picker = HistoryPickerState::new();
        if self.is_history_picker_loading() {
            self.cancel_picker_loading();
        }
        self.picker_width_floor_active = false;
    }

    /// How many history entries are kept and shown.
    pub fn history_capacity(&self) -> (r: usize)
        ensures
            r == spec_history_capacity(self.file_history_length),
    {
        match self.file_history_length {
            Some(n) => if n > 0 {
                n as usize
            } else {
                0
            },
            None => 0,
        }
    }

    /// Shows every entry, unfiltered, and keeps the selection on a row.
    fn show_all_history_rows(&mut self)
        requires
            old(self).wf(),
        ensures
            final(self).wf(),
            final(self).history_picker.filtered@ == all_rows(old(self).history_picker.entries@.len()),
            final(self).history_picker.match_positions@.len() == 0,
            final(self).history_picker.index == spec_reset_index(old(self).history_picker.index, old(self).history_picker.entries@.len()),
            (App {
                history_picker: HistoryPickerState {
                    filtered: final(self).history_picker.filtered,
                    match_positions: final(self).history_picker.match_positions,
                    index: final(self).history_picker.index,
                    ..old(self).history_picker
                },
                ..*old(self)
            }) == *final(self),
    {
        let total = self.history_picker.entries.len();
        let mut rows: Vec<usize> = Vec::new();
        let mut i: usize = 0;
        while i < total
            invariant
                i <= total,
                rows@ == all_rows(i as nat),
            decreases total - i,
        {
            rows.push(i);
            assert(rows@ == all_rows((i + 1) as nat));
            i += 1;
        }
        self.history_picker.filtered = rows;
        self.history_picker.match_positions = Vec::new();
        if self.history_picker.filtered.len() == 0 || self.history_picker.index >= self.history_picker.filtered.len() {
            self.history_picker.index = 0;
        }
    }

    /// Opens the history picker on `entries`, cut to the history capacity,
    /// with an empty query and the first row selected; an empty or disabled
    /// history carries its message.
    pub fn install_loaded_history_picker(&mut self, entries: Vec<HistoryEntry>)
        requires
            old(self).wf(),
        ensures
            final(self).wf(),
            installed_picker(
                final(self).history_picker,
                entries@,
                spec_history_capacity(old(self).file_history_length),
                old(self).windows_paths,
            ),
            final(self).history_picker.activation_error == old(self).history_picker.activation_error,
            (App { history_picker: final(self).history_picker, ..*old(self) }) == *final(self),
    {
        let capacity = self.history_capacity();
        let mut entries = entries;
        let ghost loaded = entries@;
        entries.truncate(capacity);
        let ghost kept = entries@;
        assert(kept == if loaded.len() > capacity { loaded.take(capacity as int) } else { loaded });
        let mut names: Vec<String> = Vec::new();
        let mut i: usize = 0;
        while i < entries.len()
            invariant
                i <= entries.len(),
                entries@ == kept,
                names@.len() == i,
                forall|k: int| 0 <= k < i ==> (#[trigger] names@[k])@ == lowered_file_name(kept[k].path@, self.windows_paths),
            decreases entries.len() - i,
        {
            let name = match path_file_name(entries[i].path.as_str(), self.windows_paths) {
                Some(n) => to_lowercase_string(n.as_str()),
                None => String::new(),
            };
            names.push(name);
            i += 1;
        }
        self.history_picker.filenames_lower = names;
        self.history_picker.entries = entries;
        self.history_picker.query = String::new();
        self.history_picker.index = 0;
        self.history_picker.error = if capacity == 0 {
            Some(String::from_str(MSG_HISTORY_DISABLED))
        } else if self.history_picker.entries.len() == 0 {
            Some(String::from_str(MSG_NO_FILE_HISTORY))
        } else {
            None
        };
        self.history_picker.open = true;
        self.history_picker.filtered = Vec::new();
        self.show_all_history_rows();
    }

    pub fn history_picker_entries(&self) -> (r: &[HistoryEntry])
        ensures
            r@ == self.history_picker.entries@,
    {
        self.history_picker.entries.as_slice()
    }

    pub fn history_picker_filtered_indices(&self) -> (r: &[usize])
        ensures
            r@ == self.history_picker.filtered@,
    {
        self.history_picker.filtered.as_slice()
    }

    /// The matched positions of row `filtered_idx`; none for a row without
    /// recorded positions.
    pub fn history_picker_match_positions(&self, filtered_idx: usize) -> (r: &[usize])
        ensures
            filtered_idx < self.history_picker.match_positions@.len() ==> r@ == self.history_picker.match_positions@[filtered_idx as int]@,
            filtered_idx >= self.history_picker.match_positions@.len() ==> r@.len() == 0,
    {
        if filtered_idx < self.history_picker.match_positions.len() {
            self.history_picker.match_positions[filtered_idx].as_slice()
        } else {
            &[]
        }
    }

    pub fn history_picker_index(&self) -> (r: usize)
        ensures
            r == self.history_picker.index,
    {
        self.history_picker.index
    }

    pub fn history_picker_query(&self) -> (r: &str)
        ensures
            r@ == self.history_picker.query@,
    {
        self.history_picker.query.as_str()
    }

    pub fn history_picker_error(&self) -> (r: Option<&str>)
        ensures
            r matches Some(e) ==> self.history_picker.error matches Some(s) && e@ == s@,
            r is None ==> self.history_picker.error is None,
    {
        match &self.history_picker.error {
            Some(s) => Some(s.as_str()),
            None => None,
        }
    }

    pub fn history_picker_activation_error(&self) -> (r: Option<&str>)
        ensures
            r matches Some(e) ==> self.history_picker.activation_error matches Some(s) && e@ == s@,
            r is None ==> self.history_picker.activation_error is None,
    {
        match &self.history_picker.activation_error {
            Some(s) => Some(s.as_str()),
            None => None,
        }
    }

    /// Moves the selection one row up, wrapping from the first row to the
    /// last, and clears the activation error.
    pub fn move_history_picker_up(&mut self)
        requires
            old(self).wf(),
        ensures
            final(self).wf(),
            ({
                let total = old(self).history_picker.filtered@.len();
                let i = old(self).history_picker.index;
                (App {
                    history_picker: HistoryPickerState {
                        activation_error: None,
                        index: spec_index_up(i, total),
                        ..old(self).history_picker
                    },
                    ..*old(self)
                }) == *final(self)
            }),
    {
        self.history_picker.activation_error = None;
        let total = self.history_picker.filtered.len();
        if total == 0 {
            return;
        }
        if self.history_picker.index == 0 {
            self.history_picker.index = total - 1;
        } else {
            self.history_picker.index -= 1;
        }
    }

    /// Moves the selection one row down, wrapping from the last row to the
    /// first, and clears the activation error.
    pub fn move_history_picker_down(&mut self)
        requires
            old(self).wf(),
        ensures
            final(self).wf(),
            ({
                let total = old(self).history_picker.filtered@.len();
                let i = old(self).history_picker.index;
                (App {
                    history_picker: HistoryPickerState {
                        activation_error: None,
                        index: spec_index_down(i, total),
                        ..old(self).history_picker
                    },
                    ..*old(self)
                }) == *final(self)
            }),
    {
        self.history_picker.activation_error = None;
        let total = self.history_picker.filtered.len();
        if total == 0 {
            return;
        }
        self.history_picker.index = (self.history_picker.index + 1) % total;
    }

    /// Replaces the rows with the entries that matched, best first, and
    /// keeps the selection on a row. `results` holds, for each entry, its
    /// match against the query, if any.
    pub fn apply_history_picker_matches(&mut self, results: Vec<Option<FuzzyMatch>>)
        requires
            old(self).wf(),
            results@.len() == old(self).history_picker.entries@.len(),
        ensures
            final(self).wf(),
            ranked_matches(results@, final(self).history_picker.filtered@, final(self).history_picker.match_positions@),
            final(self).history_picker.index == spec_reset_index(old(self).history_picker.index, final(self).history_picker.filtered@.len()),
            (App {
                history_picker: HistoryPickerState {
                    filtered: final(self).history_picker.filtered,
                    match_positions: final(self).history_picker.match_positions,
                    index: final(self).history_picker.index,
                    ..old(self).history_picker
                },
                ..*old(self)
            }) == *final(self),
    {
        let ghost rs = results@;
        let n = results.len();
        let mut filtered: Vec<usize> = Vec::new();
        let mut scores: Vec<u64> = Vec::new();
        let mut positions: Vec<Vec<usize>> = Vec::new();
        let mut i: usize = 0;
        assert(rs.take(0) =~= Seq::<Option<FuzzyMatch>>::empty());
        for r in it: results
            invariant
                it.seq() == rs,
                i == it.index(),
                i <= rs.len(),
                n == rs.len(),
                scores@.len() == filtered@.len(),
                ranked_matches(rs.take(i as int), filtered@, positions@),
                forall|j: int| 0 <= j < filtered@.len() ==> #[trigger] scores@[j] == rs[filtered@[j] as int]->0.score,
        {
            assert(i < rs.len());
            assert(rs[i as int] == r);
            match r {
                Some(m) => {
                    insert_ranked(&mut filtered, &mut scores, &mut positions, i, m, Ghost(rs));
                },
                None => {
                    proof {
                        let pre = rs.take(i as int);
                        let post = rs.take(i + 1);
                        assert forall|j: int| 0 <= j < filtered@.len() implies (#[trigger] filtered@[j]) < post.len()
                            && post[filtered@[j] as int] is Some && post[filtered@[j] as int] == pre[filtered@[j] as int] by {}
                        assert forall|x: int| 0 <= x < post.len() && (#[trigger] post[x]) is Some implies exists|j: int|
                            0 <= j < filtered@.len() && filtered@[j] == x by {
                            assert(pre[x] == post[x]);
                        }
                        assert forall|j: int, k: int| 0 <= j < k < filtered@.len() implies ranks_before(post, #[trigger] filtered@[j], #[trigger] filtered@[k]) by {
                            assert(ranks_before(pre, filtered@[j], filtered@[k]));
                        }
                    }
                },
            }
            i += 1;
        }
        assert(rs.take(rs.len() as int) == rs);
        self.history_picker.filtered = filtered;
        self.history_picker.match_positions = positions;
        if self.history_picker.filtered.len() == 0 || self.history_picker.index >= self.history_picker.filtered.len() {
            self.history_picker.index = 0;
        }
    }

    /// Recomputes the rows for the current query: every entry when the
    /// trimmed, lower-cased query is empty; otherwise the entries whose file
    /// name `matcher` accepts, best match first. The selection stays on a row.
    pub fn refresh_history_picker_matches<F: Fn(&str, &str) -> Option<FuzzyMatch>>(&mut self, matcher: &F)
        requires
            old(self).wf(),
            forall|a: &str, b: &str| #[trigger] matcher.requires((a, b)),
        ensures
            final(self).wf(),
            trimmed(old(self).history_picker.query@).len() == 0 ==> normalized_query(old(self).history_picker.query@).len() == 0,
            rows_for_query(
                *matcher,
                old(self).history_picker.filenames_lower@,
                old(self).history_picker.query@,
                old(self).history_picker.index,
                final(self).history_picker,
            ),
            (App {
                history_picker: HistoryPickerState {
                    filtered: final(self).history_picker.filtered,
                    match_positions: final(self).history_picker.match_positions,
                    index: final(self).history_picker.index,
                    ..old(self).history_picker
                },
                ..*old(self)
            }) == *final(self),
    {
        let raw = chars_of(self.history_picker.query.as_str());
        let trimmed_query = string_of(&trim_chars(&raw));
        let query = to_lowercase_string(trimmed_query.as_str());
        if query.as_str().is_empty() {
            self.show_all_history_rows();
            return;
        }
        proof {
            assert(query@.len() > 0);
        }
        let total = self.history_picker.entries.len();
        let mut results: Vec<Option<FuzzyMatch>> = Vec::new();
        let mut i: usize = 0;
        while i < total
            invariant
                i <= total,
                total == self.history_picker.entries@.len(),
                self.history_picker.filenames_lower@.len() == total,
                results@.len() == i,
                forall|a: &str, b: &str| #[trigger] matcher.requires((a, b)),
                query@ == normalized_query(self.history_picker.query@),
                forall|k: int|
                    0 <= k < i ==> matcher_gave(
                        *matcher,
                        self.history_picker.filenames_lower@[k]@,
                        query@,
                        #[trigger] results@[k],
                    ),
            decreases total - i,
        {
            let name = self.history_picker.filenames_lower[i].as_str();
            let q = query.as_str();
            let r = matcher(name, q);
            assert(matcher_gave(*matcher, self.history_picker.filenames_lower@[i as int]@, query@, r));
            results.push(r);
            i += 1;
        }
        let ghost rs = results@;
        self.apply_history_picker_matches(results);
        assert(ranked_matches(rs, self.history_picker.filtered@, self.history_picker.match_positions@));
    }

    /// Types `ch` into the query and recomputes the rows.
    pub fn push_history_picker_query<F: Fn(&str, &str) -> Option<FuzzyMatch>>(&mut self, ch: char, matcher: &F)
        requires
            old(self).wf(),
            forall|a: &str, b: &str| #[trigger] matcher.requires((a, b)),
        ensures
            final(self).wf(),
            final(self).history_picker.query@ == old(self).history_picker.query@.push(ch),
            final(self).history_picker.activation_error is None,
            final(self).history_picker.entries == old(self).history_picker.entries,
            final(self).history_picker.filenames_lower == old(self).history_picker.filenames_lower,
            rows_for_query(
                *matcher,
                old(self).history_picker.filenames_lower@,
                old(self).history_picker.query@.push(ch),
                old(self).history_picker.index,
                final(self).history_picker,
            ),
    {
        self.history_picker.activation_error = None;
        self.history_picker.query.push(ch);
        self.refresh_history_picker_matches(matcher);
    }

    /// Deletes the last character of the query, if any, and recomputes the
    /// rows.
    pub fn pop_history_picker_query<F: Fn(&str, &str) -> Option<FuzzyMatch>>(&mut self, matcher: &F)
        requires
            old(self).wf(),
            forall|a: &str, b: &str| #[trigger] matcher.requires((a, b)),
        ensures
            final(self).wf(),
            final(self).history_picker.query@ == if old(self).history_picker.query@.len() > 0 {
                old(self).history_picker.query@.drop_last()
            } else {
                old(self).history_picker.query@
            },
            final(self).history_picker.activation_error is None,
            final(self).history_picker.entries == old(self).history_picker.entries,
            final(self).history_picker.filenames_lower == old(self).history_picker.filenames_lower,
            rows_for_query(
                *matcher,
                old(self).history_picker.filenames_lower@,
                final(self).history_picker.query@,
                old(self).history_picker.index,
                final(self).history_picker,
            ),
    {
        self.history_picker.activation_error = None;
        self.history_picker.query.pop();
        self.refresh_history_picker_matches(matcher);
    }

    /// Empties the query; every entry is shown again.
    pub fn clear_history_picker_query<F: Fn(&str, &str) -> Option<FuzzyMatch>>(&mut self, matcher: &F)
        requires
            old(self).wf(),
            forall|a: &str, b: &str| #[trigger] matcher.requires((a, b)),
        ensures
            final(self).wf(),
            final(self).history_picker.query@.len() == 0,
            final(self).history_picker.activation_error is None,
            final(self).history_picker.entries == old(self).history_picker.entries,
            final(self).history_picker.filtered@ == all_rows(old(self).history_picker.entries@.len()),
            final(self).history_picker.match_positions@.len() == 0,
    {
        self.history_picker.activation_error = None;
        self.history_picker.query = String::new();
        self.refresh_history_picker_matches(matcher);
    }

    /// The path of the selected history entry, if a row is selected.
    pub fn history_picker_selected_path(&self) -> (r: Option<String>)
        ensures
            ({
                let hp = self.history_picker;
                let i = hp.index;
                if i < hp.filtered@.len() && hp.filtered@[i as int] < hp.entries@.len() {
                    r matches Some(p) && p@ == hp.entries@[hp.filtered@[i as int] as int].path@
                } else {
                    r is None
                }
            }),
    {
        if self.history_picker.index >= self.history_picker.filtered.len() {
            return None;
        }
        let idx = self.history_picker.filtered[self.history_picker.index];
        if idx >= self.history_picker.entries.len() {
            return None;
        }
        Some(self.history_picker.entries[idx].path.clone())
    }

    /// Finishes opening the selected history entry at `path`. When the file
    /// was `loaded`, it is no longer pending removal, the paths still pending
    /// are returned for removal from the history, and the picker closes.
    /// Otherwise the path is marked for removal (once) and the picker shows
    /// that the file is no longer available; `None` is returned.
    pub fn complete_history_picker_activation(&mut self, path: String, loaded: bool) -> (r: Option<Vec<String>>)
        requires
            old(self).wf(),
        ensures
            final(self).wf(),
            ({
                let pending = string_views(old(self).history_pending_removals@);
                if loaded {
                    &&& r matches Some(v) && string_views(v@) == pending.filter(other_than(path@))
                    &&& final(self).history_pending_removals@.len() == 0
                    &&& final(self).history_picker.is_empty_state()
                    &&& final(self).picker_loading == (if old(self).picker_loading == Some(PickerKind::History) {
                        None
                    } else {
                        old(self).picker_loading
                    })
                    &&& !final(self).picker_width_floor_active
                } else {
                    &&& r is None
                    &&& string_views(final(self).history_pending_removals@) == (if pending.contains(path@) {
                        pending
                    } else {
                        pending.push(path@)
                    })
                    &&& opt_view(final(self).history_picker.activation_error) == Some(MSG_FILE_NO_LONGER_AVAILABLE@)
                    &&& final(self).history_picker.entries == old(self).history_picker.entries
                    &&& final(self).history_picker.filtered == old(self).history_picker.filtered
                    &&& final(self).history_picker.index == old(self).history_picker.index
                }
            }),
    {
        let ghost pending = string_views(self.history_pending_removals@);
        if loaded {
            let ghost pred = other_than(path@);
            let mut kept: Vec<String> = Vec::new();
            let mut i: usize = 0;
            assert(pending.take(0).filter(pred) =~= Seq::<Seq<char>>::empty()) by {
                reveal_with_fuel(Seq::<_>::filter, 1);
            }
            while i < self.history_pending_removals.len()
                invariant
                    i <= self.history_pending_removals.len(),
                    pending == string_views(self.history_pending_removals@),
                    pred == other_than(path@),
                    string_views(kept@) == pending.take(i as int).filter(pred),
                decreases self.history_pending_removals.len() - i,
            {
                assert(pending.take(i + 1).drop_last() == pending.take(i as int));
                assert(pending.take(i + 1).last() == self.history_pending_removals@[i as int]@);
                if !(self.history_pending_removals[i] == path) {
                    let ghost before = string_views(kept@);
                    kept.push(self.history_pending_removals[i].clone());
                    assert(string_views(kept@) == before.push(self.history_pending_removals@[i as int]@));
                }
                proof {
                    reveal_with_fuel(Seq::<_>::filter, 1);
                }
                i += 1;
            }
            assert(pending.take(pending.len() as int) == pending);
            self.history_pending_removals = Vec::new();
            self.close_history_picker();
            Some(kept)
        } else {
            let mut present = false;
            let mut i: usize = 0;
            while i < self.history_pending_removals.len()
                invariant
                    i <= self.history_pending_removals.len(),
                    pending == string_views(self.history_pending_removals@),
                    present == exists|j: int| 0 <= j < i && pending[j] == path@,
                decreases self.history_pending_removals.len() - i,
            {
                assert(pending[i as int] == self.history_pending_removals@[i as int]@);
                if self.history_pending_removals[i] == path {
                    present = true;
                }
                i += 1;
            }
            if !present {
                self.history_pending_removals.push(path);
                assert(string_views(self.history_pending_removals@) == pending.push(path@));
            } else {
                proof {
                    let j = choose|j: int| 0 <= j < pending.len() && pending[j] == path@;
                    assert(pending.contains(path@));
                }
            }
            self.history_picker.activation_error = Some(String::from_str(MSG_FILE_NO_LONGER_AVAILABLE));
            None
        }
    }
}

} // verus!
