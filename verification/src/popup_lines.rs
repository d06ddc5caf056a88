use vstd::prelude::*;
use crate::app::App;
use crate::history::MSG_LOADING_FILE_HISTORY;
use crate::history_picker::opt_view;
use crate::popup::{picker_window, spec_picker_window, spec_visible_slots};

verus! {

pub const HISTORY_POPUP_TITLE: &'static str = "Open from file history";

pub const FILE_POPUP_TITLE: &'static str = "Open a Markdown file";

pub const MSG_NO_MATCH: &'static str = "No match for the current query";

pub const MSG_NO_MARKDOWN_FOUND: &'static str = "No Markdown file found in this directory or its subdirectories";

pub const MSG_NOTHING_HERE: &'static str = "No folders or Markdown files here";

pub const MSG_INDEXING: &'static str = "Indexing markdown files...";

pub const MSG_LOAD_FAILED: &'static str = "Failed to load files";

/// The lines of a picker popup, before they are styled. `S` is the type of
/// their text: `String` in the popups built here, `Seq<char>` in their
/// specifications.
#[derive(Clone, Debug, PartialEq, Eq)]
pub enum PopupLine<S> {
    Title(S),
    /// The directory being browsed.
    Dir(S),
    /// The query box holding a typed query.
    Query(S),
    /// The query box with nothing typed, inviting the user to type.
    QueryPlaceholder,
    Blank,
    /// A message in the muted colour.
    Note(S),
    /// A message in the highlight colour.
    Warning(S),
    /// A message in the error colour.
    Error(S),
    /// The heading of a group of entries.
    Section(S),
    /// The `row`th row of a list, showing entry `entry`.
    Entry { row: usize, entry: usize, selected: bool },
    /// An entry to choose, the `row`th listed: entry `entry`, which may be the
    /// one in use.
    Choice { row: usize, entry: usize, selected: bool, current: bool },
    /// The key hints.
    Footer,
}

pub open spec fn line_view(l: PopupLine<String>) -> PopupLine<Seq<char>> {
    match l {
        PopupLine::Title(s) => PopupLine::Title(s@),
        PopupLine::Dir(s) => PopupLine::Dir(s@),
        PopupLine::Query(s) => PopupLine::Query(s@),
        PopupLine::QueryPlaceholder => PopupLine::QueryPlaceholder,
        PopupLine::Blank => PopupLine::Blank,
        PopupLine::Note(s) => PopupLine::Note(s@),
        PopupLine::Warning(s) => PopupLine::Warning(s@),
        PopupLine::Error(s) => PopupLine::Error(s@),
        PopupLine::Section(s) => PopupLine::Section(s@),
        PopupLine::Entry { row, entry, selected } => PopupLine::Entry { row, entry, selected },
        PopupLine::Choice { row, entry, selected, current } => PopupLine::Choice { row, entry, selected, current },
        PopupLine::Footer => PopupLine::Footer,
    }
}

pub open spec fn lines_view(v: Seq<PopupLine<String>>) -> Seq<PopupLine<Seq<char>>> {
    v.map_values(|l: PopupLine<String>| line_view(l))
}

/// The query box for the query `q`.
pub open spec fn query_line(q: Seq<char>) -> PopupLine<Seq<char>> {
    if q.len() == 0 {
        PopupLine::QueryPlaceholder
    } else {
        PopupLine::Query(q)
    }
}

/// `n` blank lines, none when `n` is not positive.
pub open spec fn blanks(n: int) -> Seq<PopupLine<Seq<char>>> {
    Seq::new(if n > 0 { n as nat } else { 0 }, |k: int| PopupLine::Blank)
}

/// `lines` filled up with blank lines to `target` lines.
pub open spec fn padded(lines: Seq<PopupLine<Seq<char>>>, target: int) -> Seq<PopupLine<Seq<char>>> {
    lines + blanks(target - lines.len())
}

/// The rows `start..end` of a list whose rows show the entries `filtered`,
/// the row `index` selected.
pub open spec fn entry_rows(filtered: Seq<usize>, start: int, end: int, index: usize) -> Seq<PopupLine<Seq<char>>> {
    Seq::new(
        if end > start { (end - start) as nat } else { 0 },
        |k: int| PopupLine::Entry { row: (start + k) as usize, entry: filtered[start + k], selected: start + k == index },
    )
}

/// The list part of a picker: the rows that fit, scrolled to the selection.
pub open spec fn window_rows(
    filtered: Seq<usize>,
    index: usize,
    inner_height: usize,
    header_lines: usize,
    reserved: usize,
    max_slots: usize,
) -> Seq<PopupLine<Seq<char>>> {
    let w = spec_picker_window(spec_visible_slots(inner_height, header_lines, reserved, max_slots), index, filtered.len() as usize);
    entry_rows(filtered, w.0 as int, w.1 as int, index)
}

/// Whether the rows to show lie within the list, which holds when the
/// selection is on a row.
pub open spec fn window_in_list(
    filtered: Seq<usize>,
    index: usize,
    inner_height: usize,
    header_lines: usize,
    reserved: usize,
    max_slots: usize,
) -> bool {
    let w = spec_picker_window(spec_visible_slots(inner_height, header_lines, reserved, max_slots), index, filtered.len() as usize);
    w.0 <= w.1 <= filtered.len()
}

proof fn lemma_window_in_list(
    filtered: Seq<usize>,
    index: usize,
    inner_height: usize,
    header_lines: usize,
    reserved: usize,
    max_slots: usize,
)
    requires
        filtered.len() <= usize::MAX,
        index < filtered.len(),
    ensures
        window_in_list(filtered, index, inner_height, header_lines, reserved, max_slots),
{
}

/// The file-history popup: title, query, then the history's message, a note
/// that nothing matches, or the rows that fit in `inner_height` lines
/// scrolled to the selection (at most ten); blank lines down to the bottom,
/// the activation error if there is one, and the key hints.
pub open spec fn spec_history_popup_lines(
    query: Seq<char>,
    error: Option<Seq<char>>,
    activation_error: Option<Seq<char>>,
    filtered: Seq<usize>,
    index: usize,
    inner_height: usize,
) -> Seq<PopupLine<Seq<char>>> {
    let reserved: usize = if activation_error is Some { 3 } else { 2 };
    let head = seq![PopupLine::Title(HISTORY_POPUP_TITLE@), query_line(query), PopupLine::Blank];
    padded(head + history_body(error, filtered, index, inner_height, reserved), inner_height - reserved)
        + message_tail(activation_error)
}

/// The list part of the history popup: the history's message, a note that
/// nothing matches, or the rows that fit (at most ten).
pub open spec fn history_body(
    error: Option<Seq<char>>,
    filtered: Seq<usize>,
    index: usize,
    inner_height: usize,
    reserved: usize,
) -> Seq<PopupLine<Seq<char>>> {
    match error {
        Some(e) => seq![PopupLine::Note(e)],
        None => if filtered.len() == 0 {
            seq![PopupLine::Note(MSG_NO_MATCH@)]
        } else {
            window_rows(filtered, index, inner_height, 3, reserved, 10)
        },
    }
}

/// The bottom of a picker popup: a blank line, the message if any, and the
/// key hints.
pub open spec fn message_tail(message: Option<Seq<char>>) -> Seq<PopupLine<Seq<char>>> {
    match message {
        Some(m) => seq![PopupLine::Blank, PopupLine::Warning(m), PopupLine::Footer],
        None => seq![PopupLine::Blank, PopupLine::Footer],
    }
}

/// The popup shown while the history loads.
pub open spec fn spec_history_loading_popup_lines(inner_height: usize) -> Seq<PopupLine<Seq<char>>> {
    let head = seq![
        PopupLine::Title(HISTORY_POPUP_TITLE@),
        PopupLine::QueryPlaceholder,
        PopupLine::Blank,
        PopupLine::Note(MSG_LOADING_FILE_HISTORY@),
    ];
    padded(head, inner_height - 2) + message_tail(None)
}

/// The file popup: title, directory, the query box for a fuzzy search, then
/// a note when there is nothing to list or nothing matches, else the rows
/// that fit scrolled to the selection; blank lines down to the bottom, the
/// truncation message if the listing was cut, and the key hints.
pub open spec fn spec_file_popup_lines(
    fuzzy: bool,
    dir: Seq<char>,
    query: Seq<char>,
    has_entries: bool,
    filtered: Seq<usize>,
    index: usize,
    truncation: Option<Seq<char>>,
    inner_height: usize,
) -> Seq<PopupLine<Seq<char>>> {
    let reserved: usize = if truncation is Some { 3 } else { 2 };
    padded(
        file_head(fuzzy, dir, query) + file_body(fuzzy, has_entries, filtered, index, truncation is Some, inner_height),
        inner_height - reserved,
    ) + message_tail(truncation)
}

/// The top of the file popup: title, directory, and the query box for a
/// fuzzy search, then a blank line.
pub open spec fn file_head(fuzzy: bool, dir: Seq<char>, query: Seq<char>) -> Seq<PopupLine<Seq<char>>> {
    seq![PopupLine::Title(FILE_POPUP_TITLE@), PopupLine::Dir(dir)] + (if fuzzy {
        seq![query_line(query)]
    } else {
        Seq::empty()
    }) + seq![PopupLine::Blank]
}

/// The list part of the file popup.
pub open spec fn file_body(
    fuzzy: bool,
    has_entries: bool,
    filtered: Seq<usize>,
    index: usize,
    truncated: bool,
    inner_height: usize,
) -> Seq<PopupLine<Seq<char>>> {
    if !has_entries {
        seq![PopupLine::Note(if fuzzy { MSG_NO_MARKDOWN_FOUND@ } else { MSG_NOTHING_HERE@ })]
    } else if filtered.len() == 0 {
        seq![PopupLine::Note(MSG_NO_MATCH@)]
    } else {
        window_rows(filtered, index, inner_height, file_header_lines(fuzzy), if truncated { 3 } else { 2 }, file_max_slots(fuzzy, truncated))
    }
}

pub open spec fn file_header_lines(fuzzy: bool) -> usize {
    if fuzzy { 4 } else { 3 }
}

/// At most this many rows are listed in the file popup.
pub open spec fn file_max_slots(fuzzy: bool, truncated: bool) -> usize {
    if fuzzy {
        if truncated { 11 } else { 12 }
    } else {
        13
    }
}

/// The file popup while the files are indexed, or after that failed.
pub open spec fn spec_picker_loading_popup_lines(
    fuzzy: bool,
    dir: Option<Seq<char>>,
    query: Seq<char>,
    failed: bool,
    load_error: Option<Seq<char>>,
    inner_height: usize,
) -> Seq<PopupLine<Seq<char>>> {
    let message = if failed {
        match load_error {
            Some(e) => e,
            None => MSG_LOAD_FAILED@,
        }
    } else {
        MSG_INDEXING@
    };
    let shown_dir = match dir {
        Some(d) => d,
        None => seq!['.'],
    };
    padded(file_head(fuzzy, shown_dir, query).push(PopupLine::Note(message)), inner_height - 2) + message_tail(None)
}

fn query_line_of(query: &str) -> (r: PopupLine<String>)
    ensures
        line_view(r) == query_line(query@),
{
    if query.is_empty() {
        PopupLine::QueryPlaceholder
    } else {
        PopupLine::Query(query.to_owned())
    }
}

/// Adds blank lines to `out` until it has `inner_height - reserved` lines.
fn pad_to(out: &mut Vec<PopupLine<String>>, inner_height: usize, reserved: usize)
    ensures
        lines_view(final(out)@) == padded(lines_view(old(out)@), inner_height - reserved),
{
    let target = inner_height.saturating_sub(reserved);
    let ghost start = lines_view(out@);
    while out.len() < target
        invariant
            start.len() <= out@.len(),
            out@.len() <= target || out@.len() == start.len(),
            lines_view(out@) == start + blanks(out@.len() - start.len()),
        decreases target - out.len(),
    {
        let ghost before = lines_view(out@);
        out.push(PopupLine::Blank);
        assert(lines_view(out@) == before.push(PopupLine::Blank));
        assert(blanks(out@.len() - start.len()) == blanks(out@.len() - 1 - start.len()).push(PopupLine::Blank));
    }
    assert(blanks(out@.len() - start.len()) =~= blanks(inner_height - reserved - start.len()));
}

/// Adds the rows `start..end` of the list `filtered` to `out`.
fn push_entry_rows(out: &mut Vec<PopupLine<String>>, filtered: &[usize], start: usize, end: usize, index: usize)
    requires
        start <= end <= filtered@.len(),
    ensures
        lines_view(final(out)@) == lines_view(old(out)@) + entry_rows(filtered@, start as int, end as int, index),
{
    let ghost before = lines_view(out@);
    let mut i = start;
    while i < end
        invariant
            start <= i <= end <= filtered@.len(),
            lines_view(out@) == before + entry_rows(filtered@, start as int, i as int, index),
        decreases end - i,
    {
        let ghost prev = lines_view(out@);
        out.push(PopupLine::Entry { row: i, entry: filtered[i], selected: i == index });
        assert(lines_view(out@) == prev.push(PopupLine::Entry { row: i, entry: filtered@[i as int], selected: i == index }));
        assert(entry_rows(filtered@, start as int, i + 1, index) == entry_rows(filtered@, start as int, i as int, index).push(
            PopupLine::Entry { row: i, entry: filtered@[i as int], selected: i == index },
        ));
        i += 1;
    }
}

/// The list part of a picker, as `window_rows` says.
fn push_window_rows(
    out: &mut Vec<PopupLine<String>>,
    filtered: &[usize],
    index: usize,
    inner_height: usize,
    header_lines: usize,
    reserved: usize,
    max_slots: usize,
)
    requires
        window_in_list(filtered@, index, inner_height, header_lines, reserved, max_slots),
    ensures
        lines_view(final(out)@) == lines_view(old(out)@) + window_rows(filtered@, index, inner_height, header_lines, reserved, max_slots),
{
    let (start, end) = picker_window(inner_height, header_lines, reserved, max_slots, index, filtered.len());
    push_entry_rows(out, filtered, start, end, index);
}

fn push_line(out: &mut Vec<PopupLine<String>>, line: PopupLine<String>)
    ensures
        lines_view(final(out)@) == lines_view(old(out)@).push(line_view(line)),
{
    let ghost before = lines_view(out@);
    out.push(line);
    assert(lines_view(out@) == before.push(line_view(line)));
}

/// Adds the bottom of a picker popup, as `message_tail` says.
fn push_message_tail(out: &mut Vec<PopupLine<String>>, message: Option<String>)
    ensures
        lines_view(final(out)@) == lines_view(old(out)@) + message_tail(opt_view(message)),
{
    let ghost before = lines_view(out@);
    push_line(out, PopupLine::Blank);
    match message {
        Some(m) => push_line(out, PopupLine::Warning(m)),
        None => {},
    }
    push_line(out, PopupLine::Footer);
    assert(lines_view(out@) =~= before + message_tail(opt_view(message)));
}

fn owned(s: Option<&str>) -> (r: Option<String>)
    ensures
        opt_view(r) == match s {
            Some(t) => Some(t@),
            None => None,
        },
{
    match s {
        Some(t) => Some(t.to_owned()),
        None => None,
    }
}

impl App {
    /// Adds the list part of the history popup, as `history_body` says.
    fn push_history_body(&self, out: &mut Vec<PopupLine<String>>, inner_height: usize, reserved: usize)
        requires
            self.wf(),
        ensures
            lines_view(final(out)@) == lines_view(old(out)@) + history_body(
                opt_view(self.history_picker.error),
                self.history_picker.filtered@,
                self.history_picker.index,
                inner_height,
                reserved,
            ),
    {
        let ghost before = lines_view(out@);
        let hp = &self.history_picker;
        match &hp.error {
            Some(e) => push_line(out, PopupLine::Note(e.clone())),
            None => {
                if hp.filtered.len() == 0 {
                    push_line(out, PopupLine::Note(MSG_NO_MATCH.to_owned()));
                } else {
                    proof {
                        lemma_window_in_list(hp.filtered@, hp.index, inner_height, 3, reserved, 10);
                    }
                    push_window_rows(out, hp.filtered.as_slice(), hp.index, inner_height, 3, reserved, 10);
                }
            },
        }
        assert(lines_view(out@) =~= before + history_body(opt_view(hp.error), hp.filtered@, hp.index, inner_height, reserved));
    }

    /// The lines of the file-history popup, `inner_height` lines tall inside
    /// its border.
    pub fn history_popup_lines(&self, inner_height: usize) -> (r: Vec<PopupLine<String>>)
        requires
            self.wf(),
        ensures
            lines_view(r@) == spec_history_popup_lines(
                self.history_picker.query@,
                opt_view(self.history_picker.error),
                opt_view(self.history_picker.activation_error),
                self.history_picker.filtered@,
                self.history_picker.index,
                inner_height,
            ),
    {
        let reserved: usize = if self.history_picker.activation_error.is_some() { 3 } else { 2 };
        let mut out: Vec<PopupLine<String>> = Vec::new();
        push_line(&mut out, PopupLine::Title(HISTORY_POPUP_TITLE.to_owned()));
        push_line(&mut out, query_line_of(self.history_picker.query.as_str()));
        push_line(&mut out, PopupLine::Blank);
        assert(lines_view(out@) =~= seq![
            PopupLine::Title(HISTORY_POPUP_TITLE@),
            query_line(self.history_picker.query@),
            PopupLine::Blank,
        ]);
        self.push_history_body(&mut out, inner_height, reserved);
        pad_to(&mut out, inner_height, reserved);
        push_message_tail(&mut out, self.history_picker.activation_error.clone());
        out
    }
}

/// The lines of the popup shown while the history loads.
pub fn history_loading_popup_lines(inner_height: usize) -> (r: Vec<PopupLine<String>>)
    ensures
        lines_view(r@) == spec_history_loading_popup_lines(inner_height),
{
    let mut out: Vec<PopupLine<String>> = Vec::new();
    push_line(&mut out, PopupLine::Title(HISTORY_POPUP_TITLE.to_owned()));
    push_line(&mut out, PopupLine::QueryPlaceholder);
    push_line(&mut out, PopupLine::Blank);
    push_line(&mut out, PopupLine::Note(MSG_LOADING_FILE_HISTORY.to_owned()));
    assert(lines_view(out@) =~= seq![
        PopupLine::Title(HISTORY_POPUP_TITLE@),
        PopupLine::QueryPlaceholder,
        PopupLine::Blank,
        PopupLine::Note(MSG_LOADING_FILE_HISTORY@),
    ]);
    pad_to(&mut out, inner_height, 2);
    push_message_tail(&mut out, None);
    out
}

/// Adds the top of the file popup, as `file_head` says.
fn push_file_head(out: &mut Vec<PopupLine<String>>, fuzzy: bool, dir: &str, query: &str)
    ensures
        lines_view(final(out)@) == lines_view(old(out)@) + file_head(fuzzy, dir@, query@),
{
    let ghost before = lines_view(out@);
    push_line(out, PopupLine::Title(FILE_POPUP_TITLE.to_owned()));
    push_line(out, PopupLine::Dir(dir.to_owned()));
    if fuzzy {
        push_line(out, query_line_of(query));
    }
    push_line(out, PopupLine::Blank);
    assert(lines_view(out@) =~= before + file_head(fuzzy, dir@, query@));
}

/// The lines of the file popup. `filtered` lists the entries that the rows
/// show, `index` is the selected row, and `truncation` the message shown
/// when the listing was cut short.
pub fn file_popup_lines(
    fuzzy: bool,
    dir: &str,
    query: &str,
    has_entries: bool,
    filtered: &[usize],
    index: usize,
    truncation: Option<&str>,
    inner_height: usize,
) -> (r: Vec<PopupLine<String>>)
    requires
        has_entries && filtered@.len() > 0 ==> window_in_list(
            filtered@,
            index,
            inner_height,
            file_header_lines(fuzzy),
            if truncation is Some { 3 } else { 2 },
            file_max_slots(fuzzy, truncation is Some),
        ),
    ensures
        lines_view(r@) == spec_file_popup_lines(
            fuzzy,
            dir@,
            query@,
            has_entries,
            filtered@,
            index,
            match truncation {
                Some(m) => Some(m@),
                None => None,
            },
            inner_height,
        ),
{
    let truncated = truncation.is_some();
    let reserved: usize = if truncated { 3 } else { 2 };
    let mut out: Vec<PopupLine<String>> = Vec::new();
    push_file_head(&mut out, fuzzy, dir, query);
    let ghost head = lines_view(out@);
    if !has_entries {
        let note = if fuzzy { MSG_NO_MARKDOWN_FOUND } else { MSG_NOTHING_HERE };
        push_line(&mut out, PopupLine::Note(note.to_owned()));
    } else if filtered.len() == 0 {
        push_line(&mut out, PopupLine::Note(MSG_NO_MATCH.to_owned()));
    } else {
        let header_lines: usize = if fuzzy { 4 } else { 3 };
        let max_slots: usize = if fuzzy {
            if truncated { 11 } else { 12 }
        } else {
            13
        };
        push_window_rows(&mut out, filtered, index, inner_height, header_lines, reserved, max_slots);
    }
    assert(lines_view(out@) =~= head + file_body(fuzzy, has_entries, filtered@, index, truncated, inner_height));
    pad_to(&mut out, inner_height, reserved);
    push_message_tail(&mut out, owned(truncation));
    out
}

/// The lines of the file popup while the files are indexed (`failed` says
/// that indexing failed, with `load_error` if known). `dir` is the
/// directory being indexed, if known.
pub fn picker_loading_popup_lines(
    fuzzy: bool,
    dir: Option<&str>,
    query: &str,
    failed: bool,
    load_error: Option<&str>,
    inner_height: usize,
) -> (r: Vec<PopupLine<String>>)
    ensures
        lines_view(r@) == spec_picker_loading_popup_lines(
            fuzzy,
            match dir {
                Some(d) => Some(d@),
                None => None,
            },
            query@,
            failed,
            match load_error {
                Some(e) => Some(e@),
                None => None,
            },
            inner_height,
        ),
{
    let message: String = if failed {
        match load_error {
            Some(e) => e.to_owned(),
            None => MSG_LOAD_FAILED.to_owned(),
        }
    } else {
        MSG_INDEXING.to_owned()
    };
    let shown_dir: String = match dir {
        Some(d) => d.to_owned(),
        None => {
            let mut s = String::new();
            s.push('.');
            s
        },
    };
    let mut out: Vec<PopupLine<String>> = Vec::new();
    push_file_head(&mut out, fuzzy, shown_dir.as_str(), query);
    push_line(&mut out, PopupLine::Note(message));
    pad_to(&mut out, inner_height, 2);
    push_message_tail(&mut out, None);
    out
}

pub const EDITOR_POPUP_TITLE: &'static str = "Choose an editor";

pub const MSG_NO_EDITORS: &'static str = "No editors found";

pub const TERMINAL_SECTION: &'static str = "Terminal";

pub const GUI_SECTION: &'static str = "GUI";

/// Whether an editor runs in the terminal or opens a window of its own.
#[derive(Clone, Copy, Debug, PartialEq, Eq, Structural)]
pub enum EditorKind {
    Terminal,
    Gui,
}

/// The positions of the editors of kind `k` in `kinds`, in order.
pub open spec fn kind_indices(kinds: Seq<EditorKind>, k: EditorKind) -> Seq<usize>
    decreases kinds.len(),
{
    if kinds.len() == 0 {
        Seq::empty()
    } else {
        let prev = kind_indices(kinds.drop_last(), k);
        if kinds.last() == k {
            prev.push((kinds.len() - 1) as usize)
        } else {
            prev
        }
    }
}

/// The editors at positions `idx`, listed from row `first_row` on.
pub open spec fn choices(idx: Seq<usize>, first_row: int, current: Seq<bool>, selected: usize) -> Seq<PopupLine<Seq<char>>> {
    Seq::new(
        idx.len(),
        |j: int|
            PopupLine::Choice {
                row: (first_row + j) as usize,
                entry: idx[j],
                selected: first_row + j == selected,
                current: current[idx[j] as int],
            },
    )
}

/// The group of editors of kind `k` under its heading `name`; nothing when
/// there is none.
pub open spec fn kind_group(
    kinds: Seq<EditorKind>,
    current: Seq<bool>,
    selected: usize,
    k: EditorKind,
    name: Seq<char>,
    first_row: int,
) -> Seq<PopupLine<Seq<char>>> {
    let idx = kind_indices(kinds, k);
    if idx.len() > 0 {
        seq![PopupLine::Section(name)] + choices(idx, first_row, current, selected)
    } else {
        Seq::empty()
    }
}

/// The editor popup: its title, then the terminal editors and the GUI
/// editors, each group under its heading and numbered on across both; a
/// blank line between the groups; an error when no editor was found.
/// `current` marks the editor in use and `selected` is the selected row.
pub open spec fn spec_editor_popup_lines(kinds: Seq<EditorKind>, current: Seq<bool>, selected: usize) -> Seq<PopupLine<Seq<char>>> {
    let t = kind_indices(kinds, EditorKind::Terminal);
    let g = kind_indices(kinds, EditorKind::Gui);
    let body = if kinds.len() == 0 {
        seq![PopupLine::Error(MSG_NO_EDITORS@)]
    } else {
        kind_group(kinds, current, selected, EditorKind::Terminal, TERMINAL_SECTION@, 0) + (if t.len() > 0 && g.len() > 0 {
            seq![PopupLine::Blank]
        } else {
            Seq::empty()
        }) + kind_group(kinds, current, selected, EditorKind::Gui, GUI_SECTION@, t.len() as int)
    };
    seq![PopupLine::Title(EDITOR_POPUP_TITLE@), PopupLine::Blank] + body + seq![PopupLine::Blank, PopupLine::Footer]
}

proof fn lemma_kind_indices(kinds: Seq<EditorKind>)
    ensures
        kind_indices(kinds, EditorKind::Terminal).len() + kind_indices(kinds, EditorKind::Gui).len() == kinds.len(),
        forall|k: EditorKind, j: int|
            0 <= j < kind_indices(kinds, k).len() ==> #[trigger] kind_indices(kinds, k)[j] < kinds.len(),
    decreases kinds.len(),
{
    if kinds.len() > 0 {
        lemma_kind_indices(kinds.drop_last());
        assert forall|k: EditorKind, j: int| 0 <= j < kind_indices(kinds, k).len() implies #[trigger] kind_indices(kinds, k)[j]
            < kinds.len() by {
            let prev = kind_indices(kinds.drop_last(), k);
            if j < prev.len() {
                assert(prev[j] < kinds.drop_last().len());
            }
        }
    }
}

/// Adds the group of editors of kind `k`, as `kind_group` says, and returns
/// how many editors it lists.
fn push_kind_group(
    out: &mut Vec<PopupLine<String>>,
    kinds: &Vec<EditorKind>,
    current: &Vec<bool>,
    selected: usize,
    k: EditorKind,
    name: &str,
    first_row: usize,
) -> (count: usize)
    requires
        kinds@.len() == current@.len(),
        first_row + kind_indices(kinds@, k).len() <= kinds@.len(),
    ensures
        count == kind_indices(kinds@, k).len(),
        lines_view(final(out)@) == lines_view(old(out)@) + kind_group(kinds@, current@, selected, k, name@, first_row as int),
{
    let ghost ks = kinds@;
    proof {
        lemma_kind_indices(ks);
    }
    let mut rows: Vec<PopupLine<String>> = Vec::new();
    let mut i: usize = 0;
    assert(ks.take(0) =~= Seq::<EditorKind>::empty());
    while i < kinds.len()
        invariant
            i <= kinds@.len(),
            ks == kinds@,
            kinds@.len() == current@.len(),
            first_row + kind_indices(ks, k).len() <= ks.len(),
            kind_indices(ks.take(i as int), k).len() <= kind_indices(ks, k).len(),
            lines_view(rows@) == choices(kind_indices(ks.take(i as int), k), first_row as int, current@, selected),
        decreases kinds.len() - i,
    {
        assert(ks.take(i + 1).drop_last() =~= ks.take(i as int));
        assert(ks.take(i + 1).last() == ks[i as int]);
        proof {
            lemma_kind_indices_prefix(ks, k, i + 1);
        }
        assert(rows@.len() == lines_view(rows@).len());
        if kinds[i] == k {
            assert(kind_indices(ks.take(i + 1), k) == kind_indices(ks.take(i as int), k).push(i));
            let row = first_row + rows.len();
            let ghost before = lines_view(rows@);
            let line = PopupLine::Choice { row, entry: i, selected: row == selected, current: current[i] };
            rows.push(line);
            assert(lines_view(rows@) == before.push(line_view(line)));
            assert(lines_view(rows@) =~= choices(kind_indices(ks.take(i + 1), k), first_row as int, current@, selected));
        } else {
            assert(kind_indices(ks.take(i + 1), k) == kind_indices(ks.take(i as int), k));
        }
        i += 1;
    }
    assert(ks.take(ks.len() as int) =~= ks);
    let count = rows.len();
    if count > 0 {
        let ghost before = lines_view(out@);
        push_line(out, PopupLine::Section(name.to_owned()));
        let ghost mid = lines_view(out@);
        let ghost added = lines_view(rows@);
        out.append(&mut rows);
        assert(lines_view(out@) =~= mid + added);
        assert(lines_view(out@) =~= before + kind_group(kinds@, current@, selected, k, name@, first_row as int));
    } else {
        assert(lines_view(out@) =~= lines_view(out@) + kind_group(kinds@, current@, selected, k, name@, first_row as int));
    }
    count
}

proof fn lemma_kind_indices_prefix(kinds: Seq<EditorKind>, k: EditorKind, n: int)
    requires
        0 <= n <= kinds.len(),
    ensures
        kind_indices(kinds.take(n), k).len() <= kind_indices(kinds, k).len(),
    decreases kinds.len() - n,
{
    if n < kinds.len() {
        lemma_kind_indices_prefix(kinds, k, n + 1);
        assert(kinds.take(n + 1).drop_last() =~= kinds.take(n));
    } else {
        assert(kinds.take(n) =~= kinds);
    }
}

/// The lines of the editor popup, as `spec_editor_popup_lines` says.
pub fn editor_popup_lines(kinds: &Vec<EditorKind>, current: &Vec<bool>, selected: usize) -> (r: Vec<PopupLine<String>>)
    requires
        kinds@.len() == current@.len(),
    ensures
        lines_view(r@) == spec_editor_popup_lines(kinds@, current@, selected),
{
    proof {
        lemma_kind_indices(kinds@);
    }
    let mut out: Vec<PopupLine<String>> = Vec::new();
    push_line(&mut out, PopupLine::Title(EDITOR_POPUP_TITLE.to_owned()));
    push_line(&mut out, PopupLine::Blank);
    let ghost head = lines_view(out@);
    if kinds.len() == 0 {
        push_line(&mut out, PopupLine::Error(MSG_NO_EDITORS.to_owned()));
    } else {
        let terminal = push_kind_group(&mut out, kinds, current, selected, EditorKind::Terminal, TERMINAL_SECTION, 0);
        let ghost after_terminal = lines_view(out@);
        let has_gui = terminal < kinds.len();
        if terminal > 0 && has_gui {
            push_line(&mut out, PopupLine::Blank);
        }
        let ghost mid = lines_view(out@);
        push_kind_group(&mut out, kinds, current, selected, EditorKind::Gui, GUI_SECTION, terminal);
        assert(lines_view(out@) =~= head + (kind_group(kinds@, current@, selected, EditorKind::Terminal, TERMINAL_SECTION@, 0) + (if terminal > 0 && has_gui {
            seq![PopupLine::Blank]
        } else {
            Seq::empty()
        }) + kind_group(kinds@, current@, selected, EditorKind::Gui, GUI_SECTION@, terminal as int)));
    }
    let ghost body_done = lines_view(out@);
    push_line(&mut out, PopupLine::Blank);
    push_line(&mut out, PopupLine::Footer);
    assert(lines_view(out@) =~= spec_editor_popup_lines(kinds@, current@, selected));
    out
}

/// The height of a popup box of `line_count` lines with its border, at
/// most `max`.
pub fn popup_height(line_count: usize, max: u16) -> (r: u16)
    requires
        line_count + 2 <= u16::MAX,
    ensures
        r == if line_count + 2 < max { (line_count + 2) as u16 } else { max },
{
    let h = line_count as u16 + 2;
    if h < max {
        h
    } else {
        max
    }
}

} // verus!
