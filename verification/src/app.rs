use vstd::prelude::*;
use crate::history_picker::HistoryPickerState;
use crate::picker_width::PickerWidthSpec;
use crate::toc::{levels_at_least_one, levels_of, spec_toc_display_level, spec_toc_promotion, toc_display_level, toc_promotion, TocEntry};

verus! {

/// Which way a number key walks through the headings of its section.
pub enum CycleDirection {
    Forward,
    Backward,
}

/// The number key pressed last and the position reached in its section.
#[derive(Clone, Copy, Debug, PartialEq, Eq, Structural)]
pub struct NumkeyCycleState {
    pub key: u8,
    pub position: usize,
}

/// The two pickers: files on disk, and the file history.
#[derive(Clone, Copy, Debug, PartialEq, Eq, Structural)]
pub enum PickerKind {
    File,
    History,
}

/// The viewer state that scrolling, the table of contents and the pickers
/// work on.
pub struct App {
    /// First document line shown.
    pub scroll: usize,
    /// Height of the content area, in lines.
    pub content_height: u16,
    /// Number of rendered document lines.
    pub total_lines: usize,
    pub numkey_cycle: Option<NumkeyCycleState>,
    pub reverse_mode: bool,
    pub hovered_code_block: Option<usize>,
    pub toc_visible: bool,
    pub hovered_toc_idx: Option<usize>,
    pub line_number_visible: bool,
    pub toc: Vec<TocEntry>,
    /// For each line of the table-of-contents panel, the heading it shows.
    pub toc_display_entries: Vec<usize>,
    pub history_picker: HistoryPickerState,
    /// A picker that has been asked for and not yet opened.
    pub pending_picker: Option<PickerKind>,
    /// A picker whose entries are being loaded.
    pub picker_loading: Option<PickerKind>,
    pub file_picker_open: bool,
    pub picker_width_floor_active: bool,
    /// The configured width of the file picker.
    pub file_picker_width: PickerWidthSpec,
    /// A short notice about the configuration, shown until cleared.
    pub config_flash: Option<String>,
    /// Whether paths are read as Windows paths (`\` separators, drive and
    /// UNC prefixes) rather than Unix paths.
    pub windows_paths: bool,
    /// The configured `file-history-length`, if any.
    pub file_history_length: Option<i32>,
    /// History paths that failed to open, to be dropped from the history.
    pub history_pending_removals: Vec<String>,
}

pub open spec fn spec_max_scroll(total: usize, height: u16) -> usize {
    if total >= height {
        (total - height) as usize
    } else {
        0
    }
}

/// A displayed table-of-contents entry: heading index and display level.
pub open spec fn visible_entry(toc: Seq<TocEntry>, idx: int) -> Option<(usize, u8)> {
    let (shift, hide_root) = spec_toc_promotion(levels_of(toc));
    let level = toc[idx].level;
    if hide_root && level <= shift {
        None
    } else {
        Some((idx as usize, spec_toc_display_level(level, shift, hide_root)))
    }
}

/// The headings shown in the table of contents, in document order, each with
/// its display level; the hidden root is left out.
pub open spec fn spec_visible_toc(toc: Seq<TocEntry>) -> Seq<(usize, u8)>
    decreases toc.len(),
{
    spec_visible_toc_upto(toc, toc.len() as int)
}

pub open spec fn spec_visible_toc_upto(toc: Seq<TocEntry>, n: int) -> Seq<(usize, u8)>
    decreases n,
{
    if n <= 0 {
        Seq::empty()
    } else {
        let prev = spec_visible_toc_upto(toc, n - 1);
        match visible_entry(toc, n - 1) {
            Some(e) => prev.push(e),
            None => prev,
        }
    }
}

/// The next position in a section of `len` headings: one on, or one back in
/// reverse mode, wrapping around.
/// The state after pressing number key `key`: nothing changes for a key
/// without a section; otherwise the first press goes to the section's first
/// heading (leaving reverse mode) and a repeated press moves one heading on,
/// or back in reverse mode, wrapping; the view scrolls to the heading, as
/// far as it can.
pub open spec fn spec_cycle_numkey(a: App, key: u8) -> App {
    let g = spec_numkey_group(spec_visible_toc(a.toc@), key);
    if g.len() == 0 {
        a
    } else {
        let continuing = a.numkey_cycle matches Some(st) && st.key == key;
        let position: usize = if continuing {
            spec_next_position(a.numkey_cycle.unwrap().position, g.len(), a.reverse_mode)
        } else {
            0
        };
        let line = a.toc@[g[position as int] as int].line;
        let max = spec_max_scroll(a.total_lines, a.content_height);
        App {
            numkey_cycle: Some(NumkeyCycleState { key, position }),
            reverse_mode: if continuing { a.reverse_mode } else { false },
            scroll: if line <= max { line } else { max },
            ..a
        }
    }
}

pub open spec fn spec_next_position(p: usize, len: nat, reverse: bool) -> usize {
    if reverse {
        ((p + len - 1) % (len as int)) as usize
    } else {
        ((p + 1) % (len as int)) as usize
    }
}

/// Number of top-level (display level 1) entries in `v`.
pub open spec fn root_count(v: Seq<(usize, u8)>) -> nat
    decreases v.len(),
{
    if v.len() == 0 {
        0
    } else {
        root_count(v.drop_last()) + if v.last().1 == 1 {
            1nat
        } else {
            0nat
        }
    }
}

/// The section of number key `key`: the `key`-th top-level entry and the
/// deeper entries that follow it up to the next top-level entry.
pub open spec fn spec_numkey_group(v: Seq<(usize, u8)>, key: u8) -> Seq<usize>
    decreases v.len(),
{
    if v.len() == 0 {
        Seq::empty()
    } else {
        let prev = spec_numkey_group(v.drop_last(), key);
        if key >= 1 && root_count(v) == key {
            prev.push(v.last().0)
        } else {
            prev
        }
    }
}

impl App {
    /// Well-formedness: headings have level one or more and the history
    /// picker's state is consistent.
    pub open spec fn wf(&self) -> bool {
        &&& levels_at_least_one(self.toc@)
        &&& self.history_picker.wf()
    }

    pub fn new(total_lines: usize, content_height: u16, toc: Vec<TocEntry>, file_history_length: Option<i32>) -> (app: App)
        requires
            levels_at_least_one(toc@),
        ensures
            app.wf(),
            app.scroll == 0,
            app.total_lines == total_lines,
            app.content_height == content_height,
            app.toc@ == toc@,
            app.file_history_length == file_history_length,
            app.numkey_cycle is None,
            !app.reverse_mode,
            app.toc_visible,
            !app.history_picker.open,
            app.pending_picker is None,
            app.picker_loading is None,
            !app.file_picker_open,
            !app.picker_width_floor_active,
            app.file_picker_width == PickerWidthSpec::Cells(78),
            app.config_flash is None,
            !app.windows_paths,
            app.history_pending_removals@.len() == 0,
            app.hovered_code_block is None,
            app.hovered_toc_idx is None,
            !app.line_number_visible,
            app.toc_display_entries@.len() == 0,
            app.history_picker.is_empty_state(),
    {
        App {
            scroll: 0,
            content_height,
            total_lines,
            numkey_cycle: None,
            reverse_mode: false,
            hovered_code_block: None,
            toc_visible: true,
            hovered_toc_idx: None,
            line_number_visible: false,
            toc,
            toc_display_entries: Vec::new(),
            history_picker: HistoryPickerState::new(),
            pending_picker: None,
            picker_loading: None,
            file_picker_open: false,
            picker_width_floor_active: false,
            file_picker_width: PickerWidthSpec::Cells(78),
            config_flash: None,
            windows_paths: false,
            file_history_length,
            history_pending_removals: Vec::new(),
        }
    }

    pub fn total(&self) -> (r: usize)
        ensures
            r == self.total_lines,
    {
        self.total_lines
    }

    /// The largest scroll offset: the lines that do not fit in the content
    /// area.
    pub fn max_scroll(&self) -> (r: usize)
        ensures
            r == spec_max_scroll(self.total_lines, self.content_height),
    {
        self.total().saturating_sub(self.content_height as usize)
    }

    /// One past the last document line shown.
    pub fn visible_end(&self) -> (r: usize)
        requires
            self.scroll + self.content_height <= usize::MAX,
        ensures
            r == if self.scroll + self.content_height <= self.total_lines {
                (self.scroll + self.content_height) as usize
            } else {
                self.total_lines
            },
    {
        let end = self.scroll + self.content_height as usize;
        if end < self.total() {
            end
        } else {
            self.total()
        }
    }

    /// How far down the document the view is, in percent; 100 when
    /// everything fits.
    pub fn scroll_percent(&self) -> (r: u16)
        requires
            self.scroll * 100 <= usize::MAX,
        ensures
            ({
                let max = spec_max_scroll(self.total_lines, self.content_height);
                r == if max == 0 {
                    100
                } else if (self.scroll * 100) / (max as int) <= 100 {
                    ((self.scroll * 100) / (max as int)) as u16
                } else {
                    100
                }
            }),
    {
        let max = self.max_scroll();
        if max == 0 {
            return 100;
        }
        let p = (self.scroll * 100) / max;
        if p < 100 {
            p as u16
        } else {
            100
        }
    }

    pub fn reset_numkey_state(&mut self)
        ensures
            final(self).numkey_cycle is None,
            !final(self).reverse_mode,
            (App { numkey_cycle: None, reverse_mode: false, ..*old(self) }) == *final(self),
    {
        self.numkey_cycle = None;
        self.reverse_mode = false;
    }

    pub fn toggle_reverse_mode(&mut self)
        ensures
            (App { reverse_mode: !old(self).reverse_mode, ..*old(self) }) == *final(self),
    {
        self.reverse_mode = !self.reverse_mode;
    }

    /// Scrolls `n` lines down, no further than the last full page.
    pub fn scroll_down(&mut self, n: usize)
        requires
            old(self).scroll + n <= usize::MAX,
        ensures
            (App {
                scroll: if old(self).scroll + n <= spec_max_scroll(old(self).total_lines, old(self).content_height) {
                    (old(self).scroll + n) as usize
                } else {
                    spec_max_scroll(old(self).total_lines, old(self).content_height)
                },
                numkey_cycle: None,
                reverse_mode: false,
                hovered_code_block: None,
                ..*old(self)
            }) == *final(self),
    {
        self.reset_numkey_state();
        let target = self.scroll + n;
        let max = self.max_scroll();
        self.scroll = if target < max { target } else { max };
        self.hovered_code_block = None;
    }

    /// Scrolls `n` lines up, no further than the top.
    pub fn scroll_up(&mut self, n: usize)
        ensures
            (App {
                scroll: if old(self).scroll >= n { (old(self).scroll - n) as usize } else { 0 },
                numkey_cycle: None,
                reverse_mode: false,
                hovered_code_block: None,
                ..*old(self)
            }) == *final(self),
    {
        self.reset_numkey_state();
        self.scroll = self.scroll.saturating_sub(n);
        self.hovered_code_block = None;
    }

    pub fn scroll_top(&mut self)
        ensures
            (App {
                scroll: 0,
                numkey_cycle: None,
                reverse_mode: false,
                hovered_code_block: None,
                ..*old(self)
            }) == *final(self),
    {
        self.reset_numkey_state();
        self.scroll = 0;
        self.hovered_code_block = None;
    }

    pub fn scroll_bottom(&mut self)
        ensures
            (App {
                scroll: spec_max_scroll(old(self).total_lines, old(self).content_height),
                numkey_cycle: None,
                reverse_mode: false,
                hovered_code_block: None,
                ..*old(self)
            }) == *final(self),
    {
        self.reset_numkey_state();
        self.scroll = self.max_scroll();
        self.hovered_code_block = None;
    }

    /// Scrolls so that `position` is the first line shown, as far as the
    /// document allows.
    pub fn scroll_to(&mut self, position: usize)
        ensures
            (App {
                scroll: if position <= spec_max_scroll(old(self).total_lines, old(self).content_height) {
                    position
                } else {
                    spec_max_scroll(old(self).total_lines, old(self).content_height)
                },
                numkey_cycle: None,
                reverse_mode: false,
                hovered_code_block: None,
                ..*old(self)
            }) == *final(self),
    {
        self.reset_numkey_state();
        let max = self.max_scroll();
        self.scroll = if position < max { position } else { max };
        self.hovered_code_block = None;
    }

    /// Shows or hides the table of contents; hiding it forgets the hovered
    /// entry.
    pub fn toggle_toc(&mut self)
        ensures
            (App {
                toc_visible: !old(self).toc_visible,
                hovered_toc_idx: if old(self).toc_visible { None } else { old(self).hovered_toc_idx },
                ..*old(self)
            }) == *final(self),
    {
        self.toc_visible = !self.toc_visible;
        if !self.toc_visible {
            self.hovered_toc_idx = None;
        }
    }

    pub fn toggle_line_numbers(&mut self)
        ensures
            (App { line_number_visible: !old(self).line_number_visible, ..*old(self) }) == *final(self),
    {
        self.line_number_visible = !self.line_number_visible;
    }

    /// The headings shown in the table of contents with their display
    /// levels.
    pub fn visible_toc_entries(&self) -> (r: Vec<(usize, u8)>)
        requires
            self.wf(),
        ensures
            r@ == spec_visible_toc(self.toc@),
            forall|j: int| 0 <= j < r@.len() ==> (#[trigger] r@[j]).0 < self.toc@.len(),
    {
        let (shift, hide_root) = toc_promotion(self.toc.as_slice());
        let mut out: Vec<(usize, u8)> = Vec::new();
        let mut i: usize = 0;
        while i < self.toc.len()
            invariant
                i <= self.toc.len(),
                (shift, hide_root) == spec_toc_promotion(levels_of(self.toc@)),
                out@ == spec_visible_toc_upto(self.toc@, i as int),
                forall|j: int| 0 <= j < out@.len() ==> (#[trigger] out@[j]).0 < i,
            decreases self.toc.len() - i,
        {
            let level = self.toc[i].level;
            if !(hide_root && level <= shift) {
                out.push((i, toc_display_level(level, shift, hide_root)));
            }
            i += 1;
        }
        out
    }

    /// The headings that number key `key` cycles through.
    pub fn toc_group_for_numkey(&self, key: u8) -> (r: Vec<usize>)
        requires
            self.wf(),
            key >= 1 || root_count(spec_visible_toc(self.toc@)) <= 255,
        ensures
            r@ == spec_numkey_group(spec_visible_toc(self.toc@), key),
            forall|j: int| 0 <= j < r@.len() ==> #[trigger] r@[j] < self.toc@.len(),
    {
        let entries = self.visible_toc_entries();
        let ghost v = entries@;
        let mut group: Vec<usize> = Vec::new();
        let mut top_level_index: u8 = 0;
        let mut collecting = false;
        let mut i: usize = 0;
        assert(v.take(0) =~= Seq::<(usize, u8)>::empty());
        assert(v.take(v.len() as int) == v);
        while i < entries.len()
            invariant_except_break
                i <= entries.len(),
                v == entries@,
                v.take(v.len() as int) == v,
                key >= 1 || root_count(v) <= 255,
                forall|j: int| 0 <= j < v.len() ==> (#[trigger] v[j]).0 < self.toc@.len(),
                group@ == spec_numkey_group(v.take(i as int), key),
                top_level_index == root_count(v.take(i as int)),
                collecting == (key >= 1 && root_count(v.take(i as int)) == key),
                root_count(v.take(i as int)) <= key || key == 0,
                forall|j: int| 0 <= j < group@.len() ==> #[trigger] group@[j] < self.toc@.len(),
            ensures
                group@ == spec_numkey_group(v, key),
                forall|j: int| 0 <= j < group@.len() ==> #[trigger] group@[j] < self.toc@.len(),
            decreases entries.len() - i,
        {
            let (idx, display_level) = entries[i];
            assert(v.take(i + 1).drop_last() == v.take(i as int));
            assert(v.take(i + 1).last() == v[i as int]);
            if display_level == 1 {
                if collecting {
                    proof {
                        lemma_group_stops(v, key, i as int);
                    }
                    break;
                }
                proof {
                    lemma_root_count_bound(v, i + 1);
                }
                top_level_index += 1;
                if top_level_index == key {
                    collecting = true;
                    group.push(idx);
                }
            } else if collecting {
                group.push(idx);
            }
            i += 1;
        }
        proof {
            if i == entries.len() {
                assert(v.take(i as int) == v);
            }
        }
        group
    }

    /// Scrolls to the heading shown on line `display_idx` of the
    /// table-of-contents panel; does nothing for a line that shows none.
    pub fn scroll_to_toc_display_line(&mut self, display_idx: usize)
        ensures
            ({
                let entries = old(self).toc_display_entries@;
                if display_idx < entries.len() && entries[display_idx as int] < old(self).toc@.len() {
                    let line = old(self).toc@[entries[display_idx as int] as int].line;
                    (App {
                        scroll: if line <= spec_max_scroll(old(self).total_lines, old(self).content_height) {
                            line
                        } else {
                            spec_max_scroll(old(self).total_lines, old(self).content_height)
                        },
                        numkey_cycle: None,
                        reverse_mode: false,
                        hovered_code_block: None,
                        ..*old(self)
                    }) == *final(self)
                } else {
                    *final(self) == *old(self)
                }
            }),
    {
        if display_idx < self.toc_display_entries.len() {
            let entry_idx = self.toc_display_entries[display_idx];
            if entry_idx < self.toc.len() {
                let line = self.toc[entry_idx].line;
                self.scroll_to(line);
            }
        }
    }

    /// Jumps through the section of number key `key`: the first press goes to
    /// its top-level heading; pressing the same key again moves one heading
    /// on (or back, in reverse mode), wrapping around the section.
    pub fn cycle_numkey(&mut self, key: u8)
        requires
            old(self).wf(),
            key >= 1 || root_count(spec_visible_toc(old(self).toc@)) <= 255,
            old(self).numkey_cycle matches Some(st) ==> st.position + old(self).toc@.len() <= usize::MAX,
        ensures
            final(self).wf(),
            *final(self) == spec_cycle_numkey(*old(self), key),
    {
        let group = self.toc_group_for_numkey(key);
        proof {
            lemma_group_len(spec_visible_toc(self.toc@), key);
            lemma_visible_len(self.toc@, self.toc@.len() as int);
        }
        if group.len() == 0 {
            return;
        }
        let direction = if self.reverse_mode {
            CycleDirection::Backward
        } else {
            CycleDirection::Forward
        };
        let continuing = match self.numkey_cycle {
            Some(st) => st.key == key,
            None => false,
        };
        let position = if continuing {
            let st = self.numkey_cycle.unwrap();
            match direction {
                CycleDirection::Forward => (st.position + 1) % group.len(),
                CycleDirection::Backward => (st.position + group.len() - 1) % group.len(),
            }
        } else {
            self.reverse_mode = false;
            0
        };
        self.numkey_cycle = Some(NumkeyCycleState { key, position });
        let line = self.toc[group[position]].line;
        let max = self.max_scroll();
        self.scroll = if line < max { line } else { max };
    }
}

proof fn lemma_root_count_prefix(v: Seq<(usize, u8)>, i: int, j: int)
    requires
        0 <= i <= j <= v.len(),
    ensures
        root_count(v.take(i)) <= root_count(v.take(j)),
    decreases j - i,
{
    if i < j {
        assert(v.take(j).drop_last() == v.take(j - 1));
        lemma_root_count_prefix(v, i, j - 1);
    }
}

proof fn lemma_root_count_bound(v: Seq<(usize, u8)>, i: int)
    requires
        0 <= i <= v.len(),
    ensures
        root_count(v.take(i)) <= root_count(v),
{
    lemma_root_count_prefix(v, i, v.len() as int);
    assert(v.take(v.len() as int) == v);
}

/// Past the entry at `i`, a new top-level entry that follows the section of
/// `key`, no entry belongs to that section.
proof fn lemma_group_stops(v: Seq<(usize, u8)>, key: u8, i: int)
    requires
        0 <= i < v.len(),
        key >= 1,
        root_count(v.take(i)) == key,
        v[i].1 == 1,
    ensures
        spec_numkey_group(v, key) == spec_numkey_group(v.take(i), key),
{
    lemma_group_tail(v, key, i, v.len() as int);
    assert(v.take(v.len() as int) == v);
}

proof fn lemma_group_tail(v: Seq<(usize, u8)>, key: u8, i: int, j: int)
    requires
        0 <= i < j <= v.len(),
        key >= 1,
        root_count(v.take(i)) == key,
        v[i].1 == 1,
    ensures
        spec_numkey_group(v.take(j), key) == spec_numkey_group(v.take(i), key),
        root_count(v.take(j)) > key,
    decreases j - i,
{
    assert(v.take(j).drop_last() == v.take(j - 1));
    if j == i + 1 {
        assert(v.take(j).last() == v[i]);
    } else {
        lemma_group_tail(v, key, i, j - 1);
    }
}

pub proof fn lemma_group_len(v: Seq<(usize, u8)>, key: u8)
    ensures
        spec_numkey_group(v, key).len() <= v.len(),
    decreases v.len(),
{
    if v.len() > 0 {
        lemma_group_len(v.drop_last(), key);
    }
}

pub proof fn lemma_visible_len(toc: Seq<TocEntry>, n: int)
    requires
        0 <= n,
    ensures
        spec_visible_toc_upto(toc, n).len() <= n,
    decreases n,
{
    if n > 0 {
        lemma_visible_len(toc, n - 1);
    }
}

} // verus!
