use vstd::prelude::*;
use crate::completions::{kept_lines, spec_content_has_line, spec_remove_line, spec_source_line_addition};
use crate::lines::{
    join_lines, lemma_lines_rejoin, lemma_lines_append, lemma_lines_no_newline, lemma_lines_of_joined, lemma_lines_of_joined_ended, lemma_lines_single,
    lemma_trimmed_strip_cr, no_newline, spec_lines, strip_cr,
};
use crate::picker_width::{flash_after_refresh, floor_widens, spec_picker_width, PickerWidthSpec};
use crate::popup::spec_visible_slots;
use crate::mermaid_tokens::{joined_texts, lemma_colorize_rest_spells, lemma_joined_single, spec_colorize_line, TokenKind};
use crate::popup_lines::{history_body, spec_history_popup_lines, window_rows, PopupLine};
use crate::text::{ascii_lower_seq, lemma_ascii_lower_seq_idempotent, lemma_trimmed_ascii_lower, lemma_trimmed_idempotent, trimmed};
use crate::app::{spec_cycle_numkey, spec_max_scroll, spec_next_position, spec_numkey_group, spec_visible_toc, spec_visible_toc_upto, visible_entry, App, NumkeyCycleState};
use crate::history::{other_than, spec_record_open, spec_remove_paths};
use crate::history_picker::{
    matcher_gave, normalized_query, ranked_matches, ranks_before, rows_for_query, spec_index_down, spec_index_up, FuzzyMatch,
    HistoryPickerState,
};
use crate::popup::spec_picker_window;
use crate::toc::{
    has_level_above, lemma_min_level, levels_at_least_one, levels_of, min_level, min_level_above, occurs_once,
    spec_normalize_toc, spec_toc_display_level, spec_toc_promotion, TocEntry,
};

verus! {

proof fn lemma_visible_contains(toc: Seq<TocEntry>, n: int, i: int)
    requires
        0 <= i < n <= toc.len(),
        visible_entry(toc, i) is Some,
    ensures
        exists|j: int| 0 <= j < spec_visible_toc_upto(toc, n).len() && spec_visible_toc_upto(toc, n)[j] == visible_entry(toc, i)->0,
    decreases n,
{
    let v = spec_visible_toc_upto(toc, n);
    if i == n - 1 {
        assert(v[v.len() - 1] == visible_entry(toc, i)->0);
    } else {
        lemma_visible_contains(toc, n - 1, i);
        let prev = spec_visible_toc_upto(toc, n - 1);
        let j = choose|j: int| 0 <= j < prev.len() && prev[j] == visible_entry(toc, i)->0;
        assert(v[j] == prev[j]);
    }
}

proof fn lemma_min_level_above_in(s: Seq<u8>, m: u8)
    requires
        has_level_above(s, m),
    ensures
        exists|i: int| 0 <= i < s.len() && s[i] == min_level_above(s, m) && s[i] > m,
    decreases s.len(),
{
    let w = choose|w: int| 0 <= w < s.len() && s[w] > m;
    if has_level_above(s.drop_last(), m) {
        lemma_min_level_above_in(s.drop_last(), m);
        let i = choose|i: int| 0 <= i < s.drop_last().len() && s.drop_last()[i] == min_level_above(s.drop_last(), m) && s.drop_last()[i] > m;
        assert(s[i] == s.drop_last()[i]);
        if !(s.last() > m && s.last() < min_level_above(s.drop_last(), m)) {
            assert(s[i] == min_level_above(s, m));
        } else {
            assert(s[s.len() - 1] == min_level_above(s, m));
        }
    } else {
        assert(w == s.len() - 1) by {
            if w < s.len() - 1 {
                assert(s.drop_last()[w] == s[w]);
            }
        }
        lemma_min_level_above_none(s.drop_last(), m);
        assert(s[s.len() - 1] == min_level_above(s, m));
    }
}

proof fn lemma_min_level_above_none(s: Seq<u8>, m: u8)
    requires
        !has_level_above(s, m),
    ensures
        min_level_above(s, m) == 255,
    decreases s.len(),
{
    if s.len() > 0 {
        assert(!(s[s.len() - 1] > m));
        assert forall|i: int| 0 <= i < s.drop_last().len() implies !(s.drop_last()[i] > m) by {
            assert(s.drop_last()[i] == s[i]);
        }
        lemma_min_level_above_none(s.drop_last(), m);
    }
}

/// The document's top-level headings are shown at display level 1: some
/// entry of a non-empty table of contents is shown at level 1.
pub proof fn law_top_level_headings_display_at_level_one(toc: Seq<TocEntry>)
    requires
        toc.len() > 0,
        levels_at_least_one(toc),
    ensures
        exists|j: int| 0 <= j < spec_visible_toc(toc).len() && (#[trigger] spec_visible_toc(toc)[j]).1 == 1,
{
    let levels = levels_of(toc);
    lemma_min_level(levels);
    let m = min_level(levels);
    let (shift, hide) = spec_toc_promotion(levels);
    let i = choose|i: int| 0 <= i < levels.len() && levels[i] == m;
    assert(toc[i].level == levels[i]);
    assert(toc[i].level >= 1);
    if m == 1 && occurs_once(levels, m) && has_level_above(levels, m) {
        lemma_min_level_above_in(levels, m);
        let k = choose|k: int| 0 <= k < levels.len() && levels[k] == min_level_above(levels, m) && levels[k] > m;
        assert(toc[k].level == levels[k]);
        assert(visible_entry(toc, k) == Some((k as usize, 1u8)));
        lemma_visible_contains(toc, toc.len() as int, k);
        let v = spec_visible_toc_upto(toc, toc.len() as int);
        let j = choose|j: int| 0 <= j < v.len() && v[j] == visible_entry(toc, k)->0;
        assert(spec_visible_toc(toc)[j].1 == 1);
    } else {
        assert(visible_entry(toc, i) == Some((i as usize, 1u8)));
        lemma_visible_contains(toc, toc.len() as int, i);
        let v = spec_visible_toc_upto(toc, toc.len() as int);
        let j = choose|j: int| 0 <= j < v.len() && v[j] == visible_entry(toc, i)->0;
        assert(spec_visible_toc(toc)[j].1 == 1);
    }
}

/// Normalizing keeps at most three heading levels: every kept heading lies
/// within two levels of the document's minimum, and every heading within
/// that range is kept.
pub proof fn law_normalize_toc_keeps_three_levels(toc: Seq<TocEntry>)
    requires
        toc.len() > 0,
    ensures
        forall|j: int| 0 <= j < spec_normalize_toc(toc).len() ==> min_level(levels_of(toc)) <= (#[trigger] spec_normalize_toc(toc)[j]).level
            <= min_level(levels_of(toc)) + 2,
        forall|i: int| 0 <= i < toc.len() && (#[trigger] toc[i]).level <= min_level(levels_of(toc)) + 2 ==> spec_normalize_toc(toc).contains(toc[i]),
{
    let m = min_level(levels_of(toc));
    lemma_min_level(levels_of(toc));
    let limit = m + 2;
    let pred = |e: TocEntry| e.level <= limit;
    let r = toc.filter(pred);
    assert(spec_normalize_toc(toc) == r);
    assert forall|j: int| 0 <= j < r.len() implies m <= (#[trigger] r[j]).level <= m + 2 by {
        toc.lemma_filter_pred(pred, j);
        assert(r.contains(r[j]));
        toc.lemma_filter_contains_rev(pred, r[j]);
        let i = choose|i: int| 0 <= i < toc.len() && toc[i] == r[j];
        assert(levels_of(toc)[i] == toc[i].level);
    }
    assert forall|i: int| 0 <= i < toc.len() && (#[trigger] toc[i]).level <= m + 2 implies r.contains(toc[i]) by {
        toc.lemma_filter_contains(pred, i);
    }
}

/// A number key pressed in reverse mode undoes a press in forward mode, and
/// the other way round: the walk returns to the heading it left.
pub proof fn law_numkey_cycle_reverse_undoes_forward(p: usize, len: nat)
    requires
        p < len,
        len + 1 <= usize::MAX,
    ensures
        spec_next_position(spec_next_position(p, len, false), len, true) == p,
        spec_next_position(spec_next_position(p, len, true), len, false) == p,
{
    let f = spec_next_position(p, len, false);
    if p + 1 < len {
        assert((p + 1) % (len as int) == p + 1) by (nonlinear_arith)
            requires
                0 <= p + 1 < len,
        ;
        assert((f + len - 1) % (len as int) == p) by (nonlinear_arith)
            requires
                f == p + 1,
                f + len - 1 == p + len,
                p < len,
        ;
    } else {
        assert((p + 1) % (len as int) == 0) by (nonlinear_arith)
            requires
                p + 1 == len,
        ;
        assert((0 + len - 1) % (len as int) == p) by (nonlinear_arith)
            requires
                p + 1 == len,
                len >= 1,
        ;
    }
    let b = spec_next_position(p, len, true);
    if p == 0 {
        assert((p + len - 1) % (len as int) == len - 1) by (nonlinear_arith)
            requires
                p == 0,
                len >= 1,
        ;
        assert((len - 1 + 1) % (len as int) == 0) by (nonlinear_arith)
            requires
                len >= 1,
        ;
    } else {
        assert((p + len - 1) % (len as int) == p - 1) by (nonlinear_arith)
            requires
                1 <= p < len,
        ;
        assert((p - 1 + 1) % (len as int) == p) by (nonlinear_arith)
            requires
                1 <= p < len,
        ;
    }
}

/// Moving the history picker's selection down and then up (or up, then
/// down) comes back to the same row.
pub proof fn law_history_selection_up_undoes_down(i: usize, total: nat)
    requires
        i < total,
        total <= usize::MAX,
    ensures
        spec_index_up(spec_index_down(i, total), total) == i,
        spec_index_down(spec_index_up(i, total), total) == i,
{
    if i + 1 < total {
        assert((i + 1) % (total as int) == i + 1) by (nonlinear_arith)
            requires
                0 <= i + 1 < total,
        ;
    } else {
        assert((i + 1) % (total as int) == 0) by (nonlinear_arith)
            requires
                i + 1 == total,
        ;
    }
    if i == 0 {
        assert((total - 1 + 1) % (total as int) == 0) by (nonlinear_arith)
            requires
                total >= 1,
        ;
    } else {
        assert((i - 1 + 1) % (total as int) == i) by (nonlinear_arith)
            requires
                1 <= i < total,
        ;
    }
}

/// The rows of a filtered history picker are distinct entries.
pub proof fn law_ranked_rows_are_distinct(results: Seq<Option<FuzzyMatch>>, filtered: Seq<usize>, positions: Seq<Vec<usize>>)
    requires
        ranked_matches(results, filtered, positions),
    ensures
        forall|j: int, k: int| 0 <= j < filtered.len() && 0 <= k < filtered.len() && j != k ==> filtered[j] != filtered[k],
{
    assert forall|j: int, k: int| 0 <= j < filtered.len() && 0 <= k < filtered.len() && j != k implies filtered[j] != filtered[k] by {
        if j < k {
            assert(crate::history_picker::ranks_before(results, filtered[j], filtered[k]));
        } else {
            assert(crate::history_picker::ranks_before(results, filtered[k], filtered[j]));
        }
    }
}

/// A picker list always shows the selected row, and no more rows than it has
/// room for.
pub proof fn law_picker_window_shows_selection(slots: nat, index: usize, total: usize)
    requires
        slots > 0,
        index < total,
    ensures
        spec_picker_window(slots, index, total).0 <= index < spec_picker_window(slots, index, total).1,
        spec_picker_window(slots, index, total).1 - spec_picker_window(slots, index, total).0 <= slots,
        spec_picker_window(slots, index, total).1 <= total,
{
}

/// Opening a file puts it first in the history, leaves no other entry for
/// it, and keeps the history within its capacity.
pub proof fn law_record_open_puts_path_first(paths: Seq<Seq<char>>, path: Seq<char>, capacity: nat)
    requires
        capacity >= 1,
    ensures
        spec_record_open(paths, path, capacity).len() >= 1,
        spec_record_open(paths, path, capacity)[0] == path,
        spec_record_open(paths, path, capacity).len() <= capacity,
        forall|i: int| 1 <= i < spec_record_open(paths, path, capacity).len() ==> #[trigger] spec_record_open(paths, path, capacity)[i] != path,
{
    let pred = other_than(path);
    let rest = paths.filter(pred);
    let moved = seq![path] + rest;
    let r = spec_record_open(paths, path, capacity);
    assert(r.len() <= moved.len());
    assert forall|i: int| 1 <= i < r.len() implies #[trigger] r[i] != path by {
        assert(r[i] == moved[i]);
        assert(moved[i] == rest[i - 1]);
        paths.lemma_filter_pred(pred, i - 1);
    }
}

/// A history without duplicate paths stays without duplicates when a file
/// is opened.
pub proof fn law_record_open_keeps_paths_unique(paths: Seq<Seq<char>>, path: Seq<char>, capacity: nat)
    requires
        capacity >= 1,
        forall|i: int, j: int| 0 <= i < j < paths.len() ==> paths[i] != paths[j],
    ensures
        forall|i: int, j: int| 0 <= i < j < spec_record_open(paths, path, capacity).len() ==> spec_record_open(paths, path, capacity)[i]
            != spec_record_open(paths, path, capacity)[j],
{
    let pred = other_than(path);
    let rest = paths.filter(pred);
    lemma_filter_unique(paths, pred);
    law_record_open_puts_path_first(paths, path, capacity);
    let moved = seq![path] + rest;
    let r = spec_record_open(paths, path, capacity);
    assert(r.len() <= moved.len());
    assert forall|i: int, j: int| 0 <= i < j < r.len() implies r[i] != r[j] by {
        assert(r[i] == moved[i] && r[j] == moved[j]);
        if i == 0 {
            assert(r[j] != path);
        } else {
            assert(moved[i] == rest[i - 1]);
            assert(moved[j] == rest[j - 1]);
        }
    }
}

proof fn lemma_filter_unique(s: Seq<Seq<char>>, pred: spec_fn(Seq<char>) -> bool)
    requires
        forall|i: int, j: int| 0 <= i < j < s.len() ==> s[i] != s[j],
    ensures
        forall|i: int, j: int| 0 <= i < j < s.filter(pred).len() ==> s.filter(pred)[i] != s.filter(pred)[j],
    decreases s.len(),
{
    reveal(Seq::filter);
    if s.len() > 0 {
        let d = s.drop_last();
        assert forall|i: int, j: int| 0 <= i < j < d.len() implies d[i] != d[j] by {
            assert(d[i] == s[i] && d[j] == s[j]);
        }
        lemma_filter_unique(d, pred);
        let f = s.filter(pred);
        let fd = d.filter(pred);
        if pred(s.last()) {
            assert forall|i: int, j: int| 0 <= i < j < f.len() implies f[i] != f[j] by {
                if j == f.len() - 1 {
                    assert(fd.contains(f[i]));
                    d.lemma_filter_contains_rev(pred, f[i]);
                    let k = choose|k: int| 0 <= k < d.len() && d[k] == f[i];
                    assert(s[k] == d[k]);
                } else {
                    assert(f[i] == fd[i] && f[j] == fd[j]);
                }
            }
        }
    }
}

/// Removing paths from the history leaves none of them in it.
pub proof fn law_remove_paths_leaves_none(entries: Seq<Seq<char>>, paths: Seq<Seq<char>>)
    ensures
        forall|i: int| 0 <= i < spec_remove_paths(entries, paths).len() ==> !paths.contains(
            #[trigger] spec_remove_paths(entries, paths)[i],
        ),
        forall|i: int| 0 <= i < entries.len() && !paths.contains(#[trigger] entries[i]) ==> spec_remove_paths(entries, paths).contains(entries[i]),
{
    let pred = |p: Seq<char>| !paths.contains(p);
    assert forall|i: int| 0 <= i < spec_remove_paths(entries, paths).len() implies !paths.contains(
        #[trigger] spec_remove_paths(entries, paths)[i],
    ) by {
        entries.lemma_filter_pred(pred, i);
    }
    assert forall|i: int| 0 <= i < entries.len() && !paths.contains(#[trigger] entries[i]) implies spec_remove_paths(entries, paths).contains(entries[i]) by {
        entries.lemma_filter_contains(pred, i);
    }
}

/// Installing a source line twice adds it once: once the line is appended,
/// the start-up file holds it, and a second install appends nothing. (A
/// line with a line break in it is not one line of the file.)
pub proof fn law_source_line_added_once(content: Seq<char>, line: Seq<char>)
    requires
        forall|j: int| 0 <= j < line.len() ==> line[j] != '\n',
        spec_source_line_addition(content, line) is Some,
    ensures
        spec_content_has_line(content + spec_source_line_addition(content, line)->0, line),
        spec_source_line_addition(content + spec_source_line_addition(content, line)->0, line) is None,
{
    let added = spec_source_line_addition(content, line)->0;
    let ended = line + seq!['\n'];
    let front = if content.len() > 0 && content.last() != '\n' {
        content + seq!['\n']
    } else {
        content
    };
    assert(content + added =~= front + ended);
    lemma_lines_append(front, ended);
    lemma_lines_single(line);
    let ls = spec_lines(content + added);
    assert(ls == spec_lines(front) + seq![strip_cr(line)]);
    let j = ls.len() - 1;
    assert(ls[j] == strip_cr(line));
    lemma_trimmed_strip_cr(line);
    assert(trimmed(ls[j]) == trimmed(line));
}

/// Every line kept is free of line breaks and is not the removed line.
proof fn lemma_kept_lines(ls: Seq<Seq<char>>, line: Seq<char>)
    requires
        forall|i: int| 0 <= i < ls.len() ==> no_newline(#[trigger] ls[i]),
    ensures
        forall|i: int|
            0 <= i < kept_lines(ls, line).len() ==> no_newline(#[trigger] kept_lines(ls, line)[i]) && trimmed(
                kept_lines(ls, line)[i],
            ) != trimmed(line),
    decreases ls.len(),
{
    if ls.len() > 0 {
        let front = ls.drop_last();
        assert forall|i: int| 0 <= i < front.len() implies no_newline(#[trigger] front[i]) by {
            assert(front[i] == ls[i]);
        }
        lemma_kept_lines(front, line);
        assert(no_newline(ls[ls.len() - 1]));
        let kf = kept_lines(front, line);
        let k = kept_lines(ls, line);
        assert forall|i: int| 0 <= i < k.len() implies no_newline(#[trigger] k[i]) && trimmed(k[i]) != trimmed(line) by {
            if i < kf.len() {
                assert(k[i] == kf[i]);
            } else {
                assert(k[i] == ls.last());
            }
        }
    }
}

/// Removing a source line leaves the start-up file without it: no line of
/// the new text trims to the removed line.
pub proof fn law_removed_line_is_gone(content: Seq<char>, line: Seq<char>)
    requires
        spec_remove_line(content, line) is Some,
    ensures
        !spec_content_has_line(spec_remove_line(content, line)->0, line),
{
    let ls = spec_lines(content);
    lemma_lines_no_newline(content);
    lemma_kept_lines(ls, line);
    let ks = kept_lines(ls, line);
    let joined = join_lines(ks);
    let r = spec_remove_line(content, line)->0;
    let rl = spec_lines(r);
    if ks.len() == 0 {
        assert(joined.len() == 0);
        assert(r == joined);
        assert(rl.len() == 0);
    } else if content.len() > 0 && content.last() == '\n' && joined.len() > 0 {
        lemma_lines_of_joined_ended(ks);
        assert(r == joined + seq!['\n']);
        assert forall|x: int| 0 <= x < rl.len() implies trimmed(#[trigger] rl[x]) != trimmed(line) by {
            assert(rl[x] == strip_cr(ks[x]));
            lemma_trimmed_strip_cr(ks[x]);
        }
    } else {
        lemma_lines_of_joined(ks);
        assert(r == joined);
        assert forall|x: int| 0 <= x < rl.len() implies trimmed(#[trigger] rl[x]) != trimmed(line) by {
            let i = choose|i: int| 0 <= i < ks.len() && trimmed(rl[x]) == trimmed(ks[i]);
        }
    }
}

/// A picker width reads the same whatever the ASCII case of its letters and
/// whatever white space surrounds it.
pub proof fn law_picker_width_ignores_case_and_padding(s: Seq<char>)
    ensures
        spec_picker_width(ascii_lower_seq(s)) == spec_picker_width(s),
        spec_picker_width(trimmed(s)) == spec_picker_width(s),
{
    lemma_trimmed_ascii_lower(s);
    lemma_ascii_lower_seq_idempotent(trimmed(s));
    lemma_trimmed_idempotent(s);
}

/// The floor warning is shown when the floor starts to widen the picker and
/// not again while it keeps doing so: a second width worked out with the
/// floor still applying leaves the notice as the first left it.
pub proof fn law_floor_warning_only_on_change(
    spec: PickerWidthSpec,
    first_width: u16,
    second_width: u16,
    was_active: bool,
    flash: Option<Seq<char>>,
)
    requires
        floor_widens(spec, first_width) == floor_widens(spec, second_width),
    ensures
        flash_after_refresh(
            spec,
            second_width,
            floor_widens(spec, first_width),
            flash_after_refresh(spec, first_width, was_active, flash),
        ) == flash_after_refresh(spec, first_width, was_active, flash),
{
}

/// The history popup fills its area: it has as many lines as the area is
/// tall, or more when its content does not fit.
pub proof fn law_history_popup_fills_area(
    query: Seq<char>,
    error: Option<Seq<char>>,
    activation_error: Option<Seq<char>>,
    filtered: Seq<usize>,
    index: usize,
    inner_height: usize,
)
    ensures
        spec_history_popup_lines(query, error, activation_error, filtered, index, inner_height).len() >= inner_height,
{
}

/// The history popup shows the selected entry, marked as selected, whenever
/// rows are listed and the popup has room for one.
pub proof fn law_history_popup_shows_selection(
    query: Seq<char>,
    activation_error: Option<Seq<char>>,
    filtered: Seq<usize>,
    index: usize,
    inner_height: usize,
)
    requires
        filtered.len() <= usize::MAX,
        index < filtered.len(),
        spec_visible_slots(inner_height, 3, if activation_error is Some { 3 } else { 2 }, 10) > 0,
    ensures
        spec_history_popup_lines(query, None, activation_error, filtered, index, inner_height).contains(
            PopupLine::Entry { row: index, entry: filtered[index as int], selected: true },
        ),
{
    let reserved: usize = if activation_error is Some { 3 } else { 2 };
    let slots = spec_visible_slots(inner_height, 3, reserved, 10);
    law_picker_window_shows_selection(slots, index, filtered.len() as usize);
    let w = spec_picker_window(slots, index, filtered.len() as usize);
    let rows = window_rows(filtered, index, inner_height, 3, reserved, 10);
    let k = index - w.0;
    assert(rows[k] == PopupLine::<Seq<char>>::Entry { row: index, entry: filtered[index as int], selected: true });
    let head = seq![PopupLine::Title(crate::popup_lines::HISTORY_POPUP_TITLE@), crate::popup_lines::query_line(query), PopupLine::Blank];
    assert(history_body(None, filtered, index, inner_height, reserved) == rows);
    let lines = spec_history_popup_lines(query, None, activation_error, filtered, index, inner_height);
    assert(lines[3 + k] == (head + rows)[3 + k]);
}

/// Colouring a Mermaid line only cuts it into pieces: the pieces' texts, one
/// after another, give back the line.
pub proof fn law_colored_pieces_spell_the_line(line: Seq<char>)
    ensures
        joined_texts(spec_colorize_line(line)) == line,
{
    lemma_colorize_rest_spells(line);
    lemma_joined_single((line, TokenKind::Plain), Seq::empty());
    assert(seq![(line, TokenKind::Plain)] + Seq::<(Seq<char>, TokenKind)>::empty() =~= seq![(line, TokenKind::Plain)]);
    assert(line + Seq::<char>::empty() =~= line);
}

/// The heading position reached after pressing one number key `k` times in
/// a row in forward mode, in a section of `len` headings: the first press
/// goes to the section's top heading; each further press moves one on, as
/// `cycle_numkey` says.
pub open spec fn position_after_presses(k: nat, len: nat) -> usize
    decreases k,
{
    if k <= 1 {
        0
    } else {
        spec_next_position(position_after_presses((k - 1) as nat, len), len, false)
    }
}

/// Pressing one number key again and again walks its section in order and
/// wraps: after `k` presses the walk is at heading `(k - 1) mod len`.
pub proof fn law_numkey_presses_step_and_wrap(k: nat, len: nat)
    requires
        k >= 1,
        len >= 1,
        len <= usize::MAX,
    ensures
        position_after_presses(k, len) == (k - 1) % (len as int),
    decreases k,
{
    if k == 1 {
        assert(0int % (len as int) == 0) by (nonlinear_arith)
            requires
                len >= 1,
        ;
    } else {
        law_numkey_presses_step_and_wrap((k - 1) as nat, len);
        let prev = position_after_presses((k - 1) as nat, len);
        assert(prev == (k - 2) % (len as int));
        vstd::arithmetic::div_mod::lemma_add_mod_noop(k - 2, 1, len as int);
        vstd::arithmetic::div_mod::lemma_mod_bound(k - 2, len as int);
        if len == 1 {
            assert((prev + 1) % 1 == 0);
            assert((k - 1) % 1 == 0);
        } else {
            vstd::arithmetic::div_mod::lemma_small_mod(1, len);
            assert(((k - 2) % (len as int) + 1) % (len as int) == (k - 1) % (len as int));
        }
    }
}

/// The state after pressing number key `key` `k` times in a row.
pub open spec fn after_numkey_presses(a: App, key: u8, k: nat) -> App
    decreases k,
{
    if k == 0 {
        a
    } else {
        spec_cycle_numkey(after_numkey_presses(a, key, (k - 1) as nat), key)
    }
}

/// The state of the viewer at heading `position` of number key `key`'s
/// section, scrolled to it as far as the document allows.
pub open spec fn at_section_heading(a: App, key: u8, position: usize) -> App {
    let g = spec_numkey_group(spec_visible_toc(a.toc@), key);
    let line = a.toc@[g[position as int] as int].line;
    let max = spec_max_scroll(a.total_lines, a.content_height);
    App {
        numkey_cycle: Some(NumkeyCycleState { key, position }),
        reverse_mode: false,
        scroll: if line <= max { line } else { max },
        ..a
    }
}

proof fn lemma_numkey_presses(a: App, key: u8, k: nat)
    requires
        k >= 1,
        spec_numkey_group(spec_visible_toc(a.toc@), key).len() > 0,
        !(a.numkey_cycle matches Some(st) && st.key == key),
    ensures
        after_numkey_presses(a, key, k) == at_section_heading(
            a,
            key,
            position_after_presses(k, spec_numkey_group(spec_visible_toc(a.toc@), key).len()),
        ),
    decreases k,
{
    if k > 1 {
        lemma_numkey_presses(a, key, (k - 1) as nat);
    } else {
        assert(after_numkey_presses(a, key, 0) == a);
        assert(position_after_presses(1, spec_numkey_group(spec_visible_toc(a.toc@), key).len()) == 0);
    }
}

/// Pressing a number key whose section has headings again and again, from
/// outside that key's walk: after `k` presses the view is at heading
/// `(k - 1) mod len` of the section, scrolled to it, not in reverse mode, and
/// nothing else has changed.
pub proof fn law_numkey_presses_walk_the_section(a: App, key: u8, k: nat)
    requires
        k >= 1,
        spec_numkey_group(spec_visible_toc(a.toc@), key).len() > 0,
        !(a.numkey_cycle matches Some(st) && st.key == key),
    ensures
        after_numkey_presses(a, key, k) == at_section_heading(
            a,
            key,
            ((k - 1) % (spec_numkey_group(spec_visible_toc(a.toc@), key).len() as int)) as usize,
        ),
{
    let len = spec_numkey_group(spec_visible_toc(a.toc@), key).len();
    crate::app::lemma_group_len(spec_visible_toc(a.toc@), key);
    crate::app::lemma_visible_len(a.toc@, a.toc@.len() as int);
    assert(a.toc@.len() == a.toc.len());
    lemma_numkey_presses(a, key, k);
    law_numkey_presses_step_and_wrap(k, len);
}

/// No line is dropped when none matches.
proof fn lemma_kept_all(ls: Seq<Seq<char>>, line: Seq<char>)
    requires
        forall|i: int| 0 <= i < ls.len() ==> trimmed(#[trigger] ls[i]) != trimmed(line),
    ensures
        kept_lines(ls, line) == ls,
    decreases ls.len(),
{
    if ls.len() > 0 {
        let front = ls.drop_last();
        assert forall|i: int| 0 <= i < front.len() implies trimmed(#[trigger] front[i]) != trimmed(line) by {
            assert(front[i] == ls[i]);
        }
        lemma_kept_all(front, line);
        assert(trimmed(ls[ls.len() - 1]) != trimmed(line));
        assert(front.push(ls.last()) =~= ls);
    }
}

/// Removing a source line right after adding it gives back the start-up
/// file as it was, for a file without `'\r'` that is empty or ends with a
/// line break (other than a lone line break), and a line without line
/// breaks.
pub proof fn law_remove_undoes_add(content: Seq<char>, line: Seq<char>)
    requires
        spec_source_line_addition(content, line) is Some,
        forall|j: int| 0 <= j < line.len() ==> line[j] != '\n',
        forall|j: int| 0 <= j < content.len() ==> content[j] != '\r',
        content.len() == 0 || (content.last() == '\n' && content.len() > 1),
    ensures
        spec_remove_line(content + spec_source_line_addition(content, line)->0, line) == Some(content),
{
    let added = spec_source_line_addition(content, line)->0;
    let whole = content + added;
    law_source_line_added_once(content, line);
    let ended = line + seq!['\n'];
    assert(added == ended);
    lemma_lines_append(content, ended);
    lemma_lines_single(line);
    let lc = spec_lines(content);
    assert(spec_lines(whole) == lc + seq![strip_cr(line)]);
    lemma_trimmed_strip_cr(line);
    assert(lc + seq![strip_cr(line)] =~= (lc + seq![strip_cr(line)]).drop_last().push(strip_cr(line)));
    assert((lc + seq![strip_cr(line)]).drop_last() =~= lc);
    assert forall|i: int| 0 <= i < lc.len() implies trimmed(#[trigger] lc[i]) != trimmed(line) by {
        if trimmed(lc[i]) == trimmed(line) {
            assert(spec_content_has_line(content, line));
        }
    }
    lemma_kept_all(lc, line);
    assert(kept_lines(spec_lines(whole), line) == lc);
    assert(whole.last() == '\n');
    if content.len() == 0 {
        assert(lc.len() == 0);
        assert(join_lines(lc).len() == 0);
    } else {
        lemma_lines_rejoin(content);
        assert(join_lines(lc).len() > 0);
    }
}

/// What a match says: its score and its matched positions.
pub open spec fn match_view(r: Option<FuzzyMatch>) -> Option<(u64, Seq<usize>)> {
    match r {
        Some(m) => Some((m.score, m.positions@)),
        None => None,
    }
}

/// A matcher that gives one answer for one file name and query.
pub open spec fn deterministic_matcher<F: Fn(&str, &str) -> Option<FuzzyMatch>>(matcher: F) -> bool {
    forall|a1: &str, b1: &str, a2: &str, b2: &str, r1: Option<FuzzyMatch>, r2: Option<FuzzyMatch>|
        #![trigger matcher.ensures((a1, b1), r1), matcher.ensures((a2, b2), r2)]
        a1@ == a2@ && b1@ == b2@ && matcher.ensures((a1, b1), r1) && matcher.ensures((a2, b2), r2) ==> match_view(r1)
            == match_view(r2)
}

/// Two lists that hold the same entries, each best first, are the same.
proof fn lemma_ranked_unique(results: Seq<Option<FuzzyMatch>>, f1: Seq<usize>, f2: Seq<usize>)
    requires
        forall|x: usize| f1.contains(x) <==> f2.contains(x),
        forall|j: int, k: int| 0 <= j < k < f1.len() ==> ranks_before(results, #[trigger] f1[j], #[trigger] f1[k]),
        forall|j: int, k: int| 0 <= j < k < f2.len() ==> ranks_before(results, #[trigger] f2[j], #[trigger] f2[k]),
    ensures
        f1 == f2,
    decreases f1.len(),
{
    if f1.len() == 0 {
        if f2.len() > 0 {
            assert(f2.contains(f2[0]));
        }
        assert(f1 =~= f2);
    } else {
        assert(f1.contains(f1[0]));
        assert(f2.len() > 0);
        let a = f1[0];
        let b = f2[0];
        if a != b {
            assert(f2.contains(a));
            let j = choose|j: int| 0 <= j < f2.len() && f2[j] == a;
            assert(f1.contains(b));
            let k = choose|k: int| 0 <= k < f1.len() && f1[k] == b;
            assert(ranks_before(results, f2[0], f2[j]));
            assert(ranks_before(results, f1[0], f1[k]));
        }
        let t1 = f1.drop_first();
        let t2 = f2.drop_first();
        assert forall|x: usize| t1.contains(x) <==> t2.contains(x) by {
            if t1.contains(x) {
                let j = choose|j: int| 0 <= j < t1.len() && t1[j] == x;
                assert(f1[j + 1] == x);
                assert(ranks_before(results, f1[0], f1[j + 1]));
                assert(f1.contains(x));
                let k = choose|k: int| 0 <= k < f2.len() && f2[k] == x;
                assert(k != 0);
                assert(t2[k - 1] == x);
            }
            if t2.contains(x) {
                let j = choose|j: int| 0 <= j < t2.len() && t2[j] == x;
                assert(f2[j + 1] == x);
                assert(ranks_before(results, f2[0], f2[j + 1]));
                assert(f2.contains(x));
                let k = choose|k: int| 0 <= k < f1.len() && f1[k] == x;
                assert(k != 0);
                assert(t1[k - 1] == x);
            }
        }
        assert forall|j: int, k: int| 0 <= j < k < t1.len() implies ranks_before(results, #[trigger] t1[j], #[trigger] t1[k]) by {
            assert(t1[j] == f1[j + 1] && t1[k] == f1[k + 1]);
        }
        assert forall|j: int, k: int| 0 <= j < k < t2.len() implies ranks_before(results, #[trigger] t2[j], #[trigger] t2[k]) by {
            assert(t2[j] == f2[j + 1] && t2[k] == f2[k + 1]);
        }
        lemma_ranked_unique(results, t1, t2);
        assert(f1 =~= seq![a] + t1);
        assert(f2 =~= seq![b] + t2);
    }
}

/// With a matcher that gives one answer for one file name and query, the
/// rows a picker shows are set by the file names and the query alone: two
/// states worked out for the same query show the same rows with the same
/// matched positions. So deleting a typed character gives back the rows
/// shown before it was typed.
pub proof fn law_same_query_same_rows<F: Fn(&str, &str) -> Option<FuzzyMatch>>(
    matcher: F,
    names: Seq<String>,
    query: Seq<char>,
    index1: usize,
    index2: usize,
    hp1: HistoryPickerState,
    hp2: HistoryPickerState,
)
    requires
        deterministic_matcher(matcher),
        rows_for_query(matcher, names, query, index1, hp1),
        rows_for_query(matcher, names, query, index2, hp2),
    ensures
        hp1.filtered@ == hp2.filtered@,
        hp1.match_positions@.len() == hp2.match_positions@.len(),
        forall|j: int| 0 <= j < hp1.match_positions@.len() ==> (#[trigger] hp1.match_positions@[j])@ == hp2.match_positions@[j]@,
{
    let nq = normalized_query(query);
    if nq.len() > 0 {
        let r1 = choose|results: Seq<Option<FuzzyMatch>>|
            {
                &&& results.len() == names.len()
                &&& forall|i: int|
                    0 <= i < results.len() ==> matcher_gave(matcher, names[i]@, nq, #[trigger] results[i])
                &&& ranked_matches(results, hp1.filtered@, hp1.match_positions@)
            };
        let r2 = choose|results: Seq<Option<FuzzyMatch>>|
            {
                &&& results.len() == names.len()
                &&& forall|i: int|
                    0 <= i < results.len() ==> matcher_gave(matcher, names[i]@, nq, #[trigger] results[i])
                &&& ranked_matches(results, hp2.filtered@, hp2.match_positions@)
            };
        assert forall|i: int| 0 <= i < r1.len() implies match_view(#[trigger] r1[i]) == match_view(r2[i]) by {
            assert(matcher_gave(matcher, names[i]@, nq, r1[i]));
            assert(matcher_gave(matcher, names[i]@, nq, r2[i]));
            let (a1, b1) = choose|a: &str, b: &str| a@ == names[i]@ && b@ == nq && #[trigger] matcher.ensures((a, b), r1[i]);
            let (a2, b2) = choose|a: &str, b: &str| a@ == names[i]@ && b@ == nq && #[trigger] matcher.ensures((a, b), r2[i]);
            assert(matcher.ensures((a1, b1), r1[i]) && matcher.ensures((a2, b2), r2[i]));
        }
        let f1 = hp1.filtered@;
        let f2 = hp2.filtered@;
        assert forall|x: usize| f1.contains(x) <==> f2.contains(x) by {
            if f1.contains(x) {
                let j = choose|j: int| 0 <= j < f1.len() && f1[j] == x;
                assert(r1[f1[j] as int] is Some);
                assert(match_view(r1[x as int]) == match_view(r2[x as int]));
                assert(r2[x as int] is Some);
            }
            if f2.contains(x) {
                let j = choose|j: int| 0 <= j < f2.len() && f2[j] == x;
                assert(r2[f2[j] as int] is Some);
                assert(match_view(r1[x as int]) == match_view(r2[x as int]));
                assert(r1[x as int] is Some);
            }
        }
        assert forall|j: int, k: int| 0 <= j < k < f2.len() implies ranks_before(r1, #[trigger] f2[j], #[trigger] f2[k]) by {
            assert(ranks_before(r2, f2[j], f2[k]));
            assert(match_view(r1[f2[j] as int]) == match_view(r2[f2[j] as int]));
            assert(match_view(r1[f2[k] as int]) == match_view(r2[f2[k] as int]));
        }
        lemma_ranked_unique(r1, f1, f2);
        assert forall|j: int| 0 <= j < hp1.match_positions@.len() implies (#[trigger] hp1.match_positions@[j])@
            == hp2.match_positions@[j]@ by {
            assert(match_view(r1[f1[j] as int]) == match_view(r2[f1[j] as int]));
        }
    }
}

/// Typing a character into the history picker and deleting it again gives
/// back the query and the rows, with their matched positions, shown before
/// it was typed, when the matcher gives one answer for one file name and
/// query. `before` shows the rows for its query; `typed` is a state that
/// `push_history_picker_query` can leave after `ch`, and `deleted` one that
/// `pop_history_picker_query` can leave after that, as their contracts say.
pub proof fn law_pop_undoes_push<F: Fn(&str, &str) -> Option<FuzzyMatch>>(
    matcher: F,
    names: Seq<String>,
    ch: char,
    index_before: usize,
    before: HistoryPickerState,
    typed: HistoryPickerState,
    deleted: HistoryPickerState,
)
    requires
        deterministic_matcher(matcher),
        rows_for_query(matcher, names, before.query@, index_before, before),
        typed.query@ == before.query@.push(ch),
        rows_for_query(matcher, names, before.query@.push(ch), before.index, typed),
        deleted.query@ == typed.query@.drop_last(),
        rows_for_query(matcher, names, deleted.query@, typed.index, deleted),
    ensures
        deleted.query@ == before.query@,
        deleted.filtered@ == before.filtered@,
        deleted.match_positions@.len() == before.match_positions@.len(),
        forall|j: int| 0 <= j < deleted.match_positions@.len() ==> (#[trigger] deleted.match_positions@[j])@ == before.match_positions@[j]@,
{
    assert(before.query@.push(ch).drop_last() =~= before.query@);
    law_same_query_same_rows(matcher, names, before.query@, typed.index, index_before, deleted, before);
}

/// The case of an ASCII query does not change the history picker's rows:
/// with a matcher that gives one answer for one file name and query, two
/// queries that are the same once lower-cased show the same rows with the
/// same matched positions.
pub proof fn law_query_case_does_not_change_rows<F: Fn(&str, &str) -> Option<FuzzyMatch>>(
    matcher: F,
    names: Seq<String>,
    q1: Seq<char>,
    q2: Seq<char>,
    index1: usize,
    index2: usize,
    hp1: HistoryPickerState,
    hp2: HistoryPickerState,
)
    requires
        deterministic_matcher(matcher),
        crate::width::all_ascii(q1),
        crate::width::all_ascii(q2),
        ascii_lower_seq(q1) == ascii_lower_seq(q2),
        rows_for_query(matcher, names, q1, index1, hp1),
        rows_for_query(matcher, names, q2, index2, hp2),
    ensures
        hp1.filtered@ == hp2.filtered@,
        hp1.match_positions@.len() == hp2.match_positions@.len(),
        forall|j: int| 0 <= j < hp1.match_positions@.len() ==> (#[trigger] hp1.match_positions@[j])@ == hp2.match_positions@[j]@,
{
    crate::fit::lemma_all_ascii_trimmed(q1);
    crate::fit::lemma_all_ascii_trimmed(q2);
    lemma_trimmed_ascii_lower(q1);
    lemma_trimmed_ascii_lower(q2);
    assert(normalized_query(q1) == normalized_query(q2));
    assert(rows_for_query(matcher, names, q1, index2, hp2));
    law_same_query_same_rows(matcher, names, q1, index1, index2, hp1, hp2);
}

} // verus!
