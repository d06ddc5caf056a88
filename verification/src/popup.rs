use vstd::prelude::*;
use crate::lines::subrange_chars;
use crate::text::{chars_of, push_all, string_of};
use crate::width::{char_display_width, char_width, display_width, printable_ascii, str_width};

verus! {

/// Columns a character takes; a control character takes none.
pub open spec fn cw(c: char) -> nat {
    match char_width(c) {
        Some(w) => w as nat,
        None => 0,
    }
}

/// How many leading characters of `s` fit in `budget` columns, counting on
/// from the `i`th with `acc` columns used.
pub open spec fn left_fit(s: Seq<char>, budget: nat, acc: nat, i: int) -> int
    decreases s.len() - i,
{
    if 0 <= i < s.len() && acc + cw(s[i]) <= budget {
        left_fit(s, budget, acc + cw(s[i]), i + 1)
    } else {
        i
    }
}

/// How many trailing characters of `s` fit in `budget` columns.
pub open spec fn right_fit(s: Seq<char>, budget: nat, acc: nat, k: int) -> int
    decreases s.len() - k,
{
    if 0 <= k < s.len() && acc + cw(s[s.len() - 1 - k]) <= budget {
        right_fit(s, budget, acc + cw(s[s.len() - 1 - k]), k + 1)
    } else {
        k
    }
}

pub proof fn lemma_left_fit(s: Seq<char>, budget: nat, acc: nat, i: int)
    requires
        0 <= i <= s.len(),
    ensures
        i <= left_fit(s, budget, acc, i) <= s.len(),
    decreases s.len() - i,
{
    if i < s.len() && acc + cw(s[i]) <= budget {
        lemma_left_fit(s, budget, acc + cw(s[i]), i + 1);
    }
}

pub proof fn lemma_right_fit(s: Seq<char>, budget: nat, acc: nat, k: int)
    requires
        0 <= k <= s.len(),
    ensures
        k <= right_fit(s, budget, acc, k) <= s.len(),
    decreases s.len() - k,
{
    if k < s.len() && acc + cw(s[s.len() - 1 - k]) <= budget {
        lemma_right_fit(s, budget, acc + cw(s[s.len() - 1 - k]), k + 1);
    }
}

/// `path` shortened to `max_width` columns by an ellipsis in the middle: as
/// many leading characters as fit in half the room left by `...`, and as many
/// trailing ones as fit in the rest. A path that fits, or a width of three
/// columns or less, leaves the path as it is.
pub open spec fn spec_truncate_middle(path: Seq<char>, max_width: usize) -> Seq<char> {
    if str_width(path) <= max_width || max_width <= 3 {
        path
    } else {
        let available = (max_width - 3) as nat;
        let left_budget = available / 2;
        let right_budget = (available - left_budget) as nat;
        let l = left_fit(path, left_budget, 0, 0);
        let r = right_fit(path, right_budget, 0, 0);
        path.take(l) + seq!['.', '.', '.'] + path.skip(path.len() - r)
    }
}

fn width_or_zero(c: char) -> (r: usize)
    ensures
        r == cw(c),
        ' ' <= c <= '~' ==> r == 1,
{
    match char_display_width(c) {
        Some(w) => w,
        None => 0,
    }
}

pub fn truncate_middle(path: &str, max_width: usize) -> (r: String)
    ensures
        r@ == spec_truncate_middle(path@, max_width),
        printable_ascii(path@) ==> printable_ascii(r@) && (r@.len() <= max_width || (max_width <= 3 && r@ == path@)),
{
    let total = display_width(path);
    let p = chars_of(path);
    if total <= max_width || max_width <= 3 {
        return string_of(&p);
    }
    let available = max_width - 3;
    let left_budget = available / 2;
    let right_budget = available - left_budget;
    let mut left_width: usize = 0;
    let mut i: usize = 0;
    proof {
        lemma_left_fit(p@, left_budget as nat, 0, 0);
    }
    loop
        invariant
            i <= p.len(),
            left_width <= left_budget,
            left_fit(p@, left_budget as nat, 0, 0) == left_fit(p@, left_budget as nat, left_width as nat, i as int),
            p@ == path@,
            printable_ascii(path@) ==> left_width == i,
        ensures
            left_fit(p@, left_budget as nat, 0, 0) == i,
        decreases p.len() - i,
    {
        if i >= p.len() {
            break;
        }
        let w = width_or_zero(p[i]);
        if w > left_budget - left_width {
            break;
        }
        left_width += w;
        i += 1;
    }
    let mut right_width: usize = 0;
    let mut k: usize = 0;
    proof {
        lemma_right_fit(p@, right_budget as nat, 0, 0);
    }
    loop
        invariant
            k <= p.len(),
            right_width <= right_budget,
            right_fit(p@, right_budget as nat, 0, 0) == right_fit(p@, right_budget as nat, right_width as nat, k as int),
            p@ == path@,
            printable_ascii(path@) ==> right_width == k,
        ensures
            right_fit(p@, right_budget as nat, 0, 0) == k,
        decreases p.len() - k,
    {
        if k >= p.len() {
            break;
        }
        let w = width_or_zero(p[p.len() - 1 - k]);
        if w > right_budget - right_width {
            break;
        }
        right_width += w;
        k += 1;
    }
    let mut out = subrange_chars(&p, 0, i);
    out.push('.');
    out.push('.');
    out.push('.');
    let tail = subrange_chars(&p, p.len() - k, p.len());
    push_all(&mut out, &tail);
    assert(out@ == p@.take(i as int) + seq!['.', '.', '.'] + p@.skip(p.len() - k));
    string_of(&out)
}

/// How a history entry is shown in a row of `max_width` columns.
pub enum HistoryEntryLayout {
    /// The whole path, shortened in the middle.
    Whole(String),
    /// The directory part (possibly shortened), then the file name, which
    /// the caller highlights.
    Split { parent: String, filename: String },
}

pub open spec fn layout_view(l: HistoryEntryLayout) -> (Seq<char>, Option<Seq<char>>) {
    match l {
        HistoryEntryLayout::Whole(p) => (p@, None),
        HistoryEntryLayout::Split { parent, filename } => (parent@, Some(filename@)),
    }
}

/// The row for a history entry whose path is `path`, whose directory part
/// (ending in a separator, or empty) is `parent` and whose file name is
/// `filename`: the directory and name when both fit; the name with the
/// directory shortened when the name leaves four columns; otherwise the
/// whole path shortened. A path without a file name is shown whole.
pub open spec fn spec_history_entry_layout(
    path: Seq<char>,
    parent: Seq<char>,
    filename: Seq<char>,
    max_width: usize,
) -> (Seq<char>, Option<Seq<char>>) {
    if filename.len() == 0 {
        (spec_truncate_middle(path, max_width), None)
    } else if str_width(parent) + str_width(filename) <= max_width {
        (parent, Some(filename))
    } else if str_width(filename) + 4 <= max_width {
        (spec_truncate_middle(parent, (max_width - str_width(filename)) as usize), Some(filename))
    } else {
        (spec_truncate_middle(path, max_width), None)
    }
}

pub fn history_entry_layout(path: &str, parent: &str, filename: &str, max_width: usize) -> (r: HistoryEntryLayout)
    ensures
        layout_view(r) == spec_history_entry_layout(path@, parent@, filename@, max_width),
{
    if filename.is_empty() {
        return HistoryEntryLayout::Whole(truncate_middle(path, max_width));
    }
    let fw = display_width(filename);
    let pw = display_width(parent);
    let fname = string_of(&chars_of(filename));
    if fw <= max_width && pw <= max_width - fw {
        return HistoryEntryLayout::Split { parent: string_of(&chars_of(parent)), filename: fname };
    }
    if fw <= max_width && 4 <= max_width - fw {
        let available = max_width - fw;
        return HistoryEntryLayout::Split { parent: truncate_middle(parent, available), filename: fname };
    }
    HistoryEntryLayout::Whole(truncate_middle(path, max_width))
}

/// Rows shown by a picker: as many as the inner height leaves after the
/// header and footer, at most `max_slots`.
pub open spec fn spec_visible_slots(inner_height: usize, header_lines: usize, reserved_footer_lines: usize, max_slots: usize) -> nat {
    let room: int = inner_height - header_lines - reserved_footer_lines;
    let room: int = if room < 0 {
        0
    } else {
        room
    };
    if room < max_slots {
        room as nat
    } else {
        max_slots as nat
    }
}

/// The rows `start..end` of a picker list: scrolled just enough that the
/// selected row `index` is shown.
pub open spec fn spec_picker_window(slots: nat, index: usize, total: usize) -> (usize, usize) {
    let start: int = if slots == 0 || index < slots {
        0
    } else {
        index + 1 - slots
    };
    let end: int = if start + slots < total {
        start + slots
    } else {
        total as int
    };
    (start as usize, end as usize)
}

pub fn picker_window(
    inner_height: usize,
    header_lines: usize,
    reserved_footer_lines: usize,
    max_slots: usize,
    index: usize,
    total: usize,
) -> (r: (usize, usize))
    ensures
        r == spec_picker_window(spec_visible_slots(inner_height, header_lines, reserved_footer_lines, max_slots), index, total),
{
    let used = header_lines.saturating_add(reserved_footer_lines);
    let room = inner_height.saturating_sub(used);
    let slots = if room < max_slots {
        room
    } else {
        max_slots
    };
    assert(slots == spec_visible_slots(inner_height, header_lines, reserved_footer_lines, max_slots));
    let start = if slots == 0 || index < slots {
        0
    } else {
        index - slots + 1
    };
    let end = if start < total && slots < total - start {
        start + slots
    } else {
        total
    };
    (start, end)
}

} // verus!
