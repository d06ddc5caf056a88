use vstd::prelude::*;
use crate::lines::{count_leading_non_ws, count_leading_ws, leading_non_ws, leading_ws, subrange_chars};
use crate::text::{chars_of, push_all, string_of};
use crate::text::is_ws;
use crate::width::{all_ascii, ascii_text, display_width, printable_ascii, str_width};

verus! {

/// The white-space separated words of `s`, as `str::split_whitespace` yields
/// them.
pub open spec fn words(s: Seq<char>) -> Seq<Seq<char>>
    decreases s.len(),
{
    let t = s.skip(leading_ws(s) as int);
    if leading_ws(s) >= s.len() {
        Seq::empty()
    } else {
        proof {
            crate::lines::lemma_leading_ws(s);
            lemma_leading_non_ws_pos(t);
        }
        let n = leading_non_ws(t);
        seq![t.take(n as int)] + words(t.skip(n as int))
    }
}

pub proof fn lemma_leading_non_ws_pos(t: Seq<char>)
    requires
        t.len() > 0 ==> !crate::text::is_ws(t[0]),
    ensures
        leading_non_ws(t) <= t.len(),
        t.len() > 0 ==> leading_non_ws(t) >= 1,
    decreases t.len(),
{
    if t.len() > 0 {
        lemma_leading_non_ws_le(t.drop_first());
    }
}

pub proof fn lemma_leading_non_ws_le(t: Seq<char>)
    ensures
        leading_non_ws(t) <= t.len(),
    decreases t.len(),
{
    if t.len() > 0 {
        lemma_leading_non_ws_le(t.drop_first());
    }
}

/// Whether the character at `j` of `w` still fits on a line of `max`
/// columns after the characters before it.
pub open spec fn char_fits(w: Seq<char>, j: int, max: usize) -> bool {
    str_width(w.take(j)) + str_width(seq![w[j]]) <= max
}

/// Number of leading characters of `w`, from `j` on, that each fit.
pub open spec fn fit_count(w: Seq<char>, max: usize, j: int) -> int
    decreases w.len() - j,
{
    if 0 <= j < w.len() && char_fits(w, j, max) {
        fit_count(w, max, j + 1)
    } else {
        j
    }
}

/// How many characters of an over-long word go on one line: as many as fit,
/// but at least one.
pub open spec fn split_len(w: Seq<char>, max: usize) -> int {
    let k = fit_count(w, max, 0);
    if k >= 1 {
        k
    } else {
        1
    }
}

pub proof fn lemma_fit_count(w: Seq<char>, max: usize, j: int)
    requires
        0 <= j <= w.len(),
    ensures
        j <= fit_count(w, max, j) <= w.len(),
    decreases w.len() - j,
{
    if j < w.len() && char_fits(w, j, max) {
        lemma_fit_count(w, max, j + 1);
    }
}

/// The lines an over-long word is cut into, and what is left of it once it
/// fits in `max` columns.
pub open spec fn break_word(w: Seq<char>, max: usize) -> (Seq<Seq<char>>, Seq<char>)
    decreases w.len(),
{
    if w.len() > 0 && str_width(w) > max {
        let k = split_len(w, max);
        proof {
            lemma_fit_count(w, max, 0);
        }
        let (rest, last) = break_word(w.skip(k), max);
        (seq![w.take(k)] + rest, last)
    } else {
        (Seq::empty(), w)
    }
}

/// One word added to the lines being wrapped: onto the current line when it
/// fits after a space; otherwise the current line is closed and the word
/// starts the next one, cut into pieces when it is wider than a line.
pub open spec fn wrap_step(state: (Seq<Seq<char>>, Seq<char>), w: Seq<char>, max: usize) -> (Seq<Seq<char>>, Seq<char>) {
    let (lines, cur) = state;
    let sep: int = if cur.len() > 0 {
        1
    } else {
        0
    };
    let cw: int = if cur.len() > 0 {
        str_width(cur) as int
    } else {
        0
    };
    if cw + sep + str_width(w) <= max {
        (lines, if sep > 0 {
            cur + seq![' '] + w
        } else {
            cur + w
        })
    } else {
        let closed = if cur.len() > 0 {
            lines.push(cur)
        } else {
            lines
        };
        let (pieces, rest) = break_word(w, max);
        (closed + pieces, rest)
    }
}

pub open spec fn wrap_words(ws: Seq<Seq<char>>, max: usize) -> (Seq<Seq<char>>, Seq<char>)
    decreases ws.len(),
{
    if ws.len() == 0 {
        (Seq::empty(), Seq::empty())
    } else {
        wrap_step(wrap_words(ws.drop_last(), max), ws.last(), max)
    }
}

/// `text` wrapped to lines of at most `max` display columns where words
/// allow: words are joined by single spaces, and a word wider than a line is
/// cut. Empty text gives one empty line.
pub open spec fn spec_wrap_display_text(text: Seq<char>, max: usize) -> Seq<Seq<char>> {
    if text.len() == 0 {
        seq![Seq::empty()]
    } else {
        let (lines, cur) = wrap_words(words(text), max);
        if cur.len() > 0 {
            lines.push(cur)
        } else {
            lines
        }
    }
}

pub fn width_of_chars(s: &Vec<char>) -> (r: usize)
    ensures
        r == str_width(s@),
        s@.len() == 0 ==> r == 0,
        printable_ascii(s@) ==> r == s@.len(),
        line_ascii(s@) ==> r == s@.len(),
{
    let st = string_of(s);
    proof {
        if line_ascii(s@) {
            lemma_line_ascii_text(s@);
        }
    }
    display_width(st.as_str())
}

/// The words of `s`.
pub fn split_words(s: &Vec<char>) -> (r: Vec<Vec<char>>)
    ensures
        r@.map_values(|w: Vec<char>| w@) == words(s@),
{
    let mut out: Vec<Vec<char>> = Vec::new();
    let mut pos: usize = 0;
    assert(s@.skip(0) == s@);
    loop
        invariant
            pos <= s.len(),
            out@.map_values(|w: Vec<char>| w@) + words(s@.skip(pos as int)) == words(s@),
        decreases s.len() - pos,
    {
        let ghost rest = s@.skip(pos as int);
        let lead = count_leading_ws(s, pos);
        proof {
            crate::lines::lemma_leading_ws(rest);
        }
        if pos + lead >= s.len() {
            assert(words(rest) == Seq::<Seq<char>>::empty());
            assert(out@.map_values(|w: Vec<char>| w@) + Seq::<Seq<char>>::empty() == out@.map_values(|w: Vec<char>| w@));
            return out;
        }
        let start = pos + lead;
        let n = count_leading_non_ws(s, start);
        proof {
            let t = rest.skip(lead as int);
            assert(t == s@.skip(start as int));
            lemma_leading_non_ws_pos(t);
            assert(t.take(n as int) == s@.subrange(start as int, start + n));
            assert(t.skip(n as int) == s@.skip(start + n));
        }
        let w = subrange_chars(s, start, start + n);
        let ghost before = out@.map_values(|x: Vec<char>| x@);
        out.push(w);
        assert(out@.map_values(|x: Vec<char>| x@) == before.push(w@));
        assert(before.push(w@) + words(s@.skip(start + n)) == before + (seq![w@] + words(s@.skip(start + n))));
        pos = start + n;
    }
}

fn fits_at(w: &Vec<char>, j: usize, max: usize) -> (r: bool)
    requires
        j < w.len(),
    ensures
        r == char_fits(w@, j as int, max),
        line_ascii(w@) ==> (r <==> j + 1 <= max),
{
    let prefix = subrange_chars(w, 0, j);
    assert(prefix@ == w@.take(j as int));
    let one = vec![w[j]];
    assert(one@ == seq![w@[j as int]]);
    let a = width_of_chars(&prefix);
    let b = width_of_chars(&one);
    proof {
        if line_ascii(w@) {
            assert(line_ascii(prefix@));
            assert(line_ascii(one@));
        }
    }
    a <= max && b <= max - a
}

/// How many characters of `w` go on one line of `max` columns.
fn split_point(w: &Vec<char>, max: usize) -> (r: usize)
    requires
        w@.len() > 0,
    ensures
        r == split_len(w@, max),
        1 <= r <= w@.len(),
        line_ascii(w@) && max >= 1 ==> r <= max,
{
    let mut j: usize = 0;
    proof {
        lemma_fit_count(w@, max, 0);
    }
    while j < w.len() && fits_at(w, j, max)
        invariant
            j <= w.len(),
            fit_count(w@, max, 0) == fit_count(w@, max, j as int),
            line_ascii(w@) ==> j <= max,
        decreases w.len() - j,
    {
        j += 1;
    }
    assert(fit_count(w@, max, j as int) == j);
    if j >= 1 {
        j
    } else {
        1
    }
}

pub open spec fn views(v: Seq<Vec<char>>) -> Seq<Seq<char>> {
    v.map_values(|l: Vec<char>| l@)
}

/// Cuts `w` while it is wider than `max`, adding the pieces to `lines`;
/// returns what is left.
fn break_word_into(lines: &mut Vec<Vec<char>>, w: Vec<char>, max: usize) -> (rest: Vec<char>)
    ensures
        views(final(lines)@) == views(old(lines)@) + break_word(w@, max).0,
        rest@ == break_word(w@, max).1,
        line_ascii(w@) && max >= 1 ==> {
            &&& forall|j: int|
                old(lines)@.len() <= j < final(lines)@.len() ==> (#[trigger] final(lines)@[j])@.len() <= max
                    && line_ascii(final(lines)@[j]@)
            &&& rest@.len() <= max
            &&& line_ascii(rest@)
        },
{
    let ghost start = views(lines@);
    let ghost first_new = lines@.len();
    let mut rem = w;
    loop
        invariant
            start == views(old(lines)@),
            first_new == old(lines)@.len(),
            first_new <= lines@.len(),
            line_ascii(w@) ==> line_ascii(rem@),
            line_ascii(w@) && max >= 1 ==> forall|j: int|
                first_new <= j < lines@.len() ==> (#[trigger] lines@[j])@.len() <= max && line_ascii(lines@[j]@),
            views(lines@) + break_word(rem@, max).0 == start + break_word(w@, max).0,
            break_word(rem@, max).1 == break_word(w@, max).1,
        decreases rem@.len(),
    {
        let wd = width_of_chars(&rem);
        if !(rem.len() > 0 && wd > max) {
            assert(break_word(rem@, max).0 == Seq::<Seq<char>>::empty());
            assert(views(lines@) + Seq::<Seq<char>>::empty() == views(lines@));
            return rem;
        }
        let k = split_point(&rem, max);
        let piece = subrange_chars(&rem, 0, k);
        let next = subrange_chars(&rem, k, rem.len());
        assert(piece@ == rem@.take(k as int));
        assert(next@ == rem@.skip(k as int));
        proof {
            if line_ascii(w@) {
                assert(line_ascii(next@));
                assert(line_ascii(piece@));
            }
        }
        let ghost before = views(lines@);
        lines.push(piece);
        assert(views(lines@) == before.push(piece@));
        assert(before.push(piece@) + break_word(next@, max).0 == before + (seq![piece@] + break_word(next@, max).0));
        rem = next;
    }
}

/// Wraps `text` to lines of at most `max_width` display columns, cutting
/// words wider than a line.
pub fn wrap_display_text(text: &str, max_width: usize) -> (r: Vec<String>)
    ensures
        r@.map_values(|l: String| l@) == spec_wrap_display_text(text@, max_width),
        all_ascii(text@) && max_width >= 1 ==> forall|j: int|
            0 <= j < r@.len() ==> line_ascii((#[trigger] r@[j])@) && r@[j]@.len() <= max_width,
{
    let t = chars_of(text);
    if t.len() == 0 {
        let mut one: Vec<String> = Vec::new();
        one.push(String::new());
        assert(one@.map_values(|l: String| l@) == seq![Seq::<char>::empty()]);
        return one;
    }
    let ws = split_words(&t);
    let ghost wv = views(ws@);
    assert(wv == words(t@));
    proof {
        if all_ascii(t@) {
            lemma_words_line_ascii(t@);
            assert forall|j: int| 0 <= j < ws@.len() implies line_ascii(#[trigger] ws@[j]@) by {
                assert(wv[j] == ws@[j]@);
            }
        }
    }
    let mut lines: Vec<Vec<char>> = Vec::new();
    let mut current: Vec<char> = Vec::new();
    let mut i: usize = 0;
    assert(wv.take(0) =~= Seq::<Seq<char>>::empty());
    while i < ws.len()
        invariant
            i <= ws.len(),
            wv == views(ws@),
            (views(lines@), current@) == wrap_words(wv.take(i as int), max_width),
            all_ascii(t@) ==> forall|j: int| 0 <= j < ws@.len() ==> line_ascii(#[trigger] ws@[j]@),
            all_ascii(t@) && max_width >= 1 ==> {
                &&& forall|j: int| 0 <= j < lines@.len() ==> line_ascii((#[trigger] lines@[j])@) && lines@[j]@.len() <= max_width
                &&& line_ascii(current@)
                &&& current@.len() <= max_width
            },
        decreases ws.len() - i,
    {
        assert(wv.take(i + 1).drop_last() == wv.take(i as int));
        assert(wv.take(i + 1).last() == ws@[i as int]@);
        let word = ws[i].clone();
        let sep: usize = if current.len() > 0 { 1 } else { 0 };
        let cw = width_of_chars(&current);
        let ww = width_of_chars(&word);
        let ghost old_current = current@;
        let ghost old_lines = lines@;
        if cw <= max_width && ww <= max_width - cw && sep <= max_width - cw - ww {
            if sep > 0 {
                current.push(' ');
            }
            push_all(&mut current, &word);
            proof {
                if all_ascii(t@) && max_width >= 1 {
                    assert(line_ascii(word@));
                    assert(current@ == (if sep > 0 { old_current.push(' ') } else { old_current }) + word@);
                    assert forall|x: int| 0 <= x < current@.len() implies line_ascii_char(#[trigger] current@[x]) by {
                        if sep > 0 {
                            if x < old_current.len() {
                                assert(current@[x] == old_current[x]);
                            } else if x > old_current.len() {
                                assert(current@[x] == word@[x - old_current.len() - 1]);
                            }
                        } else if x < old_current.len() {
                            assert(current@[x] == old_current[x]);
                        } else {
                            assert(current@[x] == word@[x - old_current.len()]);
                        }
                    }
                }
            }
        } else {
            if current.len() > 0 {
                let ghost before = views(lines@);
                lines.push(current);
                assert(views(lines@) == before.push(current@));
            }
            let ghost mid_lines = lines@;
            proof {
                if all_ascii(t@) && max_width >= 1 {
                    assert(line_ascii(word@));
                    assert forall|j: int| 0 <= j < mid_lines.len() implies line_ascii((#[trigger] mid_lines[j])@)
                        && mid_lines[j]@.len() <= max_width by {
                        if j < old_lines.len() {
                            assert(mid_lines[j] == old_lines[j]);
                        }
                    }
                }
            }
            current = break_word_into(&mut lines, word, max_width);
            proof {
                if all_ascii(t@) && max_width >= 1 {
                    assert forall|j: int| 0 <= j < lines@.len() implies line_ascii((#[trigger] lines@[j])@)
                        && lines@[j]@.len() <= max_width by {
                        if j < mid_lines.len() {
                            assert(views(lines@)[j] == views(mid_lines)[j]);
                            assert(lines@[j]@ == mid_lines[j]@);
                        }
                    }
                }
            }
        }
        i += 1;
    }
    assert(wv.take(ws.len() as int) == wv);
    if current.len() > 0 {
        let ghost before = views(lines@);
        lines.push(current);
        assert(views(lines@) == before.push(current@));
    }
    let mut out: Vec<String> = Vec::new();
    let mut k: usize = 0;
    while k < lines.len()
        invariant
            k <= lines.len(),
            out@.map_values(|l: String| l@) == views(lines@).take(k as int),
            out@.len() == k,
            forall|j: int| 0 <= j < k ==> (#[trigger] out@[j])@ == lines@[j]@,
        decreases lines.len() - k,
    {
        out.push(string_of(&lines[k]));
        assert(views(lines@).take(k + 1) == views(lines@).take(k as int).push(lines@[k as int]@));
        k += 1;
    }
    assert(views(lines@).take(lines.len() as int) == views(lines@));
    out
}

/// An ASCII character that neither ends nor breaks a line.
pub open spec fn line_ascii_char(c: char) -> bool {
    (c as u32) < 0x80 && c != '\r' && c != '\n'
}

/// ASCII text on one line: no carriage return and no line feed.
pub open spec fn line_ascii(s: Seq<char>) -> bool {
    forall|i: int| 0 <= i < s.len() ==> line_ascii_char(#[trigger] s[i])
}

pub proof fn lemma_line_ascii_text(s: Seq<char>)
    requires
        line_ascii(s),
    ensures
        ascii_text(s),
{
    assert forall|i: int| 0 <= i < s.len() implies (#[trigger] s[i] as u32) < 0x80 by {
        assert(line_ascii_char(s[i]));
    }
}

/// The characters that start a text are not white space, up to its first
/// white space.
proof fn lemma_leading_non_ws_chars(t: Seq<char>)
    ensures
        forall|j: int| 0 <= j < leading_non_ws(t) ==> !is_ws(#[trigger] t[j]),
    decreases t.len(),
{
    lemma_leading_non_ws_le(t);
    if t.len() > 0 && !is_ws(t[0]) {
        lemma_leading_non_ws_chars(t.drop_first());
        assert forall|j: int| 0 <= j < leading_non_ws(t) implies !is_ws(#[trigger] t[j]) by {
            if j > 0 {
                assert(t[j] == t.drop_first()[j - 1]);
            }
        }
    }
}

/// The words of ASCII text are ASCII text on one line.
pub proof fn lemma_words_line_ascii(s: Seq<char>)
    requires
        all_ascii(s),
    ensures
        forall|j: int| 0 <= j < words(s).len() ==> line_ascii(#[trigger] words(s)[j]),
    decreases s.len(),
{
    let lead = leading_ws(s);
    if lead < s.len() {
        crate::lines::lemma_leading_ws(s);
        let t = s.skip(lead as int);
        lemma_leading_non_ws_pos(t);
        lemma_leading_non_ws_chars(t);
        let n = leading_non_ws(t);
        assert(all_ascii(t.skip(n as int))) by {
            assert forall|i: int| 0 <= i < t.skip(n as int).len() implies (#[trigger] t.skip(n as int)[i] as u32) < 0x80 by {
                assert(t.skip(n as int)[i] == s[lead + n + i]);
            }
        }
        lemma_words_line_ascii(t.skip(n as int));
        let ws = words(s);
        assert(ws == seq![t.take(n as int)] + words(t.skip(n as int)));
        assert forall|j: int| 0 <= j < ws.len() implies line_ascii(#[trigger] ws[j]) by {
            if j == 0 {
                assert forall|i: int| 0 <= i < ws[0].len() implies line_ascii_char(#[trigger] ws[0][i]) by {
                    assert(ws[0][i] == s[lead + i]);
                    assert(ws[0][i] == t[i]);
                    assert(!is_ws(t[i]));
                    assert((s[lead + i] as u32) < 0x80);
                }
            } else {
                assert(ws[j] == words(t.skip(n as int))[j - 1]);
            }
        }
    }
}

/// Text without white space is one word: itself.
pub proof fn lemma_words_of_one_word(t: Seq<char>)
    requires
        t.len() > 0,
        forall|j: int| 0 <= j < t.len() ==> !is_ws(#[trigger] t[j]),
    ensures
        words(t) == seq![t],
{
    crate::lines::lemma_leading_ws(t);
    assert(leading_ws(t) == 0) by {
        assert(!is_ws(t[0]));
    }
    assert(t.skip(0) =~= t);
    crate::lines::lemma_leading_non_ws_at(t, t.len() as int);
    assert(t.take(t.len() as int) =~= t);
    assert(t.skip(t.len() as int) =~= Seq::<char>::empty());
    assert(words(Seq::<char>::empty()) =~= Seq::<Seq<char>>::empty());
    assert(words(t) =~= seq![t]);
}

/// A word that fits in the width is not cut: wrapping text that is one word
/// no wider than `max` gives that word as the only line.
pub proof fn law_fitting_word_is_one_line(t: Seq<char>, max: usize)
    requires
        t.len() > 0,
        forall|j: int| 0 <= j < t.len() ==> !is_ws(#[trigger] t[j]),
        str_width(t) <= max,
    ensures
        spec_wrap_display_text(t, max) == seq![t],
{
    lemma_words_of_one_word(t);
    let ws = seq![t];
    assert(ws.drop_last() =~= Seq::<Seq<char>>::empty());
    assert(wrap_words(ws.drop_last(), max) == (Seq::<Seq<char>>::empty(), Seq::<char>::empty()));
    assert(Seq::<char>::empty() + t =~= t);
    assert(wrap_words(ws, max) == (Seq::<Seq<char>>::empty(), t));
    assert(Seq::<Seq<char>>::empty().push(t) =~= seq![t]);
}

} // verus!
