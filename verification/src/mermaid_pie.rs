use vstd::prelude::*;
use crate::lines::{spec_lines, split_lines, subrange_chars};
use crate::text::{starts_with, starts_with_chars, string_of, chars_of, trim_chars, trimmed};

verus! {

/// `s` without leading `'"'`.
pub open spec fn trim_quotes_start(s: Seq<char>) -> Seq<char>
    decreases s.len(),
{
    if s.len() > 0 && s[0] == '"' {
        trim_quotes_start(s.drop_first())
    } else {
        s
    }
}

/// `s` without trailing `'"'`.
pub open spec fn trim_quotes_end(s: Seq<char>) -> Seq<char>
    decreases s.len(),
{
    if s.len() > 0 && s.last() == '"' {
        trim_quotes_end(s.drop_last())
    } else {
        s
    }
}

/// `s` without the `'"'` at either end, as `str::trim_matches('"')` gives it.
pub open spec fn trim_quotes(s: Seq<char>) -> Seq<char> {
    trim_quotes_end(trim_quotes_start(s))
}

/// Index of the last `c` in `s`, or -1 when there is none.
pub open spec fn last_index(s: Seq<char>, c: char) -> int
    decreases s.len(),
{
    if s.len() == 0 {
        -1
    } else if s.last() == c {
        s.len() - 1
    } else {
        last_index(s.drop_last(), c)
    }
}

proof fn lemma_last_index(s: Seq<char>, c: char)
    ensures
        -1 <= last_index(s, c) < s.len(),
        last_index(s, c) >= 0 ==> s[last_index(s, c)] == c,
    decreases s.len(),
{
    if s.len() > 0 && s.last() != c {
        lemma_last_index(s.drop_last(), c);
    }
}

/// The title and the slices read so far from a pie chart's source: each
/// slice a label and the text of its value.
pub open spec fn pie_step(
    st: (Seq<char>, Seq<(Seq<char>, Seq<char>)>),
    source_line: Seq<char>,
) -> (Seq<char>, Seq<(Seq<char>, Seq<char>)>) {
    let l = trimmed(source_line);
    if l.len() == 0 {
        st
    } else if starts_with(l, "pie"@) {
        let rest = trimmed(l.skip(3));
        if rest.len() > 0 && starts_with(rest, "title"@) {
            (trimmed(rest.skip(5)), st.1)
        } else {
            st
        }
    } else if starts_with(l, "title"@) {
        (trimmed(l.skip(5)), st.1)
    } else {
        let k = last_index(l, ':');
        if k >= 0 {
            (st.0, st.1.push((trim_quotes(trimmed(l.take(k))), trimmed(l.skip(k + 1)))))
        } else {
            st
        }
    }
}

pub open spec fn pie_steps(ls: Seq<Seq<char>>) -> (Seq<char>, Seq<(Seq<char>, Seq<char>)>)
    decreases ls.len(),
{
    if ls.len() == 0 {
        (Seq::empty(), Seq::empty())
    } else {
        pie_step(pie_steps(ls.drop_last()), ls.last())
    }
}

/// A pie chart's title and slices, read line by line: `pie` and an optional
/// `title` after it, a `title` line, and `LABEL : VALUE` lines, split at the
/// last colon, the label trimmed and unquoted, the value trimmed. A later
/// title replaces an earlier one; other lines are skipped.
pub open spec fn spec_pie_parts(content: Seq<char>) -> (Seq<char>, Seq<(Seq<char>, Seq<char>)>) {
    pie_steps(spec_lines(content))
}

/// A pie chart's title and slices.
pub struct PieParts {
    pub title: String,
    /// Each slice's label and the text of its value.
    pub slices: Vec<(String, String)>,
}

pub open spec fn pie_view(p: PieParts) -> (Seq<char>, Seq<(Seq<char>, Seq<char>)>) {
    (p.title@, p.slices@.map_values(|s: (String, String)| (s.0@, s.1@)))
}

fn trim_quotes_chars(s: &Vec<char>) -> (r: Vec<char>)
    ensures
        r@ == trim_quotes(s@),
{
    let mut i: usize = 0;
    assert(s@.skip(0) =~= s@);
    while i < s.len() && s[i] == '"'
        invariant
            i <= s.len(),
            trim_quotes_start(s@) == trim_quotes_start(s@.skip(i as int)),
        decreases s.len() - i,
    {
        assert(s@.skip(i as int).drop_first() =~= s@.skip(i + 1));
        i += 1;
    }
    let mut j: usize = s.len();
    assert(s@.skip(i as int) =~= s@.subrange(i as int, j as int));
    while j > i && s[j - 1] == '"'
        invariant
            i <= j <= s.len(),
            trim_quotes_start(s@) == s@.skip(i as int),
            trim_quotes_end(s@.skip(i as int)) == trim_quotes_end(s@.subrange(i as int, j as int)),
        decreases j - i,
    {
        assert(s@.subrange(i as int, j as int).drop_last() =~= s@.subrange(i as int, j - 1));
        j -= 1;
    }
    subrange_chars(s, i, j)
}

fn skip_chars(s: &Vec<char>, n: usize) -> (r: Vec<char>)
    requires
        n <= s.len(),
    ensures
        r@ == s@.skip(n as int),
{
    let r = subrange_chars(s, n, s.len());
    assert(r@ =~= s@.skip(n as int));
    r
}

/// Reads one line of a pie chart's source into `title` and `slices`.
fn pie_line(title: &mut String, slices: &mut Vec<(String, String)>, source_line: &Vec<char>)
    ensures
        pie_view(PieParts { title: *final(title), slices: *final(slices) }) == pie_step(
            pie_view(PieParts { title: *old(title), slices: *old(slices) }),
            source_line@,
        ),
{
    let l = trim_chars(source_line);
    if l.len() == 0 {
        return;
    }
    let pie = chars_of("pie");
    let title_word = chars_of("title");
    proof {
        reveal_strlit("pie");
        reveal_strlit("title");
    }
    if starts_with_chars(&l, &pie) {
        let rest = trim_chars(&skip_chars(&l, 3));
        if rest.len() > 0 && starts_with_chars(&rest, &title_word) {
            *title = string_of(&trim_chars(&skip_chars(&rest, 5)));
        }
        return;
    }
    if starts_with_chars(&l, &title_word) {
        *title = string_of(&trim_chars(&skip_chars(&l, 5)));
        return;
    }
    let mut k = l.len();
    proof {
        lemma_last_index(l@, ':');
    }
    assert(l@.take(k as int) =~= l@);
    while k > 0 && l[k - 1] != ':'
        invariant
            k <= l.len(),
            last_index(l@, ':') == last_index(l@.take(k as int), ':'),
        decreases k,
    {
        assert(l@.take(k as int).drop_last() =~= l@.take(k - 1));
        k -= 1;
    }
    if k == 0 {
        return;
    }
    let colon = k - 1;
    assert(last_index(l@, ':') == colon);
    let label = trim_quotes_chars(&trim_chars(&subrange_chars(&l, 0, colon)));
    let value = trim_chars(&skip_chars(&l, colon + 1));
    assert(l@.subrange(0, colon as int) =~= l@.take(colon as int));
    let ghost before = slices@.map_values(|s: (String, String)| (s.0@, s.1@));
    let slice = (string_of(&label), string_of(&value));
    slices.push(slice);
    assert(slices@.map_values(|s: (String, String)| (s.0@, s.1@)) =~= before.push((label@, value@)));
}

/// Reads a pie chart's title and slices, as `spec_pie_parts` says; the
/// values are left as text.
pub fn pie_parts(content: &str) -> (r: PieParts)
    ensures
        pie_view(r) == spec_pie_parts(content@),
{
    let c = chars_of(content);
    let ls = split_lines(&c);
    let ghost lv = ls@.map_values(|l: Vec<char>| l@);
    let mut title = String::new();
    let mut slices: Vec<(String, String)> = Vec::new();
    let mut i: usize = 0;
    assert(pie_view(PieParts { title, slices }) =~= pie_steps(lv.take(0)));
    while i < ls.len()
        invariant
            i <= ls.len(),
            lv == ls@.map_values(|l: Vec<char>| l@),
            lv == spec_lines(content@),
            pie_view(PieParts { title, slices }) == pie_steps(lv.take(i as int)),
        decreases ls.len() - i,
    {
        assert(lv.take(i + 1).drop_last() =~= lv.take(i as int));
        assert(lv.take(i + 1).last() == ls@[i as int]@);
        pie_line(&mut title, &mut slices, &ls[i]);
        i += 1;
    }
    assert(lv.take(ls.len() as int) =~= lv);
    PieParts { title, slices }
}

} // verus!
