use vstd::prelude::*;
use crate::text::{is_whitespace, is_ws, push_all, trim_start, trimmed};

verus! {

/// Index of the first `'\n'` in `s`, or -1 when there is none.
pub open spec fn newline_index(s: Seq<char>) -> int
    decreases s.len(),
{
    if s.len() == 0 {
        -1
    } else if s[0] == '\n' {
        0
    } else {
        let r = newline_index(s.drop_first());
        if r < 0 {
            -1
        } else {
            r + 1
        }
    }
}

pub proof fn lemma_newline_index(s: Seq<char>)
    ensures
        -1 <= newline_index(s) < s.len(),
        newline_index(s) >= 0 ==> s[newline_index(s)] == '\n',
        forall|j: int| 0 <= j < s.len() && (newline_index(s) < 0 || j < newline_index(s)) ==> s[j] != '\n',
    decreases s.len(),
{
    if s.len() > 0 && s[0] != '\n' {
        lemma_newline_index(s.drop_first());
        assert forall|j: int| 0 <= j < s.len() && (newline_index(s) < 0 || j < newline_index(s)) implies s[j] != '\n' by {
            if j > 0 {
                assert(s[j] == s.drop_first()[j - 1]);
            }
        }
    }
}

proof fn lemma_newline_index_at(s: Seq<char>, k: int)
    requires
        0 <= k < s.len(),
        s[k] == '\n',
        forall|j: int| 0 <= j < k ==> s[j] != '\n',
    ensures
        newline_index(s) == k,
{
    lemma_newline_index(s);
}

proof fn lemma_newline_index_none(s: Seq<char>)
    requires
        forall|j: int| 0 <= j < s.len() ==> s[j] != '\n',
    ensures
        newline_index(s) == -1,
{
    lemma_newline_index(s);
}

/// A line without the `'\r'` of a `"\r\n"` ending.
pub open spec fn strip_cr(l: Seq<char>) -> Seq<char> {
    if l.len() > 0 && l.last() == '\r' {
        l.drop_last()
    } else {
        l
    }
}

/// The lines of `s` as `str::lines` yields them: split at `'\n'`, a `'\r'`
/// before it dropped, and no empty line after a final line ending.
pub open spec fn spec_lines(s: Seq<char>) -> Seq<Seq<char>>
    decreases s.len(),
{
    if s.len() == 0 {
        Seq::empty()
    } else {
        let k = newline_index(s);
        if k < 0 {
            seq![s]
        } else {
            proof {
                lemma_newline_index(s);
            }
            seq![strip_cr(s.take(k))] + spec_lines(s.skip(k + 1))
        }
    }
}

/// Lines joined with `'\n'` between them, as `[String]::join("\n")` does.
pub open spec fn join_lines(ls: Seq<Seq<char>>) -> Seq<char>
    decreases ls.len(),
{
    if ls.len() == 0 {
        Seq::empty()
    } else if ls.len() == 1 {
        ls[0]
    } else {
        join_lines(ls.drop_last()) + seq!['\n'] + ls.last()
    }
}

pub fn subrange_chars(s: &Vec<char>, from: usize, to: usize) -> (r: Vec<char>)
    requires
        from <= to <= s.len(),
    ensures
        r@ == s@.subrange(from as int, to as int),
{
    let mut r: Vec<char> = Vec::new();
    let mut i: usize = from;
    while i < to
        invariant
            from <= i <= to <= s.len(),
            r@ == s@.subrange(from as int, i as int),
        decreases to - i,
    {
        r.push(s[i]);
        assert(s@.subrange(from as int, i + 1) == s@.subrange(from as int, i as int).push(s@[i as int]));
        i += 1;
    }
    r
}

/// Splits text into its lines.
pub fn split_lines(s: &Vec<char>) -> (r: Vec<Vec<char>>)
    ensures
        r@.map_values(|l: Vec<char>| l@) == spec_lines(s@),
{
    let mut out: Vec<Vec<char>> = Vec::new();
    let mut pos: usize = 0;
    assert(s@.skip(0) == s@);
    while pos < s.len()
        invariant
            pos <= s.len(),
            out@.map_values(|l: Vec<char>| l@) + spec_lines(s@.skip(pos as int)) == spec_lines(s@),
        decreases s.len() - pos,
    {
        let ghost rest = s@.skip(pos as int);
        let mut k: usize = pos;
        while k < s.len() && s[k] != '\n'
            invariant
                pos <= k <= s.len(),
                forall|j: int| pos <= j < k ==> s@[j] != '\n',
            decreases s.len() - k,
        {
            k += 1;
        }
        let ghost before = out@.map_values(|l: Vec<char>| l@);
        if k == s.len() {
            proof {
                lemma_newline_index_none(rest);
            }
            assert(rest == s@.subrange(pos as int, k as int));
            let seg = subrange_chars(s, pos, k);
            out.push(seg);
            assert(out@.map_values(|l: Vec<char>| l@) == before.push(rest));
            assert(s@.skip(k as int).len() == 0);
            assert(spec_lines(s@.skip(k as int)) == Seq::<Seq<char>>::empty());
            assert(spec_lines(rest) == seq![rest]);
            assert(before.push(rest) + Seq::<Seq<char>>::empty() == before + seq![rest]);
            pos = k;
        } else {
            proof {
                lemma_newline_index_at(rest, k - pos);
                assert(rest.take(k - pos) == s@.subrange(pos as int, k as int));
                assert(rest.skip(k - pos + 1) == s@.skip(k + 1));
            }
            let mut end = k;
            if end > pos && s[end - 1] == '\r' {
                end = end - 1;
            }
            let seg = subrange_chars(s, pos, end);
            assert(seg@ == strip_cr(s@.subrange(pos as int, k as int)));
            out.push(seg);
            assert(out@.map_values(|l: Vec<char>| l@) == before.push(seg@));
            assert(before.push(seg@) + spec_lines(s@.skip(k + 1)) == before + (seq![seg@] + spec_lines(s@.skip(k + 1))));
            pos = k + 1;
        }
    }
    assert(s@.skip(pos as int).len() == 0);
    assert(spec_lines(s@.skip(pos as int)) == Seq::<Seq<char>>::empty());
    assert(out@.map_values(|l: Vec<char>| l@) + Seq::<Seq<char>>::empty() == out@.map_values(|l: Vec<char>| l@));
    out
}

/// Joins lines with `'\n'`.
pub fn join_with_newlines(ls: &Vec<Vec<char>>) -> (r: Vec<char>)
    ensures
        r@ == join_lines(ls@.map_values(|l: Vec<char>| l@)),
{
    let ghost views = ls@.map_values(|l: Vec<char>| l@);
    let mut out: Vec<char> = Vec::new();
    let mut i: usize = 0;
    while i < ls.len()
        invariant
            i <= ls.len(),
            views == ls@.map_values(|l: Vec<char>| l@),
            out@ == join_lines(views.take(i as int)),
        decreases ls.len() - i,
    {
        assert(views.take(i + 1).drop_last() == views.take(i as int));
        assert(views.take(i + 1).last() == ls@[i as int]@);
        if i > 0 {
            out.push('\n');
        }
        push_all(&mut out, &ls[i]);
        if i == 0 {
            assert(views.take(1) == seq![ls@[0]@]);
            assert(Seq::<char>::empty() + ls@[0]@ == ls@[0]@);
        }
        i += 1;
    }
    assert(views.take(ls.len() as int) == views);
    out
}

/// Number of white-space characters at the start of `s`.
pub open spec fn leading_ws(s: Seq<char>) -> nat
    decreases s.len(),
{
    if s.len() > 0 && is_ws(s[0]) {
        1 + leading_ws(s.drop_first())
    } else {
        0
    }
}

pub proof fn lemma_leading_ws(s: Seq<char>)
    ensures
        leading_ws(s) <= s.len(),
        forall|j: int| 0 <= j < leading_ws(s) ==> is_ws(#[trigger] s[j]),
        leading_ws(s) < s.len() ==> !is_ws(s[leading_ws(s) as int]),
    decreases s.len(),
{
    if s.len() > 0 && is_ws(s[0]) {
        lemma_leading_ws(s.drop_first());
        assert forall|j: int| 0 <= j < leading_ws(s) implies is_ws(#[trigger] s[j]) by {
            if j > 0 {
                assert(s[j] == s.drop_first()[j - 1]);
            }
        }
        if leading_ws(s) < s.len() {
            assert(s[leading_ws(s) as int] == s.drop_first()[leading_ws(s.drop_first()) as int]);
        }
    }
}

pub proof fn lemma_leading_ws_at(s: Seq<char>, k: int)
    requires
        0 <= k <= s.len(),
        forall|j: int| 0 <= j < k ==> is_ws(#[trigger] s[j]),
        k < s.len() ==> !is_ws(s[k]),
    ensures
        leading_ws(s) == k,
    decreases k,
{
    if k > 0 {
        assert(is_ws(s[0]));
        assert forall|j: int| 0 <= j < k - 1 implies is_ws(#[trigger] s.drop_first()[j]) by {
            assert(s.drop_first()[j] == s[j + 1]);
        }
        if k - 1 < s.drop_first().len() {
            assert(s.drop_first()[k - 1] == s[k]);
        }
        lemma_leading_ws_at(s.drop_first(), k - 1);
    }
}

/// Counts the white-space characters of `s` from `from` on.
pub fn count_leading_ws(s: &Vec<char>, from: usize) -> (r: usize)
    requires
        from <= s.len(),
    ensures
        from + r <= s.len(),
        r == leading_ws(s@.skip(from as int)),
{
    let mut k: usize = from;
    while k < s.len() && is_whitespace(s[k])
        invariant
            from <= k <= s.len(),
            forall|j: int| from <= j < k ==> is_ws(#[trigger] s@[j]),
        decreases s.len() - k,
    {
        k += 1;
    }
    proof {
        let t = s@.skip(from as int);
        assert forall|j: int| 0 <= j < k - from implies is_ws(#[trigger] t[j]) by {
            assert(t[j] == s@[from + j]);
        }
        if k < s.len() {
            assert(t[k - from] == s@[k as int]);
        }
        lemma_leading_ws_at(t, k - from);
    }
    k - from
}

/// Number of characters at the start of `s` that are not white space.
pub open spec fn leading_non_ws(s: Seq<char>) -> nat
    decreases s.len(),
{
    if s.len() > 0 && !is_ws(s[0]) {
        1 + leading_non_ws(s.drop_first())
    } else {
        0
    }
}

pub proof fn lemma_leading_non_ws_at(s: Seq<char>, k: int)
    requires
        0 <= k <= s.len(),
        forall|j: int| 0 <= j < k ==> !is_ws(#[trigger] s[j]),
        k < s.len() ==> is_ws(s[k]),
    ensures
        leading_non_ws(s) == k,
    decreases k,
{
    if k > 0 {
        assert(!is_ws(s[0]));
        assert forall|j: int| 0 <= j < k - 1 implies !is_ws(#[trigger] s.drop_first()[j]) by {
            assert(s.drop_first()[j] == s[j + 1]);
        }
        if k - 1 < s.drop_first().len() {
            assert(s.drop_first()[k - 1] == s[k]);
        }
        lemma_leading_non_ws_at(s.drop_first(), k - 1);
    }
}

/// Counts the characters of `s` from `from` on up to the next white space.
pub fn count_leading_non_ws(s: &Vec<char>, from: usize) -> (r: usize)
    requires
        from <= s.len(),
    ensures
        from + r <= s.len(),
        r == leading_non_ws(s@.skip(from as int)),
{
    let mut k: usize = from;
    while k < s.len() && !is_whitespace(s[k])
        invariant
            from <= k <= s.len(),
            forall|j: int| from <= j < k ==> !is_ws(#[trigger] s@[j]),
        decreases s.len() - k,
    {
        k += 1;
    }
    proof {
        let t = s@.skip(from as int);
        assert forall|j: int| 0 <= j < k - from implies !is_ws(#[trigger] t[j]) by {
            assert(t[j] == s@[from + j]);
        }
        if k < s.len() {
            assert(t[k - from] == s@[k as int]);
        }
        lemma_leading_non_ws_at(t, k - from);
    }
    k - from
}

pub fn eq_chars(a: &Vec<char>, b: &Vec<char>) -> (r: bool)
    ensures
        r == (a@ == b@),
{
    if a.len() != b.len() {
        return false;
    }
    let mut i: usize = 0;
    while i < a.len()
        invariant
            a.len() == b.len(),
            i <= a.len(),
            forall|k: int| 0 <= k < i ==> a@[k] == b@[k],
        decreases a.len() - i,
    {
        if a[i] != b[i] {
            return false;
        }
        i += 1;
    }
    assert(a@ =~= b@);
    true
}

/// Text that ends with a line break splits into its own lines followed by
/// those of what comes after it.
pub proof fn lemma_lines_append(s: Seq<char>, t: Seq<char>)
    requires
        s.len() == 0 || s.last() == '\n',
    ensures
        spec_lines(s + t) == spec_lines(s) + spec_lines(t),
    decreases s.len(),
{
    if s.len() == 0 {
        assert(s + t =~= t);
        assert(spec_lines(s) + spec_lines(t) =~= spec_lines(t));
    } else {
        lemma_newline_index(s);
        let k = newline_index(s);
        if k < 0 {
            assert(s[s.len() - 1] != '\n');
        }
        assert(k >= 0);
        let st = s + t;
        assert forall|j: int| 0 <= j < k implies st[j] != '\n' by {
            assert(st[j] == s[j]);
        }
        lemma_newline_index_at(st, k);
        assert(st.take(k) =~= s.take(k));
        let rest = s.skip(k + 1);
        assert(st.skip(k + 1) =~= rest + t);
        if rest.len() > 0 {
            assert(rest.last() == s.last());
        }
        lemma_lines_append(rest, t);
        assert(spec_lines(st) == seq![strip_cr(s.take(k))] + spec_lines(rest + t));
        assert(spec_lines(s) == seq![strip_cr(s.take(k))] + spec_lines(rest));
        assert(spec_lines(st) =~= spec_lines(s) + spec_lines(t));
    }
}

/// A line without a line break, ended by one, is a single line.
pub proof fn lemma_lines_single(l: Seq<char>)
    requires
        forall|j: int| 0 <= j < l.len() ==> l[j] != '\n',
    ensures
        spec_lines(l + seq!['\n']) == seq![strip_cr(l)],
{
    let s = l + seq!['\n'];
    assert forall|j: int| 0 <= j < l.len() implies s[j] != '\n' by {
        assert(s[j] == l[j]);
    }
    lemma_newline_index_at(s, l.len() as int);
    assert(s.take(l.len() as int) =~= l);
    let e = s.skip(l.len() as int + 1);
    assert(e.len() == 0);
    assert(spec_lines(e) =~= Seq::<Seq<char>>::empty());
    assert(spec_lines(s) == seq![strip_cr(s.take(l.len() as int))] + spec_lines(e));
    assert(spec_lines(s) =~= seq![strip_cr(l)]);
}

/// Trailing white space does not change a trimmed line.
pub proof fn lemma_trimmed_push_ws(x: Seq<char>, w: char)
    requires
        is_ws(w),
    ensures
        trimmed(x.push(w)) == trimmed(x),
    decreases x.len(),
{
    if x.len() == 0 {
        assert(x.push(w).drop_first() =~= x);
        assert(trim_start(x.push(w)) == trim_start(x.push(w).drop_first()));
    } else if is_ws(x[0]) {
        assert(x.push(w).drop_first() =~= x.drop_first().push(w));
        lemma_trimmed_push_ws(x.drop_first(), w);
    } else {
        assert(x.push(w)[0] == x[0]);
        assert(trim_start(x.push(w)) == x.push(w));
        assert(x.push(w).drop_last() =~= x);
    }
}

/// Dropping the `'\r'` of a `"\r\n"` ending does not change a trimmed line.
pub proof fn lemma_trimmed_strip_cr(l: Seq<char>)
    ensures
        trimmed(strip_cr(l)) == trimmed(l),
{
    if l.len() > 0 && l.last() == '\r' {
        assert(l.drop_last().push('\r') =~= l);
        lemma_trimmed_push_ws(l.drop_last(), '\r');
    }
}

/// `l` holds no line break.
pub open spec fn no_newline(l: Seq<char>) -> bool {
    forall|j: int| 0 <= j < l.len() ==> l[j] != '\n'
}

/// No line of a text holds a line break.
pub proof fn lemma_lines_no_newline(s: Seq<char>)
    ensures
        forall|i: int| 0 <= i < spec_lines(s).len() ==> no_newline(#[trigger] spec_lines(s)[i]),
    decreases s.len(),
{
    if s.len() > 0 {
        lemma_newline_index(s);
        let k = newline_index(s);
        if k >= 0 {
            lemma_lines_no_newline(s.skip(k + 1));
            let first = strip_cr(s.take(k));
            assert(no_newline(first)) by {
                assert forall|j: int| 0 <= j < first.len() implies first[j] != '\n' by {
                    assert(first[j] == s[j]);
                }
            }
            let ls = spec_lines(s);
            assert(ls == seq![first] + spec_lines(s.skip(k + 1)));
            assert forall|i: int| 0 <= i < ls.len() implies no_newline(#[trigger] ls[i]) by {
                if i > 0 {
                    assert(ls[i] == spec_lines(s.skip(k + 1))[i - 1]);
                }
            }
        }
    }
}

/// A non-empty piece of text without a line break is one line.
pub proof fn lemma_lines_unended(t: Seq<char>)
    requires
        t.len() > 0,
        no_newline(t),
    ensures
        spec_lines(t) == seq![t],
{
    lemma_newline_index_none(t);
}

/// Lines without line breaks, joined and ended by a line break, split back
/// into themselves (each without a final `'\r'`).
pub proof fn lemma_lines_of_joined_ended(ks: Seq<Seq<char>>)
    requires
        ks.len() > 0,
        forall|i: int| 0 <= i < ks.len() ==> no_newline(#[trigger] ks[i]),
    ensures
        spec_lines(join_lines(ks) + seq!['\n']) == ks.map_values(|l: Seq<char>| strip_cr(l)),
    decreases ks.len(),
{
    if ks.len() == 1 {
        lemma_lines_single(ks[0]);
        assert(ks.map_values(|l: Seq<char>| strip_cr(l)) =~= seq![strip_cr(ks[0])]);
    } else {
        let front = ks.drop_last();
        assert forall|i: int| 0 <= i < front.len() implies no_newline(#[trigger] front[i]) by {
            assert(front[i] == ks[i]);
        }
        lemma_lines_of_joined_ended(front);
        let a = join_lines(front) + seq!['\n'];
        let b = ks.last() + seq!['\n'];
        assert(join_lines(ks) + seq!['\n'] =~= a + b);
        lemma_lines_append(a, b);
        assert(no_newline(ks[ks.len() - 1]));
        lemma_lines_single(ks.last());
        assert(spec_lines(join_lines(ks) + seq!['\n']) =~= ks.map_values(|l: Seq<char>| strip_cr(l)));
    }
}

/// Lines without line breaks, joined, split back into lines each of which
/// trims like one of them.
pub proof fn lemma_lines_of_joined(ks: Seq<Seq<char>>)
    requires
        ks.len() > 0,
        forall|i: int| 0 <= i < ks.len() ==> no_newline(#[trigger] ks[i]),
    ensures
        forall|x: int|
            0 <= x < spec_lines(join_lines(ks)).len() ==> exists|i: int|
                0 <= i < ks.len() && trimmed(#[trigger] spec_lines(join_lines(ks))[x]) == trimmed(ks[i]),
{
    let ls = spec_lines(join_lines(ks));
    if ks.len() == 1 {
        if ks[0].len() > 0 {
            lemma_lines_unended(ks[0]);
            assert forall|x: int| 0 <= x < ls.len() implies exists|i: int|
                0 <= i < ks.len() && trimmed(#[trigger] ls[x]) == trimmed(ks[i]) by {
                assert(ls[x] == ks[0]);
            }
        } else {
            assert(ls.len() == 0);
        }
    } else {
        let front = ks.drop_last();
        assert forall|i: int| 0 <= i < front.len() implies no_newline(#[trigger] front[i]) by {
            assert(front[i] == ks[i]);
        }
        lemma_lines_of_joined_ended(front);
        let a = join_lines(front) + seq!['\n'];
        let last = ks.last();
        assert(join_lines(ks) =~= a + last);
        lemma_lines_append(a, last);
        let fm = front.map_values(|l: Seq<char>| strip_cr(l));
        if last.len() > 0 {
            assert(no_newline(ks[ks.len() - 1]));
            lemma_lines_unended(last);
            assert(ls == fm + seq![last]);
        } else {
            assert(spec_lines(last).len() == 0);
            assert(ls =~= fm);
        }
        assert forall|x: int| 0 <= x < ls.len() implies exists|i: int|
            0 <= i < ks.len() && trimmed(#[trigger] ls[x]) == trimmed(ks[i]) by {
            if x < fm.len() {
                assert(ls[x] == strip_cr(front[x]));
                lemma_trimmed_strip_cr(front[x]);
                assert(trimmed(ls[x]) == trimmed(ks[x]));
            } else {
                assert(ls[x] == ks[ks.len() - 1]);
            }
        }
    }
}

/// Joining a line before non-empty lines puts a line break between.
pub proof fn lemma_join_prepend(x: Seq<char>, ls: Seq<Seq<char>>)
    requires
        ls.len() > 0,
    ensures
        join_lines(seq![x] + ls) == x + seq!['\n'] + join_lines(ls),
    decreases ls.len(),
{
    let all = seq![x] + ls;
    if ls.len() == 1 {
        assert(all.drop_last() =~= seq![x]);
        assert(all.last() == ls[0]);
        assert(join_lines(seq![x]) == x);
        assert(join_lines(ls) == ls[0]);
        assert(join_lines(all) == join_lines(all.drop_last()) + seq!['\n'] + all.last());
        assert(join_lines(all) =~= x + seq!['\n'] + join_lines(ls));
    } else {
        lemma_join_prepend(x, ls.drop_last());
        assert(all.drop_last() =~= seq![x] + ls.drop_last());
        assert(all.last() == ls.last());
        assert(join_lines(all) =~= x + seq!['\n'] + join_lines(ls));
    }
}

/// Text that ends with a line break and holds no `'\r'` is its lines
/// joined, with a final line break.
pub proof fn lemma_lines_rejoin(s: Seq<char>)
    requires
        s.len() > 0,
        s.last() == '\n',
        forall|j: int| 0 <= j < s.len() ==> s[j] != '\r',
    ensures
        join_lines(spec_lines(s)) + seq!['\n'] == s,
    decreases s.len(),
{
    lemma_newline_index(s);
    let k = newline_index(s);
    if k < 0 {
        assert(s[s.len() - 1] != '\n');
    }
    let first = s.take(k);
    let rest = s.skip(k + 1);
    assert(strip_cr(first) == first) by {
        if first.len() > 0 {
            assert(first.last() == s[k - 1]);
        }
    }
    assert(spec_lines(s) == seq![first] + spec_lines(rest));
    if rest.len() == 0 {
        assert(spec_lines(rest).len() == 0);
        assert(spec_lines(s) =~= seq![first]);
        assert(s =~= first + seq!['\n']);
    } else {
        assert(rest.last() == s.last());
        assert forall|j: int| 0 <= j < rest.len() implies rest[j] != '\r' by {
            assert(rest[j] == s[k + 1 + j]);
        }
        lemma_lines_rejoin(rest);
        assert(spec_lines(rest).len() > 0) by {
            if spec_lines(rest).len() == 0 {
                assert(join_lines(spec_lines(rest)).len() == 0);
            }
        }
        lemma_join_prepend(first, spec_lines(rest));
        assert(s =~= first + seq!['\n'] + rest);
        assert(join_lines(spec_lines(s)) + seq!['\n'] =~= first + seq!['\n'] + (join_lines(spec_lines(rest)) + seq!['\n']));
    }
}

} // verus!
