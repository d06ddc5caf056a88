use vstd::prelude::*;
use crate::lines::{lemma_newline_index, newline_index, no_newline, spec_lines, strip_cr};
use crate::text::{lemma_trim_end, lemma_trim_start, trim_end, trim_start, trimmed};
use crate::width::all_ascii;

verus! {

/// Every stretch of `s` without a line break, and so every line of `s`,
/// holds at most `max` characters.
pub open spec fn rows_fit(s: Seq<char>, max: int) -> bool {
    forall|a: int, b: int| 0 <= a <= b <= s.len() && no_newline(#[trigger] s.subrange(a, b)) ==> b - a <= max
}

/// Text that is empty or ends with a line break.
pub open spec fn ends_line(s: Seq<char>) -> bool {
    s.len() == 0 || s.last() == '\n'
}

pub proof fn lemma_ends_line_append(x: Seq<char>, y: Seq<char>)
    requires
        ends_line(x),
        ends_line(y),
    ensures
        ends_line(x + y),
{
    if y.len() == 0 {
        assert(x + y =~= x);
    } else {
        assert((x + y).last() == y.last());
    }
}

pub proof fn lemma_rows_fit_empty(max: int)
    requires
        max >= 0,
    ensures
        rows_fit(Seq::<char>::empty(), max),
{
}

/// Text that ends a line, followed by more text, fits where both fit.
pub proof fn lemma_rows_fit_append(x: Seq<char>, y: Seq<char>, max: int)
    requires
        rows_fit(x, max),
        rows_fit(y, max),
        ends_line(x),
    ensures
        rows_fit(x + y, max),
{
    let s = x + y;
    let n = x.len() as int;
    assert forall|a: int, b: int| 0 <= a <= b <= s.len() && no_newline(#[trigger] s.subrange(a, b)) implies b - a <= max by {
        if b <= n {
            assert(s.subrange(a, b) =~= x.subrange(a, b));
        } else if a >= n {
            assert(s.subrange(a, b) =~= y.subrange(a - n, b - n));
        } else {
            assert(s.subrange(a, b)[n - 1 - a] == x[n - 1]);
        }
    }
}

/// One line of at most `max` characters, ended by a line break.
pub proof fn lemma_rows_fit_row(body: Seq<char>, max: int)
    requires
        no_newline(body),
        body.len() <= max,
    ensures
        rows_fit(body + seq!['\n'], max),
        ends_line(body + seq!['\n']),
{
    let s = body + seq!['\n'];
    let n = body.len() as int;
    assert forall|a: int, b: int| 0 <= a <= b <= s.len() && no_newline(#[trigger] s.subrange(a, b)) implies b - a <= max by {
        if b == n + 1 && a < b {
            assert(s.subrange(a, b)[n - a] == '\n');
        }
    }
}

/// A prefix of text that fits, fits.
pub proof fn lemma_rows_fit_take(s: Seq<char>, k: int, max: int)
    requires
        rows_fit(s, max),
        0 <= k <= s.len(),
    ensures
        rows_fit(s.take(k), max),
{
    let t = s.take(k);
    assert forall|a: int, b: int| 0 <= a <= b <= t.len() && no_newline(#[trigger] t.subrange(a, b)) implies b - a <= max by {
        assert(t.subrange(a, b) =~= s.subrange(a, b));
    }
}

pub proof fn lemma_rows_fit_wider(s: Seq<char>, max: int, wider: int)
    requires
        rows_fit(s, max),
        max <= wider,
    ensures
        rows_fit(s, wider),
{
}

/// Trimming the end of text that fits leaves text that fits.
pub proof fn lemma_rows_fit_trim_end(s: Seq<char>, max: int)
    requires
        rows_fit(s, max),
    ensures
        rows_fit(trim_end(s), max),
{
    lemma_trim_end(s);
    lemma_rows_fit_take(s, trim_end(s).len() as int, max);
}

/// Every line of `s` is empty or holds exactly `w` characters.
pub open spec fn lines_of_width(s: Seq<char>, w: int) -> bool {
    forall|a: int, b: int|
        0 <= a <= b <= s.len() && (a == 0 || s[a - 1] == '\n') && (b == s.len() || s[b] == '\n') && no_newline(
            #[trigger] s.subrange(a, b),
        ) ==> b - a == 0 || b - a == w
}

/// Text that ends a line, followed by more text, has lines of one width
/// where both have.
pub proof fn lemma_lines_of_width_append(x: Seq<char>, y: Seq<char>, w: int)
    requires
        lines_of_width(x, w),
        lines_of_width(y, w),
        ends_line(x),
    ensures
        lines_of_width(x + y, w),
{
    let s = x + y;
    let n = x.len() as int;
    assert forall|a: int, b: int|
        0 <= a <= b <= s.len() && (a == 0 || s[a - 1] == '\n') && (b == s.len() || s[b] == '\n') && no_newline(
            #[trigger] s.subrange(a, b),
        ) implies b - a == 0 || b - a == w by {
        if b <= n {
            assert(s.subrange(a, b) =~= x.subrange(a, b));
            if a > 0 {
                assert(s[a - 1] == x[a - 1]);
            }
            if b < n {
                assert(s[b] == x[b]);
            }
        } else if a >= n {
            assert(s.subrange(a, b) =~= y.subrange(a - n, b - n));
            if a > n {
                assert(s[a - 1] == y[a - 1 - n]);
            }
            if b < s.len() {
                assert(s[b] == y[b - n]);
            }
        } else {
            assert(s.subrange(a, b)[n - 1 - a] == x[n - 1]);
        }
    }
}

/// One line of exactly `w` characters, or an empty one, ended by a line
/// break.
pub proof fn lemma_lines_of_width_row(body: Seq<char>, w: int)
    requires
        no_newline(body),
        body.len() == w || body.len() == 0,
    ensures
        lines_of_width(body + seq!['\n'], w),
{
    let s = body + seq!['\n'];
    let n = body.len() as int;
    assert forall|a: int, b: int|
        0 <= a <= b <= s.len() && (a == 0 || s[a - 1] == '\n') && (b == s.len() || s[b] == '\n') && no_newline(
            #[trigger] s.subrange(a, b),
        ) implies b - a == 0 || b - a == w by {
        if a > 0 && a <= n {
            assert(s[a - 1] == body[a - 1]);
        }
        if b == n + 1 && a < b {
            assert(s.subrange(a, b)[n - a] == '\n');
        }
        if b < n {
            assert(s[b] == body[b]);
        }
    }
}

/// A piece of ASCII text is ASCII text.
pub proof fn lemma_all_ascii_subrange(s: Seq<char>, a: int, b: int)
    requires
        all_ascii(s),
        0 <= a <= b <= s.len(),
    ensures
        all_ascii(s.subrange(a, b)),
{
    assert forall|i: int| 0 <= i < b - a implies (#[trigger] s.subrange(a, b)[i] as u32) < 0x80 by {
        assert(s.subrange(a, b)[i] == s[a + i]);
    }
}

pub proof fn lemma_all_ascii_trimmed(s: Seq<char>)
    requires
        all_ascii(s),
    ensures
        all_ascii(trimmed(s)),
{
    lemma_trim_start(s);
    let t = trim_start(s);
    assert(t == s.subrange(s.len() - t.len(), s.len() as int));
    lemma_all_ascii_subrange(s, s.len() - t.len(), s.len() as int);
    lemma_trim_end(t);
    assert(trim_end(t) == t.subrange(0, trim_end(t).len() as int));
    lemma_all_ascii_subrange(t, 0, trim_end(t).len() as int);
}

/// Lines that are all ASCII text.
pub open spec fn all_ascii_lines(ls: Seq<Seq<char>>) -> bool {
    forall|i: int| 0 <= i < ls.len() ==> all_ascii(#[trigger] ls[i])
}

/// The lines of ASCII text are ASCII text.
pub proof fn lemma_lines_ascii(s: Seq<char>)
    requires
        all_ascii(s),
    ensures
        all_ascii_lines(spec_lines(s)),
    decreases s.len(),
{
    if s.len() > 0 {
        lemma_newline_index(s);
        let k = newline_index(s);
        if k >= 0 {
            lemma_all_ascii_subrange(s, k + 1, s.len() as int);
            assert(s.skip(k + 1) == s.subrange(k + 1, s.len() as int));
            lemma_lines_ascii(s.skip(k + 1));
            lemma_all_ascii_subrange(s, 0, k);
            let first = strip_cr(s.take(k));
            assert(all_ascii(first)) by {
                assert forall|i: int| 0 <= i < first.len() implies (#[trigger] first[i] as u32) < 0x80 by {
                    assert(first[i] == s[i]);
                }
            }
            let ls = spec_lines(s);
            assert(ls == seq![first] + spec_lines(s.skip(k + 1)));
            assert forall|i: int| 0 <= i < ls.len() implies all_ascii(#[trigger] ls[i]) by {
                if i > 0 {
                    assert(ls[i] == spec_lines(s.skip(k + 1))[i - 1]);
                }
            }
        } else {
            assert(spec_lines(s) == seq![s]);
        }
    }
}

} // verus!
