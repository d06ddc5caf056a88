use vstd::prelude::*;
use crate::text::{chars_of, string_of, push_all};

verus! {

/// Whether `c` separates path components: `/`, and on Windows also `\`.
pub open spec fn is_sep(c: char, windows: bool) -> bool {
    c == '/' || (windows && c == '\\')
}

fn is_sep_char(c: char, windows: bool) -> (r: bool)
    ensures
        r == is_sep(c, windows),
{
    c == '/' || (windows && c == '\\')
}

/// Index of the last separator in `p`, or -1 when there is none.
pub open spec fn last_sep(p: Seq<char>, windows: bool) -> int
    decreases p.len(),
{
    if p.len() == 0 {
        -1
    } else if is_sep(p.last(), windows) {
        p.len() - 1
    } else {
        last_sep(p.drop_last(), windows)
    }
}

pub proof fn lemma_last_sep(p: Seq<char>, windows: bool)
    ensures
        -1 <= last_sep(p, windows) < p.len(),
        last_sep(p, windows) >= 0 ==> is_sep(p[last_sep(p, windows)], windows),
        forall|j: int| last_sep(p, windows) < j < p.len() ==> !is_sep(p[j], windows),
    decreases p.len(),
{
    if p.len() > 0 && !is_sep(p.last(), windows) {
        lemma_last_sep(p.drop_last(), windows);
        assert forall|j: int| last_sep(p, windows) < j < p.len() implies !is_sep(p[j], windows) by {
            if j < p.len() - 1 {
                assert(p[j] == p.drop_last()[j]);
            }
        }
    }
}

/// Index of the first separator (`/` or `\`) at or after `i`, or the length
/// of `p` when there is none.
pub open spec fn next_sep(p: Seq<char>, i: int) -> int
    decreases p.len() - i,
{
    if i < 0 || i >= p.len() {
        p.len() as int
    } else if is_sep(p[i], true) {
        i
    } else {
        next_sep(p, i + 1)
    }
}

proof fn lemma_next_sep(p: Seq<char>, i: int)
    requires
        0 <= i,
    ensures
        i <= next_sep(p, i) <= p.len() || (i > p.len() && next_sep(p, i) == p.len()),
    decreases p.len() - i,
{
    if i < p.len() && !is_sep(p[i], true) {
        lemma_next_sep(p, i + 1);
    }
}

/// A Windows path that starts with a drive, such as `C:`.
pub open spec fn win_drive(p: Seq<char>) -> bool {
    p.len() >= 2 && (('a' <= p[0] <= 'z') || ('A' <= p[0] <= 'Z')) && p[1] == ':'
}

/// A Windows path that starts with `\\`: a UNC, device or verbatim prefix.
pub open spec fn win_unc(p: Seq<char>) -> bool {
    p.len() >= 2 && p[0] == '\\' && p[1] == '\\'
}

/// The length of a path's prefix: none on Unix; on Windows a drive such as
/// `C:`, or `\\server\share` (also `\\?\C:` and `\\.\device`).
pub open spec fn prefix_len(p: Seq<char>, windows: bool) -> int {
    if !windows {
        0
    } else if win_drive(p) {
        2
    } else if win_unc(p) {
        let s = next_sep(p, 2);
        if s >= p.len() {
            p.len() as int
        } else {
            next_sep(p, s + 1)
        }
    } else {
        0
    }
}

proof fn lemma_prefix_len(p: Seq<char>, windows: bool)
    ensures
        0 <= prefix_len(p, windows) <= p.len(),
{
    if windows && !win_drive(p) && win_unc(p) {
        lemma_next_sep(p, 2);
        let s = next_sep(p, 2);
        if s < p.len() {
            lemma_next_sep(p, s + 1);
        }
    }
}

fn find_next_sep(p: &Vec<char>, i: usize) -> (r: usize)
    requires
        i <= p.len(),
    ensures
        r == next_sep(p@, i as int),
        i <= r <= p.len(),
{
    let mut j = i;
    while j < p.len() && !is_sep_char(p[j], true)
        invariant
            i <= j <= p.len(),
            next_sep(p@, i as int) == next_sep(p@, j as int),
        decreases p.len() - j,
    {
        j += 1;
    }
    j
}

fn prefix_length(p: &Vec<char>, windows: bool) -> (r: usize)
    ensures
        r == prefix_len(p@, windows),
        r <= p.len(),
{
    if !windows {
        return 0;
    }
    if p.len() >= 2 && (('a' <= p[0] && p[0] <= 'z') || ('A' <= p[0] && p[0] <= 'Z')) && p[1] == ':' {
        return 2;
    }
    if p.len() >= 2 && p[0] == '\\' && p[1] == '\\' {
        let s = find_next_sep(p, 2);
        if s >= p.len() {
            return p.len();
        }
        return find_next_sep(p, s + 1);
    }
    0
}

/// The final component of a path without a prefix, as `Path::file_name`
/// gives it: empty and `.` components are skipped, and a path that ends in
/// `..`, or has no normal component, has none.
pub open spec fn components_file_name(p: Seq<char>, windows: bool) -> Option<Seq<char>>
    decreases p.len(),
{
    if p.len() == 0 {
        None
    } else {
        let k = last_sep(p, windows);
        let seg = p.subrange(k + 1, p.len() as int);
        if seg.len() == 0 || seg == seq!['.'] {
            if k >= 0 {
                proof {
                    lemma_last_sep(p, windows);
                }
                components_file_name(p.take(k), windows)
            } else {
                None
            }
        } else if seg == seq!['.', '.'] {
            None
        } else {
            Some(seg)
        }
    }
}

/// The final component of `p`, as `Path::file_name` gives it on Unix
/// (`windows` false) or on Windows (`windows` true, where `\` also
/// separates components and a drive or UNC prefix is not a component).
pub open spec fn spec_file_name(p: Seq<char>, windows: bool) -> Option<Seq<char>> {
    components_file_name(p.skip(prefix_len(p, windows)), windows)
}

/// Finds the last separator among the first `end` characters.
fn find_last_sep(p: &Vec<char>, end: usize, windows: bool) -> (r: Option<usize>)
    requires
        end <= p.len(),
    ensures
        r matches Some(k) ==> last_sep(p@.take(end as int), windows) == k,
        r is None ==> last_sep(p@.take(end as int), windows) == -1,
{
    let mut j: usize = end;
    while j > 0
        invariant
            j <= end <= p.len(),
            last_sep(p@.take(end as int), windows) == last_sep(p@.take(j as int), windows),
        decreases j,
    {
        assert(p@.take(j as int).drop_last() == p@.take(j - 1));
        if is_sep_char(p[j - 1], windows) {
            return Some(j - 1);
        }
        j -= 1;
    }
    None
}

fn is_seg(p: &Vec<char>, from: usize, to: usize, pat: &Vec<char>) -> (r: bool)
    requires
        from <= to <= p.len(),
    ensures
        r == (p@.subrange(from as int, to as int) == pat@),
{
    if to - from != pat.len() {
        return false;
    }
    let mut i: usize = 0;
    while i < pat.len()
        invariant
            to - from == pat.len(),
            from <= to <= p.len(),
            i <= pat.len(),
            forall|k: int| 0 <= k < i ==> p@[from + k] == pat@[k],
        decreases pat.len() - i,
    {
        if p[from + i] != pat[i] {
            assert(p@.subrange(from as int, to as int)[i as int] != pat@[i as int]);
            return false;
        }
        i += 1;
    }
    assert(p@.subrange(from as int, to as int) =~= pat@);
    true
}

/// The final component of a path without a prefix.
fn components_file_name_chars(p: &Vec<char>, windows: bool) -> (r: Option<Vec<char>>)
    ensures
        r matches Some(n) ==> components_file_name(p@, windows) == Some(n@),
        r is None ==> components_file_name(p@, windows) is None,
{
    let dot = vec!['.'];
    let dotdot = vec!['.', '.'];
    assert(dot@ == seq!['.']);
    assert(dotdot@ == seq!['.', '.']);
    let mut end: usize = p.len();
    assert(p@.take(end as int) == p@);
    loop
        invariant
            end <= p.len(),
            dot@ == seq!['.'],
            dotdot@ == seq!['.', '.'],
            components_file_name(p@, windows) == components_file_name(p@.take(end as int), windows),
        decreases end,
    {
        if end == 0 {
            return None;
        }
        let ghost q = p@.take(end as int);
        let found = find_last_sep(p, end, windows);
        proof {
            lemma_last_sep(q, windows);
        }
        let start: usize = match found {
            Some(k) => k + 1,
            None => 0,
        };
        assert(q.subrange(start as int, q.len() as int) == p@.subrange(start as int, end as int));
        if start == end || is_seg(p, start, end, &dot) {
            match found {
                Some(k) => {
                    assert(q.take(k as int) == p@.take(k as int));
                    end = k;
                },
                None => {
                    return None;
                },
            }
        } else if is_seg(p, start, end, &dotdot) {
            return None;
        } else {
            let mut seg: Vec<char> = Vec::new();
            let mut i: usize = start;
            while i < end
                invariant
                    start <= i <= end <= p.len(),
                    seg@ == p@.subrange(start as int, i as int),
                decreases end - i,
            {
                seg.push(p[i]);
                assert(p@.subrange(start as int, i + 1) == p@.subrange(start as int, i as int).push(p@[i as int]));
                i += 1;
            }
            return Some(seg);
        }
    }
}

/// The final component of `p`, if it has one.
pub fn file_name_chars(p: &Vec<char>, windows: bool) -> (r: Option<Vec<char>>)
    ensures
        r matches Some(n) ==> spec_file_name(p@, windows) == Some(n@),
        r is None ==> spec_file_name(p@, windows) is None,
{
    let pl = prefix_length(p, windows);
    let mut rest: Vec<char> = Vec::new();
    let mut i = pl;
    while i < p.len()
        invariant
            pl <= i <= p.len(),
            rest@ == p@.subrange(pl as int, i as int),
        decreases p.len() - i,
    {
        rest.push(p[i]);
        assert(p@.subrange(pl as int, i + 1) == p@.subrange(pl as int, i as int).push(p@[i as int]));
        i += 1;
    }
    assert(rest@ =~= p@.skip(pl as int));
    components_file_name_chars(&rest, windows)
}

/// The file name of `path` as a string, if it has one.
pub fn path_file_name(path: &str, windows: bool) -> (r: Option<String>)
    ensures
        r matches Some(n) ==> spec_file_name(path@, windows) == Some(n@),
        r is None ==> spec_file_name(path@, windows) is None,
{
    let p = chars_of(path);
    match file_name_chars(&p, windows) {
        Some(n) => Some(string_of(&n)),
        None => None,
    }
}

/// Whether a path is absolute, as `Path::is_absolute` says: on Unix when it
/// starts at the root; on Windows when it has a prefix and a root, as
/// `C:\x` or `\\server\share\x` (but not `C:x` or `\x`).
pub open spec fn spec_is_absolute(p: Seq<char>, windows: bool) -> bool {
    if windows {
        win_unc(p) || (win_drive(p) && p.len() > 2 && is_sep(p[2], true))
    } else {
        p.len() > 0 && p[0] == '/'
    }
}

/// `base` with `rel` appended as `PathBuf::push` does. An absolute `rel`
/// replaces `base`; on Windows so does a `rel` with a prefix, and a `rel`
/// that starts at the root keeps only the prefix of `base`. Otherwise a
/// separator (`/` on Unix, `\` on Windows) goes between them, unless `base`
/// is empty, already ends in a separator, or (on Windows) is just a drive.
pub open spec fn spec_join(base: Seq<char>, rel: Seq<char>, windows: bool) -> Seq<char> {
    if spec_is_absolute(rel, windows) {
        rel
    } else if windows && prefix_len(rel, true) > 0 {
        rel
    } else if windows && rel.len() > 0 && is_sep(rel[0], true) {
        base.take(prefix_len(base, true)) + rel
    } else if base.len() == 0 {
        rel
    } else if is_sep(base.last(), windows) {
        base + rel
    } else if windows && win_drive(base) && base.len() == 2 {
        base + rel
    } else if windows {
        base + seq!['\\'] + rel
    } else {
        base + seq!['/'] + rel
    }
}

pub fn path_is_absolute(p: &str, windows: bool) -> (r: bool)
    ensures
        r == spec_is_absolute(p@, windows),
{
    let c = chars_of(p);
    if windows {
        let unc = c.len() >= 2 && c[0] == '\\' && c[1] == '\\';
        let drive = c.len() >= 2 && (('a' <= c[0] && c[0] <= 'z') || ('A' <= c[0] && c[0] <= 'Z')) && c[1] == ':';
        unc || (drive && c.len() > 2 && is_sep_char(c[2], true))
    } else {
        c.len() > 0 && c[0] == '/'
    }
}

pub fn path_join(base: &str, rel: &str, windows: bool) -> (r: String)
    ensures
        r@ == spec_join(base@, rel@, windows),
{
    let b = chars_of(base);
    let out = chars_of(rel);
    if path_is_absolute(rel, windows) {
        return string_of(&out);
    }
    if windows && prefix_length(&out, true) > 0 {
        return string_of(&out);
    }
    if windows && out.len() > 0 && is_sep_char(out[0], true) {
        let pl = prefix_length(&b, true);
        let mut joined: Vec<char> = Vec::new();
        let mut i: usize = 0;
        while i < pl
            invariant
                i <= pl <= b.len(),
                joined@ == b@.take(i as int),
            decreases pl - i,
        {
            joined.push(b[i]);
            assert(b@.take(i + 1) == b@.take(i as int).push(b@[i as int]));
            i += 1;
        }
        push_all(&mut joined, &out);
        return string_of(&joined);
    }
    if b.len() == 0 {
        return string_of(&out);
    }
    let mut joined = b;
    let last = joined[joined.len() - 1];
    let drive_only = windows && joined.len() == 2 && (('a' <= joined[0] && joined[0] <= 'z') || ('A' <= joined[0]
        && joined[0] <= 'Z')) && joined[1] == ':';
    if !is_sep_char(last, windows) && !drive_only {
        if windows {
            joined.push('\\');
        } else {
            joined.push('/');
        }
    }
    push_all(&mut joined, &out);
    string_of(&joined)
}

/// Where the final component of a path without a prefix starts, when it has
/// one (as `components_file_name` finds it), else -1.
pub open spec fn name_start(p: Seq<char>, windows: bool) -> int
    decreases p.len(),
{
    if p.len() == 0 {
        -1
    } else {
        let k = last_sep(p, windows);
        let seg = p.subrange(k + 1, p.len() as int);
        if seg.len() == 0 || seg == seq!['.'] {
            if k >= 0 {
                proof {
                    lemma_last_sep(p, windows);
                }
                name_start(p.take(k), windows)
            } else {
                -1
            }
        } else if seg == seq!['.', '.'] {
            -1
        } else {
            k + 1
        }
    }
}

/// A directory path without its trailing separators and trailing `.`
/// components, its root kept, as `Path::parent` leaves it.
pub open spec fn trim_dir(d: Seq<char>, windows: bool) -> Seq<char>
    decreases d.len(),
{
    if d.len() > 1 && is_sep(d.last(), windows) {
        trim_dir(d.drop_last(), windows)
    } else if d.len() >= 2 && d.last() == '.' && is_sep(d[d.len() - 2], windows) {
        trim_dir(d.drop_last(), windows)
    } else {
        d
    }
}

/// The directory part shown before a file name in a history row: the
/// path's parent (`Path::parent`) ended by the platform's separator (`\` on
/// Windows, `/` elsewhere) unless it already ends with it; empty when the
/// parent is empty or the path has no file name.
pub open spec fn spec_row_parent(p: Seq<char>, windows: bool) -> Seq<char> {
    let pl = prefix_len(p, windows);
    let q = p.skip(pl);
    let st = name_start(q, windows);
    if st < 0 {
        Seq::empty()
    } else {
        let parent = p.take(pl) + trim_dir(q.take(st), windows);
        let sep = if windows { '\\' } else { '/' };
        if parent.len() == 0 {
            Seq::empty()
        } else if parent.last() == sep {
            parent
        } else {
            parent.push(sep)
        }
    }
}

fn name_start_in(p: &Vec<char>, windows: bool) -> (r: Option<usize>)
    ensures
        r matches Some(st) ==> name_start(p@, windows) == st && st <= p.len(),
        r is None ==> name_start(p@, windows) == -1,
{
    let dot = vec!['.'];
    let dotdot = vec!['.', '.'];
    assert(dot@ == seq!['.']);
    assert(dotdot@ == seq!['.', '.']);
    let mut end: usize = p.len();
    assert(p@.take(end as int) == p@);
    loop
        invariant
            end <= p.len(),
            dot@ == seq!['.'],
            dotdot@ == seq!['.', '.'],
            name_start(p@, windows) == name_start(p@.take(end as int), windows),
        decreases end,
    {
        if end == 0 {
            return None;
        }
        let ghost q = p@.take(end as int);
        let found = find_last_sep(p, end, windows);
        proof {
            lemma_last_sep(q, windows);
        }
        let start: usize = match found {
            Some(k) => k + 1,
            None => 0,
        };
        assert(q.subrange(start as int, q.len() as int) == p@.subrange(start as int, end as int));
        if start == end || is_seg(p, start, end, &dot) {
            match found {
                Some(k) => {
                    assert(q.take(k as int) == p@.take(k as int));
                    end = k;
                },
                None => {
                    return None;
                },
            }
        } else if is_seg(p, start, end, &dotdot) {
            return None;
        } else {
            return Some(start);
        }
    }
}

fn trim_dir_chars(d: &Vec<char>, windows: bool) -> (r: Vec<char>)
    ensures
        r@ == trim_dir(d@, windows),
{
    let mut n: usize = d.len();
    assert(d@.take(n as int) =~= d@);
    while n > 1 && (is_sep_char(d[n - 1], windows) || (d[n - 1] == '.' && is_sep_char(d[n - 2], windows)))
        invariant
            n <= d.len(),
            trim_dir(d@, windows) == trim_dir(d@.take(n as int), windows),
        decreases n,
    {
        assert(d@.take(n as int).drop_last() =~= d@.take(n - 1));
        n -= 1;
    }
    let mut r: Vec<char> = Vec::new();
    let mut i: usize = 0;
    while i < n
        invariant
            i <= n <= d.len(),
            r@ == d@.take(i as int),
        decreases n - i,
    {
        r.push(d[i]);
        assert(d@.take(i + 1) == d@.take(i as int).push(d@[i as int]));
        i += 1;
    }
    r
}

/// The directory part shown before a file name in a history row, as
/// `spec_row_parent` says.
pub fn row_parent(path: &str, windows: bool) -> (r: String)
    ensures
        r@ == spec_row_parent(path@, windows),
{
    let p = chars_of(path);
    let pl = prefix_length(&p, windows);
    let mut rest: Vec<char> = Vec::new();
    let mut i = pl;
    while i < p.len()
        invariant
            pl <= i <= p.len(),
            rest@ == p@.subrange(pl as int, i as int),
        decreases p.len() - i,
    {
        rest.push(p[i]);
        assert(p@.subrange(pl as int, i + 1) == p@.subrange(pl as int, i as int).push(p@[i as int]));
        i += 1;
    }
    assert(rest@ =~= p@.skip(pl as int));
    let st = match name_start_in(&rest, windows) {
        Some(st) => st,
        None => {
            return String::new();
        },
    };
    let mut dir: Vec<char> = Vec::new();
    let mut j: usize = 0;
    while j < st
        invariant
            j <= st <= rest.len(),
            dir@ == rest@.take(j as int),
        decreases st - j,
    {
        dir.push(rest[j]);
        assert(rest@.take(j + 1) == rest@.take(j as int).push(rest@[j as int]));
        j += 1;
    }
    let trimmed_dir = trim_dir_chars(&dir, windows);
    let mut parent: Vec<char> = Vec::new();
    let mut k: usize = 0;
    while k < pl
        invariant
            k <= pl <= p.len(),
            parent@ == p@.take(k as int),
        decreases pl - k,
    {
        parent.push(p[k]);
        assert(p@.take(k + 1) == p@.take(k as int).push(p@[k as int]));
        k += 1;
    }
    push_all(&mut parent, &trimmed_dir);
    let sep = if windows { '\\' } else { '/' };
    if parent.len() > 0 && parent[parent.len() - 1] != sep {
        parent.push(sep);
    }
    string_of(&parent)
}

} // verus!
