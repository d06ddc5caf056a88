use vstd::prelude::*;
use crate::lines::{
    count_leading_non_ws, count_leading_ws, eq_chars, join_lines, join_with_newlines, leading_non_ws,
    leading_ws, spec_lines, split_lines, subrange_chars,
};
use crate::text::{chars_of, is_ws, push_all, string_of, trim_chars, trim_end, trim_start, trimmed};

verus! {

/// `s` without the `;` characters at its end.
pub open spec fn trim_semis(s: Seq<char>) -> Seq<char>
    decreases s.len(),
{
    if s.len() > 0 && s.last() == ';' {
        trim_semis(s.drop_last())
    } else {
        s
    }
}

proof fn lemma_trim_semis_prefix(s: Seq<char>)
    ensures
        trim_semis(s).len() <= s.len(),
        trim_semis(s) == s.take(trim_semis(s).len() as int),
    decreases s.len(),
{
    if s.len() > 0 && s.last() == ';' {
        lemma_trim_semis_prefix(s.drop_last());
        assert(s.drop_last().take(trim_semis(s).len() as int) == s.take(trim_semis(s).len() as int));
    } else {
        assert(s.take(s.len() as int) == s);
    }
}

/// Length of `s[from..to]` once its trailing `;` are removed.
fn trim_semis_len(s: &Vec<char>, from: usize, to: usize) -> (r: usize)
    requires
        from <= to <= s.len(),
    ensures
        r == trim_semis(s@.subrange(from as int, to as int)).len(),
        from + r <= to,
{
    let mut end = to;
    while end > from && s[end - 1] == ';'
        invariant
            from <= end <= to <= s.len(),
            trim_semis(s@.subrange(from as int, to as int)) == trim_semis(s@.subrange(from as int, end as int)),
        decreases end,
    {
        assert(s@.subrange(from as int, end as int).drop_last() == s@.subrange(from as int, end - 1));
        end -= 1;
    }
    end - from
}

pub open spec fn is_lr_or_rl(d: Seq<char>) -> bool {
    d == seq!['L', 'R'] || d == seq!['R', 'L']
}

/// Where the first word of a line starts, and how long it is.
pub open spec fn keyword_start(l: Seq<char>) -> int {
    leading_ws(l) as int
}

pub open spec fn keyword_len(l: Seq<char>) -> int {
    leading_non_ws(l.skip(keyword_start(l))) as int
}

/// A `flowchart` or `graph` line: its first word is one of those and white
/// space follows it.
pub open spec fn is_flow_header(l: Seq<char>) -> bool {
    let k = keyword_start(l);
    let n = keyword_len(l);
    let word = l.subrange(k, k + n);
    &&& k + n < l.len()
    &&& (word == seq!['f', 'l', 'o', 'w', 'c', 'h', 'a', 'r', 't'] || word == seq!['g', 'r', 'a', 'p', 'h'])
}

/// Where the direction of a `flowchart`/`graph` line starts: after the
/// keyword and the white space that follows it.
pub open spec fn direction_start(l: Seq<char>) -> int {
    let k = keyword_start(l) + keyword_len(l);
    k + leading_ws(l.skip(k))
}

/// The word that starts at `start`.
pub open spec fn word_at(l: Seq<char>, start: int) -> Seq<char> {
    l.skip(start).take(leading_non_ws(l.skip(start)) as int)
}

pub open spec fn first_flow_header(ls: Seq<Seq<char>>, i: int) -> bool {
    &&& 0 <= i < ls.len()
    &&& is_flow_header(ls[i])
    &&& forall|j: int| 0 <= j < i ==> !is_flow_header(#[trigger] ls[j])
}

/// The diagram with its first `flowchart LR`/`graph RL`-style header turned
/// to top-down (`TD`); `None` when the first such header has no direction or
/// a direction other than `LR` or `RL`, or there is none.
pub open spec fn spec_use_vertical_direction(content: Seq<char>) -> Option<Seq<char>> {
    let ls = spec_lines(content);
    if exists|i: int| first_flow_header(ls, i) {
        let i = choose|i: int| first_flow_header(ls, i);
        let l = ls[i];
        let ds = direction_start(l);
        let word = word_at(l, ds);
        let dir = trim_semis(word);
        if word.len() == 0 || !is_lr_or_rl(dir) {
            None
        } else {
            Some(join_lines(ls.update(i, l.take(ds) + seq!['T', 'D'] + l.skip(ds + dir.len()))))
        }
    } else {
        None
    }
}

fn is_word(s: &Vec<char>, from: usize, to: usize, w: &Vec<char>) -> (r: bool)
    requires
        from <= to <= s.len(),
    ensures
        r == (s@.subrange(from as int, to as int) == w@),
{
    let seg = subrange_chars(s, from, to);
    eq_chars(&seg, w)
}

pub fn use_vertical_direction(content: &str) -> (r: Option<String>)
    ensures
        r matches Some(s) ==> spec_use_vertical_direction(content@) == Some(s@),
        r is None ==> spec_use_vertical_direction(content@) is None,
{
    let c = chars_of(content);
    let mut lines = split_lines(&c);
    let ghost ls = lines@.map_values(|l: Vec<char>| l@);
    let flowchart = vec!['f', 'l', 'o', 'w', 'c', 'h', 'a', 'r', 't'];
    let graph = vec!['g', 'r', 'a', 'p', 'h'];
    let lr = vec!['L', 'R'];
    let rl = vec!['R', 'L'];
    assert(flowchart@ == seq!['f', 'l', 'o', 'w', 'c', 'h', 'a', 'r', 't']);
    assert(graph@ == seq!['g', 'r', 'a', 'p', 'h']);
    assert(lr@ == seq!['L', 'R']);
    assert(rl@ == seq!['R', 'L']);
    let mut i: usize = 0;
    while i < lines.len()
        invariant
            i <= lines.len(),
            ls == lines@.map_values(|l: Vec<char>| l@),
            ls == spec_lines(content@),
            flowchart@ == seq!['f', 'l', 'o', 'w', 'c', 'h', 'a', 'r', 't'],
            graph@ == seq!['g', 'r', 'a', 'p', 'h'],
            lr@ == seq!['L', 'R'],
            rl@ == seq!['R', 'L'],
            forall|j: int| 0 <= j < i ==> !is_flow_header(#[trigger] ls[j]),
        decreases lines.len() - i,
    {
        let ghost l = ls[i as int];
        let lead = count_leading_ws(&lines[i], 0);
        assert(lines@[i as int]@.skip(0) == l);
        let ke = count_leading_non_ws(&lines[i], lead);
        let len = lines[i].len();
        let header = lead + ke < len && (is_word(&lines[i], lead, lead + ke, &flowchart) || is_word(&lines[i], lead, lead + ke, &graph));
        if header {
            proof {
                assert(first_flow_header(ls, i as int));
                assert forall|i2: int| first_flow_header(ls, i2) implies i2 == i by {
                    if i2 < i {
                        assert(!is_flow_header(ls[i2]));
                    } else if i2 > i {
                        assert(!is_flow_header(ls[i as int]));
                    }
                }
            }
            let ws = count_leading_ws(&lines[i], lead + ke);
            let ds = lead + ke + ws;
            let tok = count_leading_non_ws(&lines[i], ds);
            if tok == 0 {
                return None;
            }
            assert(word_at(l, ds as int) == l.subrange(ds as int, ds + tok));
            let dlen = trim_semis_len(&lines[i], ds, ds + tok);
            let is_dir = is_word(&lines[i], ds, ds + dlen, &lr) || is_word(&lines[i], ds, ds + dlen, &rl);
            proof {
                lemma_trim_semis_prefix(l.subrange(ds as int, ds + tok));
                assert(trim_semis(l.subrange(ds as int, ds + tok)) == l.subrange(ds as int, ds + dlen));
            }
            if !is_dir {
                return None;
            }
            let mut new_line = subrange_chars(&lines[i], 0, ds);
            new_line.push('T');
            new_line.push('D');
            let tail = subrange_chars(&lines[i], ds + dlen, len);
            push_all(&mut new_line, &tail);
            assert(new_line@ == l.take(ds as int) + seq!['T', 'D'] + l.skip(ds + dlen));
            lines.set(i, new_line);
            let joined = join_with_newlines(&lines);
            assert(lines@.map_values(|x: Vec<char>| x@) == ls.update(i as int, l.take(ds as int) + seq!['T', 'D'] + l.skip(ds + dlen)));
            return Some(string_of(&joined));
        }
        i += 1;
    }
    None
}

pub proof fn lemma_trim_start_skip(s: Seq<char>)
    ensures
        trim_start(s) == s.skip(leading_ws(s) as int),
    decreases s.len(),
{
    if s.len() > 0 && is_ws(s[0]) {
        lemma_trim_start_skip(s.drop_first());
        crate::lines::lemma_leading_ws(s.drop_first());
        assert(s.drop_first().skip(leading_ws(s.drop_first()) as int) == s.skip(leading_ws(s) as int));
    } else {
        assert(s.skip(0) == s);
    }
}

pub proof fn lemma_trim_end_prefix(s: Seq<char>)
    ensures
        trim_end(s).len() <= s.len(),
        trim_end(s) == s.take(trim_end(s).len() as int),
    decreases s.len(),
{
    if s.len() > 0 && is_ws(s.last()) {
        lemma_trim_end_prefix(s.drop_last());
        assert(s.drop_last().take(trim_end(s).len() as int) == s.take(trim_end(s).len() as int));
    } else {
        assert(s.take(s.len() as int) == s);
    }
}

pub proof fn lemma_trimmed_range(l: Seq<char>)
    ensures
        leading_ws(l) + trimmed(l).len() <= l.len(),
        trimmed(l) == l.subrange(leading_ws(l) as int, (leading_ws(l) + trimmed(l).len()) as int),
{
    crate::lines::lemma_leading_ws(l);
    lemma_trim_start_skip(l);
    lemma_trim_end_prefix(trim_start(l));
    assert(l.skip(leading_ws(l) as int).take(trimmed(l).len() as int) == l.subrange(leading_ws(l) as int, (leading_ws(l) + trimmed(l).len()) as int));
}

pub open spec fn class_diagram_word() -> Seq<char> {
    seq!['c', 'l', 'a', 's', 's', 'D', 'i', 'a', 'g', 'r', 'a', 'm']
}

pub open spec fn direction_word() -> Seq<char> {
    seq!['d', 'i', 'r', 'e', 'c', 't', 'i', 'o', 'n', ' ']
}

pub open spec fn is_vertical(d: Seq<char>) -> bool {
    d == seq!['T', 'B'] || d == seq!['T', 'D'] || d == seq!['B', 'T']
}

/// The direction a `direction X` line sets, without trailing `;`; `None` for
/// another line.
pub open spec fn class_direction(l: Seq<char>) -> Option<Seq<char>> {
    let t = trimmed(l);
    if t.len() >= 10 && t.take(10) == direction_word() {
        Some(trim_semis(t.skip(10)))
    } else {
        None
    }
}

/// A `direction` line that decides the outcome: horizontal or vertical.
pub open spec fn is_deciding(l: Seq<char>) -> bool {
    class_direction(l) matches Some(d) && (is_lr_or_rl(d) || is_vertical(d))
}

pub open spec fn first_class_header(ls: Seq<Seq<char>>, h: int) -> bool {
    &&& 0 <= h < ls.len()
    &&& trimmed(ls[h]) == class_diagram_word()
    &&& forall|j: int| 0 <= j < h ==> trimmed(#[trigger] ls[j]) != class_diagram_word()
}

pub open spec fn first_deciding(ls: Seq<Seq<char>>, h: int, j: int) -> bool {
    &&& h < j < ls.len()
    &&& is_deciding(ls[j])
    &&& forall|k: int| h < k < j ==> !is_deciding(#[trigger] ls[k])
}

/// A class diagram laid out left to right: after the `classDiagram` line, the
/// first `direction TB`/`TD`/`BT` line is turned to `LR`, or, when there is no
/// direction line, `    direction LR` is inserted after the header. `None`
/// when there is no header or the diagram is already horizontal.
pub open spec fn spec_use_horizontal_class_direction(content: Seq<char>) -> Option<Seq<char>> {
    let ls = spec_lines(content);
    if exists|h: int| first_class_header(ls, h) {
        let h = choose|h: int| first_class_header(ls, h);
        if exists|j: int| first_deciding(ls, h, j) {
            let j = choose|j: int| first_deciding(ls, h, j);
            let l = ls[j];
            if is_lr_or_rl(class_direction(l)->0) {
                None
            } else {
                let at = leading_ws(l) as int + 10;
                Some(join_lines(ls.update(j, l.take(at) + seq!['L', 'R'] + l.skip(at + 2))))
            }
        } else {
            Some(join_lines(ls.insert(h + 1, seq![' ', ' ', ' ', ' '] + direction_word() + seq!['L', 'R'])))
        }
    } else {
        None
    }
}

fn is_one_of_vertical(s: &Vec<char>, from: usize, to: usize) -> (r: bool)
    requires
        from <= to <= s.len(),
    ensures
        r == is_vertical(s@.subrange(from as int, to as int)),
{
    let tb = vec!['T', 'B'];
    let td = vec!['T', 'D'];
    let bt = vec!['B', 'T'];
    assert(tb@ == seq!['T', 'B']);
    assert(td@ == seq!['T', 'D']);
    assert(bt@ == seq!['B', 'T']);
    is_word(s, from, to, &tb) || is_word(s, from, to, &td) || is_word(s, from, to, &bt)
}

fn is_one_of_horizontal(s: &Vec<char>, from: usize, to: usize) -> (r: bool)
    requires
        from <= to <= s.len(),
    ensures
        r == is_lr_or_rl(s@.subrange(from as int, to as int)),
{
    let lr = vec!['L', 'R'];
    let rl = vec!['R', 'L'];
    assert(lr@ == seq!['L', 'R']);
    assert(rl@ == seq!['R', 'L']);
    is_word(s, from, to, &lr) || is_word(s, from, to, &rl)
}

/// The direction of a `direction X` line: start and end of X without its
/// trailing `;` within the trimmed line.
fn class_direction_range(t: &Vec<char>) -> (r: Option<usize>)
    ensures
        r matches Some(n) ==> t@.len() >= 10 && t@.take(10) == direction_word() && 10 + n <= t@.len()
            && trim_semis(t@.skip(10)) == t@.subrange(10, 10 + n),
        r is None ==> !(t@.len() >= 10 && t@.take(10) == direction_word()),
{
    let dw = vec!['d', 'i', 'r', 'e', 'c', 't', 'i', 'o', 'n', ' '];
    assert(dw@ == direction_word());
    if t.len() < 10 || !is_word(t, 0, 10, &dw) {
        assert(t@.len() >= 10 ==> t@.subrange(0, 10) == t@.take(10));
        return None;
    }
    assert(t@.subrange(0, 10) == t@.take(10));
    let n = trim_semis_len(t, 10, t.len());
    proof {
        assert(t@.subrange(10, t@.len() as int) == t@.skip(10));
        lemma_trim_semis_prefix(t@.skip(10));
        assert(t@.skip(10).take(n as int) == t@.subrange(10, 10 + n));
    }
    Some(n)
}

pub fn use_horizontal_class_direction(content: &str) -> (r: Option<String>)
    ensures
        r matches Some(s) ==> spec_use_horizontal_class_direction(content@) == Some(s@),
        r is None ==> spec_use_horizontal_class_direction(content@) is None,
{
    let c = chars_of(content);
    let mut lines = split_lines(&c);
    let ghost ls = lines@.map_values(|l: Vec<char>| l@);
    let cd = vec!['c', 'l', 'a', 's', 's', 'D', 'i', 'a', 'g', 'r', 'a', 'm'];
    assert(cd@ == class_diagram_word());
    let mut h: usize = 0;
    while h < lines.len() && !eq_chars(&trim_chars(&lines[h]), &cd)
        invariant
            h <= lines.len(),
            ls == lines@.map_values(|l: Vec<char>| l@),
            ls == spec_lines(content@),
            cd@ == class_diagram_word(),
            forall|j: int| 0 <= j < h ==> trimmed(#[trigger] ls[j]) != class_diagram_word(),
        decreases lines.len() - h,
    {
        h += 1;
    }
    if h == lines.len() {
        assert forall|h2: int| !first_class_header(ls, h2) by {}
        return None;
    }
    proof {
        assert(first_class_header(ls, h as int));
        assert forall|h2: int| first_class_header(ls, h2) implies h2 == h by {
            if h2 < h {
                assert(trimmed(ls[h2]) != class_diagram_word());
            } else if h2 > h {
                assert(trimmed(ls[h as int]) != class_diagram_word());
            }
        }
    }
    let mut j: usize = h + 1;
    while j < lines.len()
        invariant
            h < j <= lines.len(),
            ls == lines@.map_values(|l: Vec<char>| l@),
            ls == spec_lines(content@),
            first_class_header(ls, h as int),
            forall|k: int| h < k < j ==> !is_deciding(#[trigger] ls[k]),
        decreases lines.len() - j,
    {
        let ghost l = ls[j as int];
        let t = trim_chars(&lines[j]);
        let tl = t.len();
        match class_direction_range(&t) {
            Some(n) => {
                assert(10 + n <= tl);
                let horizontal = is_one_of_horizontal(&t, 10, 10 + n);
                let vertical = is_one_of_vertical(&t, 10, 10 + n);
                assert(class_direction(l) == Some(t@.subrange(10, 10 + n)));
                if horizontal || vertical {
                    proof {
                        assert(first_deciding(ls, h as int, j as int));
                        assert forall|j2: int| first_deciding(ls, h as int, j2) implies j2 == j by {
                            if j2 < j {
                                assert(!is_deciding(ls[j2]));
                            } else if j2 > j {
                                assert(!is_deciding(ls[j as int]));
                            }
                        }
                    }
                    if horizontal {
                        return None;
                    }
                    assert(t@.subrange(10, 10 + n).len() == 2);
                    assert(n == 2);
                    let lead = count_leading_ws(&lines[j], 0);
                    proof {
                        assert(lines@[j as int]@.skip(0) == l);
                        lemma_trimmed_range(l);
                    }
                    let len = lines[j].len();
                    let mut new_line = subrange_chars(&lines[j], 0, lead + 10);
                    new_line.push('L');
                    new_line.push('R');
                    let tail = subrange_chars(&lines[j], lead + 12, len);
                    push_all(&mut new_line, &tail);
                    let at = lead + 10;
                    assert(new_line@ == l.take(at as int) + seq!['L', 'R'] + l.skip(at + 2));
                    lines.set(j, new_line);
                    assert(lines@.map_values(|x: Vec<char>| x@) == ls.update(j as int, l.take(at as int) + seq!['L', 'R'] + l.skip(at + 2)));
                    let joined = join_with_newlines(&lines);
                    return Some(string_of(&joined));
                }
            },
            None => {
                assert(class_direction(l) is None);
            },
        }
        j += 1;
    }
    let inserted = vec![' ', ' ', ' ', ' ', 'd', 'i', 'r', 'e', 'c', 't', 'i', 'o', 'n', ' ', 'L', 'R'];
    assert(inserted@ == seq![' ', ' ', ' ', ' '] + direction_word() + seq!['L', 'R']);
    lines.insert(h + 1, inserted);
    assert(lines@.map_values(|x: Vec<char>| x@) == ls.insert(h + 1, seq![' ', ' ', ' ', ' '] + direction_word() + seq!['L', 'R']));
    let joined = join_with_newlines(&lines);
    proof {
        assert forall|j2: int| !first_deciding(ls, h as int, j2) by {}
    }
    Some(string_of(&joined))
}

} // verus!
