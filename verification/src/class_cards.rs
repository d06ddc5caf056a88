use vstd::prelude::*;
use crate::lines::{spec_lines, split_lines, subrange_chars, eq_chars};
use crate::text::{chars_of, string_of, trim_chars, trim_end, trim_end_chars, trimmed, starts_with, starts_with_chars};
use crate::lines::no_newline;
use crate::fit::{lemma_lines_of_width_append, lemma_lines_of_width_row, lines_of_width, all_ascii_lines, ends_line, lemma_ends_line_append, lemma_rows_fit_wider, lemma_all_ascii_subrange, lemma_all_ascii_trimmed, lemma_lines_ascii, lemma_rows_fit_append, lemma_rows_fit_row, lemma_rows_fit_trim_end, rows_fit};
use crate::width::{all_ascii, display_width, printable_ascii, str_width};
use crate::wrap::{law_fitting_word_is_one_line, lemma_line_ascii_text, line_ascii, line_ascii_char, spec_wrap_display_text, wrap_display_text, width_of_chars};

verus! {

pub open spec fn spaces(n: nat) -> Seq<char> {
    Seq::new(n, |i: int| ' ')
}

pub open spec fn repeat_char(c: char, n: nat) -> Seq<char> {
    Seq::new(n, |i: int| c)
}

/// Padding that brings a card row of text `line` to the inner width: the
/// inner width less the text and its leading space, at least zero.
pub open spec fn card_padding(line: Seq<char>, inner_width: usize) -> nat {
    if str_width(line) + 1 <= inner_width {
        (inner_width - str_width(line) - 1) as nat
    } else {
        0
    }
}

/// One row of a card: `│ text<padding>│` and a line break.
pub open spec fn card_row(line: Seq<char>, inner_width: usize) -> Seq<char> {
    seq!['│', ' '] + line + spaces(card_padding(line, inner_width)) + seq!['│', '\n']
}

pub open spec fn card_rows(ls: Seq<Seq<char>>, inner_width: usize) -> Seq<char>
    decreases ls.len(),
{
    if ls.len() == 0 {
        Seq::empty()
    } else {
        card_rows(ls.drop_last(), inner_width) + card_row(ls.last(), inner_width)
    }
}

/// The rows of a card that show `text` wrapped to `text_width` columns.
pub open spec fn spec_card_text(text: Seq<char>, text_width: usize, inner_width: usize) -> Seq<char> {
    card_rows(spec_wrap_display_text(text, text_width), inner_width)
}

fn push_repeated(out: &mut String, c: char, n: usize)
    ensures
        final(out)@ == old(out)@ + repeat_char(c, n as nat),
{
    let ghost start = out@;
    let mut i: usize = 0;
    while i < n
        invariant
            i <= n,
            start == old(out)@,
            out@ == start + repeat_char(c, i as nat),
        decreases n - i,
    {
        out.push(c);
        assert(repeat_char(c, (i + 1) as nat) == repeat_char(c, i as nat).push(c));
        i += 1;
    }
}

/// A card row of ASCII text that leaves room for the frame is exactly as
/// wide as the card, and ends its line.
proof fn lemma_card_row_fits(line: Seq<char>, inner_width: usize)
    requires
        line_ascii(line),
        str_width(line) == line.len(),
        line.len() + 2 <= inner_width,
    ensures
        rows_fit(card_row(line, inner_width), inner_width + 2),
        lines_of_width(card_row(line, inner_width), inner_width + 2),
        ends_line(card_row(line, inner_width)),
{
    let pad = card_padding(line, inner_width);
    let body = seq!['│', ' '] + line + spaces(pad) + seq!['│'];
    assert(card_row(line, inner_width) =~= body + seq!['\n']);
    assert(body.len() == inner_width + 2);
    assert forall|j: int| 0 <= j < body.len() implies body[j] != '\n' by {
        if 2 <= j < 2 + line.len() {
            assert(body[j] == line[j - 2]);
            assert(line_ascii_char(line[j - 2]));
        }
    }
    lemma_rows_fit_row(body, inner_width + 2);
    lemma_lines_of_width_row(body, inner_width + 2);
}

/// A border of a card: a corner, `inner` rules and a corner.
proof fn lemma_border_fits(left: char, right: char, inner: usize)
    requires
        left != '\n',
        right != '\n',
    ensures
        rows_fit(seq![left] + repeat_char('─', inner as nat) + seq![right, '\n'], inner + 2),
        lines_of_width(seq![left] + repeat_char('─', inner as nat) + seq![right, '\n'], inner + 2),
        ends_line(seq![left] + repeat_char('─', inner as nat) + seq![right, '\n']),
{
    let body = seq![left] + repeat_char('─', inner as nat) + seq![right];
    assert(seq![left] + repeat_char('─', inner as nat) + seq![right, '\n'] =~= body + seq!['\n']);
    assert forall|j: int| 0 <= j < body.len() implies body[j] != '\n' by {
        if 1 <= j <= inner {
            assert(body[j] == '─');
        }
    }
    lemma_rows_fit_row(body, inner + 2);
    lemma_lines_of_width_row(body, inner + 2);
}

/// Adds the rows of a card that show `text`, wrapped to `text_width`
/// columns, each padded to `inner_width`. For ASCII text, and a text width
/// that leaves room for the frame, each row is as wide as the card.
pub fn push_card_text(out: &mut String, text: &str, text_width: usize, inner_width: usize)
    ensures
        final(out)@ == old(out)@ + spec_card_text(text@, text_width, inner_width),
        ends_line(spec_card_text(text@, text_width, inner_width)),
        all_ascii(text@) && 1 <= text_width && text_width + 2 <= inner_width ==> rows_fit(
            spec_card_text(text@, text_width, inner_width),
            inner_width + 2,
        ) && lines_of_width(spec_card_text(text@, text_width, inner_width), inner_width + 2),
{
    let lines = wrap_display_text(text, text_width);
    let ghost ls = lines@.map_values(|l: String| l@);
    let ghost start = out@;
    let ghost fits = all_ascii(text@) && 1 <= text_width && text_width + 2 <= inner_width;
    let mut i: usize = 0;
    assert(ls.take(0) =~= Seq::<Seq<char>>::empty());
    while i < lines.len()
        invariant
            i <= lines.len(),
            ls == lines@.map_values(|l: String| l@),
            ls == spec_wrap_display_text(text@, text_width),
            fits == (all_ascii(text@) && 1 <= text_width && text_width + 2 <= inner_width),
            fits ==> forall|j: int| 0 <= j < lines@.len() ==> line_ascii((#[trigger] lines@[j])@) && lines@[j]@.len() <= text_width,
            start == old(out)@,
            out@ == start + card_rows(ls.take(i as int), inner_width),
            ends_line(card_rows(ls.take(i as int), inner_width)),
            fits ==> rows_fit(card_rows(ls.take(i as int), inner_width), inner_width + 2),
            fits ==> lines_of_width(card_rows(ls.take(i as int), inner_width), inner_width + 2),
        decreases lines.len() - i,
    {
        let line = &lines[i];
        proof {
            if fits {
                assert(line_ascii(line@));
                lemma_line_ascii_text(line@);
            }
        }
        let w = display_width(line.as_str());
        let padding: usize = if w < inner_width {
            inner_width - w - 1
        } else {
            0
        };
        assert(padding == card_padding(ls[i as int], inner_width));
        let ghost before = out@;
        let ghost prev = card_rows(ls.take(i as int), inner_width);
        out.push('│');
        out.push(' ');
        out.append(line.as_str());
        push_repeated(out, ' ', padding);
        out.push('│');
        out.push('\n');
        assert(repeat_char(' ', padding as nat) == spaces(padding as nat));
        assert(out@ == before + card_row(ls[i as int], inner_width));
        assert(ls.take(i + 1).drop_last() == ls.take(i as int));
        assert(card_rows(ls.take(i + 1), inner_width) == prev + card_row(ls[i as int], inner_width));
        let ghost row = card_row(ls[i as int], inner_width);
        assert(row.last() == '\n');
        assert((prev + row).last() == '\n');
        proof {
            if fits {
                assert(ls[i as int] == line@);
                lemma_card_row_fits(ls[i as int], inner_width);
                lemma_rows_fit_append(prev, row, inner_width + 2);
                lemma_lines_of_width_append(prev, row, inner_width + 2);
            }
        }
        i += 1;
    }
    assert(ls.take(lines.len() as int) == ls);
}

/// Wrapped rows after a prefix: the first row after `first`, the others
/// after `cont`, each ending in a line break.
pub open spec fn prefixed_rows(ls: Seq<Seq<char>>, first: Seq<char>, cont: Seq<char>) -> Seq<char>
    decreases ls.len(),
{
    if ls.len() == 0 {
        Seq::empty()
    } else {
        let prefix = if ls.len() == 1 {
            first
        } else {
            cont
        };
        prefixed_rows(ls.drop_last(), first, cont) + prefix + ls.last() + seq!['\n']
    }
}

/// The width left for text after the wider of the two prefixes, at least one
/// column.
pub open spec fn prefixed_line_width(first: Seq<char>, cont: Seq<char>, max_width: usize) -> usize {
    let pw = if str_width(first) >= str_width(cont) {
        str_width(first)
    } else {
        str_width(cont)
    };
    if max_width > pw && max_width - pw >= 1 {
        (max_width - pw) as usize
    } else {
        1
    }
}

pub open spec fn spec_prefixed_wrapped_text(text: Seq<char>, first: Seq<char>, cont: Seq<char>, max_width: usize) -> Seq<char> {
    prefixed_rows(spec_wrap_display_text(text, prefixed_line_width(first, cont, max_width)), first, cont)
}

/// Adds `text` wrapped to the width left after the prefixes, the first row
/// after `first_prefix` and the others after `continuation_prefix`. For
/// ASCII text after a printable ASCII continuation prefix no shorter than
/// the first prefix, every row keeps within `max_width` characters.
pub fn push_prefixed_wrapped_text(
    out: &mut String,
    text: &str,
    first_prefix: &str,
    continuation_prefix: &str,
    max_width: usize,
)
    ensures
        final(out)@ == old(out)@ + spec_prefixed_wrapped_text(text@, first_prefix@, continuation_prefix@, max_width),
        ends_line(spec_prefixed_wrapped_text(text@, first_prefix@, continuation_prefix@, max_width)),
        all_ascii(text@) && printable_ascii(continuation_prefix@) && no_newline(first_prefix@)
            && first_prefix@.len() <= continuation_prefix@.len() && continuation_prefix@.len() + 1 <= max_width
            ==> rows_fit(spec_prefixed_wrapped_text(text@, first_prefix@, continuation_prefix@, max_width), max_width as int),
{
    let fw = display_width(first_prefix);
    let cw = display_width(continuation_prefix);
    let prefix_width = if fw >= cw {
        fw
    } else {
        cw
    };
    let line_width = if max_width > prefix_width {
        max_width - prefix_width
    } else {
        1
    };
    let lines = wrap_display_text(text, line_width);
    let ghost ls = lines@.map_values(|l: String| l@);
    let ghost start = out@;
    let ghost fits = all_ascii(text@) && printable_ascii(continuation_prefix@) && no_newline(first_prefix@)
        && first_prefix@.len() <= continuation_prefix@.len() && continuation_prefix@.len() + 1 <= max_width;
    let mut i: usize = 0;
    assert(ls.take(0) =~= Seq::<Seq<char>>::empty());
    while i < lines.len()
        invariant
            i <= lines.len(),
            ls == lines@.map_values(|l: String| l@),
            ls == spec_wrap_display_text(text@, prefixed_line_width(first_prefix@, continuation_prefix@, max_width)),
            line_width == prefixed_line_width(first_prefix@, continuation_prefix@, max_width),
            line_width >= 1,
            cw == str_width(continuation_prefix@),
            prefix_width >= cw,
            line_width == (if max_width > prefix_width { (max_width - prefix_width) as usize } else { 1usize }),
            fits == (all_ascii(text@) && printable_ascii(continuation_prefix@) && no_newline(first_prefix@)
                && first_prefix@.len() <= continuation_prefix@.len() && continuation_prefix@.len() + 1 <= max_width),
            fits ==> cw == continuation_prefix@.len(),
            fits ==> forall|j: int| 0 <= j < lines@.len() ==> line_ascii((#[trigger] lines@[j])@) && lines@[j]@.len() <= line_width,
            start == old(out)@,
            out@ == start + prefixed_rows(ls.take(i as int), first_prefix@, continuation_prefix@),
            ends_line(prefixed_rows(ls.take(i as int), first_prefix@, continuation_prefix@)),
            fits ==> rows_fit(prefixed_rows(ls.take(i as int), first_prefix@, continuation_prefix@), max_width as int),
        decreases lines.len() - i,
    {
        let ghost before = out@;
        let ghost prev = prefixed_rows(ls.take(i as int), first_prefix@, continuation_prefix@);
        let ghost prefix = if i == 0 { first_prefix@ } else { continuation_prefix@ };
        if i == 0 {
            out.append(first_prefix);
        } else {
            out.append(continuation_prefix);
        }
        out.append(lines[i].as_str());
        out.push('\n');
        assert(ls.take(i + 1).drop_last() == ls.take(i as int));
        assert(ls.take(i + 1).len() == i + 1);
        let ghost body = prefix + ls[i as int];
        assert(prefixed_rows(ls.take(i + 1), first_prefix@, continuation_prefix@) == prev + prefix + ls[i as int] + seq!['\n']);
        assert(prev + prefix + ls[i as int] + seq!['\n'] =~= prev + (body + seq!['\n']));
        assert((prev + (body + seq!['\n'])).last() == '\n');
        proof {
            if fits {
                assert(ls[i as int] == lines@[i as int]@);
                assert(line_ascii(ls[i as int]));
                assert forall|j: int| 0 <= j < body.len() implies body[j] != '\n' by {
                    if j < prefix.len() {
                        if i == 0 {
                            assert(body[j] == first_prefix@[j]);
                        } else {
                            assert(body[j] == continuation_prefix@[j]);
                            assert(' ' <= continuation_prefix@[j] <= '~');
                        }
                    } else {
                        assert(body[j] == ls[i as int][j - prefix.len()]);
                        assert(line_ascii_char(ls[i as int][j - prefix.len()]));
                    }
                }
                assert(body.len() <= max_width);
                lemma_rows_fit_row(body, max_width as int);
                lemma_rows_fit_append(prev, body + seq!['\n'], max_width as int);
            }
        }
        i += 1;
    }
    assert(ls.take(lines.len() as int) == ls);
}

/// A class of the diagram: its name and member lines.
pub struct ClassBlock {
    pub name: String,
    pub members: Vec<String>,
}

pub open spec fn class_view(c: ClassBlock) -> (Seq<char>, Seq<Seq<char>>) {
    (c.name@, c.members@.map_values(|m: String| m@))
}

pub open spec fn is_relationship_marker(a: char, b: char) -> bool {
    (a == '-' && b == '-') || (a == '.' && b == '.') || (a == '<' && b == '|') || (a == '|' && b == '>')
}

/// A line that draws a relationship: it holds `--`, `..`, `<|` or `|>`. The
/// markers hold no white space, so this is the same as one of the line's
/// words holding one.
pub open spec fn spec_looks_like_class_relationship(line: Seq<char>) -> bool {
    exists|i: int| 0 <= i && i + 1 < line.len() && #[trigger] marker_at(line, i)
}

pub open spec fn marker_at(line: Seq<char>, i: int) -> bool {
    is_relationship_marker(line[i], line[i + 1])
}

pub fn looks_like_class_relationship(line: &str) -> (r: bool)
    ensures
        r == spec_looks_like_class_relationship(line@),
{
    let l = chars_of(line);
    let mut i: usize = 0;
    while l.len() > 0 && i < l.len() - 1
        invariant
            i <= l.len(),
            l@ == line@,
            forall|j: int| 0 <= j < i && j + 1 < l@.len() ==> !#[trigger] marker_at(l@, j),
        decreases l.len() - i,
    {
        let a = l[i];
        let b = l[i + 1];
        if (a == '-' && b == '-') || (a == '.' && b == '.') || (a == '<' && b == '|') || (a == '|' && b == '>') {
            assert(marker_at(line@, i as int));
            return true;
        }
        i += 1;
    }
    false
}

pub open spec fn direction_prefix() -> Seq<char> {
    seq!['d', 'i', 'r', 'e', 'c', 't', 'i', 'o', 'n', ' ']
}

pub open spec fn class_prefix() -> Seq<char> {
    seq!['c', 'l', 'a', 's', 's', ' ']
}

/// What a class diagram holds so far: the finished classes, the relationship
/// lines, and the class whose `{ ... }` body is open.
pub type ClassParse = (Seq<(Seq<char>, Seq<Seq<char>>)>, Seq<Seq<char>>, Option<(Seq<char>, Seq<Seq<char>>)>);

/// One source line read into the diagram. Blank and `direction` lines are
/// skipped; inside a body, `}` closes the class and any other line is a
/// member; `class Name {` opens a body, `class Name` is a class without
/// members; a relationship line is kept.
pub open spec fn class_parse_step(st: ClassParse, source_line: Seq<char>) -> ClassParse {
    let (classes, rels, current) = st;
    let line = trimmed(source_line);
    if line.len() == 0 || starts_with(line, direction_prefix()) {
        st
    } else {
        match current {
            Some(c) => if line == seq!['}'] {
                (classes.push(c), rels, None)
            } else {
                (classes, rels, Some((c.0, c.1.push(line))))
            },
            None => if starts_with(line, class_prefix()) {
                let decl = line.skip(6);
                if decl.len() > 0 && decl.last() == '{' {
                    (classes, rels, Some((trimmed(decl.drop_last()), Seq::empty())))
                } else {
                    (classes.push((trimmed(decl), Seq::empty())), rels, None)
                }
            } else if spec_looks_like_class_relationship(line) {
                (classes, rels.push(line), None)
            } else {
                st
            },
        }
    }
}

pub open spec fn class_parse(ls: Seq<Seq<char>>) -> ClassParse
    decreases ls.len(),
{
    if ls.len() == 0 {
        (Seq::empty(), Seq::empty(), None)
    } else {
        class_parse_step(class_parse(ls.drop_last()), ls.last())
    }
}

/// The classes and relationships of a diagram; the lines after the header
/// are read, and a body left open at the end still counts as a class.
pub open spec fn diagram_parts(content: Seq<char>) -> (Seq<(Seq<char>, Seq<Seq<char>>)>, Seq<Seq<char>>) {
    let ls = spec_lines(content);
    let body = if ls.len() > 0 {
        ls.skip(1)
    } else {
        ls
    };
    let (classes, rels, current) = class_parse(body);
    match current {
        Some(c) => (classes.push(c), rels),
        None => (classes, rels),
    }
}

/// A class whose name and member lines are ASCII text.
pub open spec fn class_ascii(c: (Seq<char>, Seq<Seq<char>>)) -> bool {
    all_ascii(c.0) && all_ascii_lines(c.1)
}

pub open spec fn classes_ascii(cs: Seq<(Seq<char>, Seq<Seq<char>>)>) -> bool {
    forall|i: int| 0 <= i < cs.len() ==> class_ascii(#[trigger] cs[i])
}

proof fn lemma_class_parse_ascii(ls: Seq<Seq<char>>)
    requires
        all_ascii_lines(ls),
    ensures
        classes_ascii(class_parse(ls).0),
        all_ascii_lines(class_parse(ls).1),
        class_parse(ls).2 matches Some(c) ==> class_ascii(c),
    decreases ls.len(),
{
    if ls.len() > 0 {
        assert forall|i: int| 0 <= i < ls.drop_last().len() implies all_ascii(#[trigger] ls.drop_last()[i]) by {
            assert(ls.drop_last()[i] == ls[i]);
        }
        lemma_class_parse_ascii(ls.drop_last());
        let st = class_parse(ls.drop_last());
        let (classes, rels, current) = st;
        assert(all_ascii(ls.last()));
        let line = trimmed(ls.last());
        lemma_all_ascii_trimmed(ls.last());
        assert(class_parse(ls) == class_parse_step(st, ls.last()));
        if line.len() == 0 || starts_with(line, direction_prefix()) {
        } else {
            match current {
                Some(c) => {
                    if line == seq!['}'] {
                        assert(classes_ascii(classes.push(c))) by {
                            assert forall|i: int| 0 <= i < classes.push(c).len() implies class_ascii(#[trigger] classes.push(c)[i]) by {
                                if i < classes.len() {
                                    assert(classes.push(c)[i] == classes[i]);
                                }
                            }
                        }
                    } else {
                        assert(all_ascii_lines(c.1.push(line))) by {
                            assert forall|i: int| 0 <= i < c.1.push(line).len() implies all_ascii(#[trigger] c.1.push(line)[i]) by {
                                if i < c.1.len() {
                                    assert(c.1.push(line)[i] == c.1[i]);
                                }
                            }
                        }
                    }
                },
                None => {
                    if starts_with(line, class_prefix()) {
                        let decl = line.skip(6);
                        assert(line.len() >= 6);
                        lemma_all_ascii_subrange(line, 6, line.len() as int);
                        assert(decl == line.subrange(6, line.len() as int));
                        if decl.len() > 0 && decl.last() == '{' {
                            lemma_all_ascii_subrange(decl, 0, decl.len() - 1);
                            assert(decl.drop_last() == decl.subrange(0, decl.len() - 1));
                            lemma_all_ascii_trimmed(decl.drop_last());
                            assert(all_ascii_lines(Seq::<Seq<char>>::empty()));
                        } else {
                            lemma_all_ascii_trimmed(decl);
                            let c = (trimmed(decl), Seq::<Seq<char>>::empty());
                            assert(class_ascii(c));
                            assert(classes_ascii(classes.push(c))) by {
                                assert forall|i: int| 0 <= i < classes.push(c).len() implies class_ascii(#[trigger] classes.push(c)[i]) by {
                                    if i < classes.len() {
                                        assert(classes.push(c)[i] == classes[i]);
                                    }
                                }
                            }
                        }
                    } else if spec_looks_like_class_relationship(line) {
                        assert(all_ascii_lines(rels.push(line))) by {
                            assert forall|i: int| 0 <= i < rels.push(line).len() implies all_ascii(#[trigger] rels.push(line)[i]) by {
                                if i < rels.len() {
                                    assert(rels.push(line)[i] == rels[i]);
                                }
                            }
                        }
                    }
                },
            }
        }
    }
}

/// The classes and relationships of an ASCII diagram are ASCII text.
pub proof fn lemma_diagram_parts_ascii(content: Seq<char>)
    requires
        all_ascii(content),
    ensures
        classes_ascii(diagram_parts(content).0),
        all_ascii_lines(diagram_parts(content).1),
{
    let ls = spec_lines(content);
    lemma_lines_ascii(content);
    let body = if ls.len() > 0 {
        ls.skip(1)
    } else {
        ls
    };
    assert forall|i: int| 0 <= i < body.len() implies all_ascii(#[trigger] body[i]) by {
        if ls.len() > 0 {
            assert(body[i] == ls[i + 1]);
        }
    }
    lemma_class_parse_ascii(body);
    let (classes, rels, current) = class_parse(body);
    match current {
        Some(c) => {
            assert(classes_ascii(classes.push(c))) by {
                assert forall|i: int| 0 <= i < classes.push(c).len() implies class_ascii(#[trigger] classes.push(c)[i]) by {
                    if i < classes.len() {
                        assert(classes.push(c)[i] == classes[i]);
                    }
                }
            }
        },
        None => {},
    }
}

fn push_string(v: &mut Vec<String>, s: &Vec<char>)
    ensures
        final(v)@.map_values(|x: String| x@) == old(v)@.map_values(|x: String| x@).push(s@),
{
    let st = string_of(s);
    let ghost before = v@.map_values(|x: String| x@);
    v.push(st);
    assert(v@.map_values(|x: String| x@) == before.push(s@));
}

pub open spec fn class_views(v: Seq<ClassBlock>) -> Seq<(Seq<char>, Seq<Seq<char>>)> {
    v.map_values(|c: ClassBlock| class_view(c))
}

pub open spec fn opt_class_view(c: Option<ClassBlock>) -> Option<(Seq<char>, Seq<Seq<char>>)> {
    match c {
        Some(b) => Some(class_view(b)),
        None => None,
    }
}

pub open spec fn string_views(v: Seq<String>) -> Seq<Seq<char>> {
    v.map_values(|x: String| x@)
}

/// Reads the classes and relationships of a class diagram.
pub fn parse_class_diagram(content: &str) -> (r: (Vec<ClassBlock>, Vec<String>))
    ensures
        (class_views(r.0@), string_views(r.1@)) == diagram_parts(content@),
{
    let c = chars_of(content);
    let lines = split_lines(&c);
    let ghost ls = lines@.map_values(|l: Vec<char>| l@);
    let ghost body = if ls.len() > 0 { ls.skip(1) } else { ls };
    let dir = vec!['d', 'i', 'r', 'e', 'c', 't', 'i', 'o', 'n', ' '];
    let cls = vec!['c', 'l', 'a', 's', 's', ' '];
    let close = vec!['}'];
    assert(dir@ == direction_prefix());
    assert(cls@ == class_prefix());
    assert(close@ == seq!['}']);
    let mut classes: Vec<ClassBlock> = Vec::new();
    let mut rels: Vec<String> = Vec::new();
    let mut current: Option<ClassBlock> = None;
    let mut i: usize = 1;
    assert(body.take(0) =~= Seq::<Seq<char>>::empty());
    while i < lines.len()
        invariant
            1 <= i,
            i <= lines.len() || (lines.len() == 0 && i == 1),
            ls == lines@.map_values(|l: Vec<char>| l@),
            ls == spec_lines(content@),
            ls.len() > 0 ==> body == ls.skip(1),
            ls.len() == 0 ==> body == ls,
            dir@ == direction_prefix(),
            cls@ == class_prefix(),
            close@ == seq!['}'],
            (class_views(classes@), string_views(rels@), opt_class_view(current)) == class_parse(body.take(i - 1)),
        decreases lines.len() - i,
    {
        assert(body.take(i as int).drop_last() == body.take(i - 1));
        assert(body.take(i as int).last() == ls[i as int]);
        let line = trim_chars(&lines[i]);
        let ghost lv = line@;
        let ghost cb = class_views(classes@);
        let ghost rb = string_views(rels@);
        if line.len() == 0 || starts_with_chars(&line, &dir) {
            i += 1;
            continue;
        }
        match current {
            Some(mut block) => {
                let ghost bv = class_view(block);
                if eq_chars(&line, &close) {
                    classes.push(block);
                    assert(class_views(classes@) == cb.push(bv));
                    current = None;
                } else {
                    let ghost mv = block.members@.map_values(|m: String| m@);
                    push_string(&mut block.members, &line);
                    assert(class_view(block) == (bv.0, bv.1.push(lv)));
                    current = Some(block);
                }
            },
            None => {
                if starts_with_chars(&line, &cls) {
                    let decl = subrange_chars(&line, 6, line.len());
                    assert(decl@ == lv.skip(6));
                    if decl.len() > 0 && decl[decl.len() - 1] == '{' {
                        let inner = subrange_chars(&decl, 0, decl.len() - 1);
                        assert(inner@ == decl@.drop_last());
                        let name = trim_chars(&inner);
                        let block = ClassBlock { name: string_of(&name), members: Vec::new() };
                        assert(block.members@.map_values(|m: String| m@) == Seq::<Seq<char>>::empty());
                        current = Some(block);
                    } else {
                        let name = trim_chars(&decl);
                        let block = ClassBlock { name: string_of(&name), members: Vec::new() };
                        assert(block.members@.map_values(|m: String| m@) == Seq::<Seq<char>>::empty());
                        classes.push(block);
                        assert(class_views(classes@) == cb.push((name@, Seq::<Seq<char>>::empty())));
                    }
                } else {
                    let l2 = string_of(&line);
                    if looks_like_class_relationship(l2.as_str()) {
                        rels.push(l2);
                        assert(string_views(rels@) == rb.push(lv));
                    }
                }
            },
        }
        i += 1;
    }
    proof {
        if ls.len() > 0 {
            assert(i == lines.len());
            assert(body.len() == ls.len() - 1);
            assert(body.take(ls.len() - 1) == body);
        } else {
            assert(body.take(0) == body);
        }
        assert(body.take(i - 1) == body);
    }
    assert((class_views(classes@), string_views(rels@), opt_class_view(current)) == class_parse(body));
    assert(body == (if ls.len() > 0 { ls.skip(1) } else { ls }));
    match current {
        Some(block) => {
            let ghost cb = class_views(classes@);
            let ghost bv = class_view(block);
            classes.push(block);
            assert(class_views(classes@) == cb.push(bv));
        },
        None => {},
    }
    (classes, rels)
}

pub open spec fn max_line_width(ls: Seq<Seq<char>>) -> nat
    decreases ls.len(),
{
    if ls.len() == 0 {
        0
    } else {
        let m = max_line_width(ls.drop_last());
        let w = str_width(ls.last()) as nat;
        if w > m {
            w
        } else {
            m
        }
    }
}

/// The widest class name or member line.
pub open spec fn widest_class_line(cs: Seq<(Seq<char>, Seq<Seq<char>>)>) -> nat
    decreases cs.len(),
{
    if cs.len() == 0 {
        0
    } else {
        let m = widest_class_line(cs.drop_last());
        let w = max_line_width(seq![cs.last().0] + cs.last().1);
        if w > m {
            w
        } else {
            m
        }
    }
}

/// Card width: four columns wider than the widest line, at least 12 and at
/// most `max_width` columns.
pub open spec fn card_width(cs: Seq<(Seq<char>, Seq<Seq<char>>)>, max_width: usize) -> int {
    let w: int = widest_class_line(cs) as int + 4;
    if w < 12 {
        12
    } else if w > max_width {
        max_width as int
    } else {
        w
    }
}

pub open spec fn member_rows(ms: Seq<Seq<char>>, text_width: usize, inner: usize) -> Seq<char>
    decreases ms.len(),
{
    if ms.len() == 0 {
        Seq::empty()
    } else {
        member_rows(ms.drop_last(), text_width, inner) + spec_card_text(ms.last(), text_width, inner)
    }
}

/// One class drawn as a card: a box with the name, and when the class has
/// members a separator and one wrapped block per member.
pub open spec fn class_card(c: (Seq<char>, Seq<Seq<char>>), text_width: usize, inner: usize) -> Seq<char> {
    let border = repeat_char('─', inner as nat);
    seq!['┌'] + border + seq!['┐', '\n'] + spec_card_text(c.0, text_width, inner) + (if c.1.len() > 0 {
        seq!['├'] + border + seq!['┤', '\n'] + member_rows(c.1, text_width, inner)
    } else {
        Seq::empty()
    }) + seq!['└'] + border + seq!['┘', '\n']
}

/// The cards one after another, a blank line between two cards.
pub open spec fn class_cards(cs: Seq<(Seq<char>, Seq<Seq<char>>)>, text_width: usize, inner: usize) -> Seq<char>
    decreases cs.len(),
{
    if cs.len() == 0 {
        Seq::empty()
    } else {
        class_cards(cs.drop_last(), text_width, inner) + (if cs.len() > 1 {
            seq!['\n']
        } else {
            Seq::empty()
        }) + class_card(cs.last(), text_width, inner)
    }
}

pub open spec fn relationship_rows(rs: Seq<Seq<char>>, max_width: usize) -> Seq<char>
    decreases rs.len(),
{
    if rs.len() == 0 {
        Seq::empty()
    } else {
        relationship_rows(rs.drop_last(), max_width) + spec_prefixed_wrapped_text(
            rs.last(),
            seq!['•', ' '],
            seq![' ', ' '],
            max_width,
        )
    }
}

/// Number of leading characters of `s`, from `j` on, that keep the prefix
/// within `max` columns.
pub open spec fn fit_prefix_count(s: Seq<char>, max: usize, j: int) -> int
    decreases s.len() - j,
{
    if 0 <= j < s.len() && str_width(s.take(j + 1)) <= max {
        fit_prefix_count(s, max, j + 1)
    } else {
        j
    }
}

/// The longest prefix of `s`, taken character by character, that fits in
/// `max` display columns.
pub open spec fn spec_truncate_display_width(s: Seq<char>, max: usize) -> Seq<char> {
    s.take(fit_prefix_count(s, max, 0))
}

proof fn lemma_fit_prefix_count(s: Seq<char>, max: usize, j: int)
    requires
        0 <= j <= s.len(),
    ensures
        j <= fit_prefix_count(s, max, j) <= s.len(),
    decreases s.len() - j,
{
    if j < s.len() && str_width(s.take(j + 1)) <= max {
        lemma_fit_prefix_count(s, max, j + 1);
    }
}

fn fits_prefix(s: &Vec<char>, j: usize, max: usize) -> (r: bool)
    requires
        j < s.len(),
    ensures
        r == (str_width(s@.take(j + 1)) <= max),
        printable_ascii(s@) ==> (r <==> j + 1 <= max),
{
    let p = subrange_chars(s, 0, j + 1);
    assert(p@ == s@.take(j + 1));
    proof {
        if printable_ascii(s@) {
            assert(printable_ascii(p@));
        }
    }
    width_of_chars(&p) <= max
}

/// Cuts `s` to the longest prefix that fits in `max` display columns.
pub fn truncate_display_width(s: &str, max: usize) -> (r: String)
    ensures
        r@ == spec_truncate_display_width(s@, max),
        printable_ascii(s@) ==> r@.len() <= max && printable_ascii(r@),
{
    let c = chars_of(s);
    let mut j: usize = 0;
    proof {
        lemma_fit_prefix_count(c@, max, 0);
    }
    while j < c.len() && fits_prefix(&c, j, max)
        invariant
            j <= c.len(),
            c@ == s@,
            fit_prefix_count(c@, max, 0) == fit_prefix_count(c@, max, j as int),
            printable_ascii(c@) ==> j <= max,
        decreases c.len() - j,
    {
        j += 1;
    }
    assert(fit_prefix_count(c@, max, j as int) == j);
    let p = subrange_chars(&c, 0, j);
    assert(p@ == c@.take(j as int));
    string_of(&p)
}

pub open spec fn relationships_word() -> Seq<char> {
    seq!['R', 'e', 'l', 'a', 't', 'i', 'o', 'n', 's', 'h', 'i', 'p', 's']
}

/// The relationships block: a blank line, the heading (cut to fit), a rule
/// as wide as the heading, and one bullet per relationship.
pub open spec fn relationship_section(rs: Seq<Seq<char>>, max_width: usize) -> Seq<char> {
    if rs.len() == 0 {
        Seq::empty()
    } else {
        let heading = spec_truncate_display_width(relationships_word(), max_width);
        seq!['\n'] + heading + seq!['\n'] + repeat_char('─', str_width(heading) as nat) + seq!['\n']
            + relationship_rows(rs, max_width)
    }
}

/// The classes of a diagram drawn as cards `card_width` columns wide, one
/// after another: the text inside a card's frame and its margins is wrapped
/// to the card's width less four columns.
pub open spec fn stacked_cards(content: Seq<char>, max_width: usize) -> Seq<char> {
    let cs = diagram_parts(content).0;
    let inner = (card_width(cs, max_width) - 2) as usize;
    let text_width = (if inner >= 3 {
        inner - 2
    } else {
        1
    }) as usize;
    class_cards(cs, text_width, inner)
}

/// A class diagram drawn as stacked cards that fit in `max_width` columns,
/// followed by its relationships as a list; `None` below 12 columns or for a
/// diagram without classes.
pub open spec fn spec_render_vertical_class_diagram(content: Seq<char>, max_width: usize) -> Option<Seq<char>> {
    if max_width < 12 || diagram_parts(content).0.len() == 0 {
        None
    } else {
        Some(trim_end(stacked_cards(content, max_width) + relationship_section(diagram_parts(content).1, max_width)))
    }
}

fn max_width_of_strings(v: &Vec<String>, start: usize) -> (r: usize)
    ensures
        r as nat == (if start as nat > max_line_width(string_views(v@)) {
            start as nat
        } else {
            max_line_width(string_views(v@))
        }),
{
    let ghost sv = string_views(v@);
    let mut m = start;
    let mut i: usize = 0;
    assert(sv.take(0) =~= Seq::<Seq<char>>::empty());
    while i < v.len()
        invariant
            i <= v.len(),
            sv == string_views(v@),
            m as nat == (if start as nat > max_line_width(sv.take(i as int)) {
                start as nat
            } else {
                max_line_width(sv.take(i as int))
            }),
        decreases v.len() - i,
    {
        assert(sv.take(i + 1).drop_last() == sv.take(i as int));
        assert(sv.take(i + 1).last() == v@[i as int]@);
        let w = display_width(v[i].as_str());
        if w > m {
            m = w;
        }
        i += 1;
    }
    assert(sv.take(v.len() as int) == sv);
    m
}

proof fn lemma_max_line_width_cons(a: Seq<char>, ms: Seq<Seq<char>>)
    ensures
        max_line_width(seq![a] + ms) == (if str_width(a) as nat > max_line_width(ms) {
            str_width(a) as nat
        } else {
            max_line_width(ms)
        }),
    decreases ms.len(),
{
    if ms.len() == 0 {
        assert(seq![a] + ms == seq![a]);
        assert(seq![a].drop_last() == Seq::<Seq<char>>::empty());
        assert(max_line_width(Seq::<Seq<char>>::empty()) == 0);
        assert(max_line_width(ms) == 0);
        assert(max_line_width(seq![a]) == str_width(a) as nat);
    } else {
        lemma_max_line_width_cons(a, ms.drop_last());
        assert((seq![a] + ms).drop_last() == seq![a] + ms.drop_last());
        assert((seq![a] + ms).last() == ms.last());
    }
}

fn push_member_rows(out: &mut String, members: &Vec<String>, text_width: usize, inner: usize)
    ensures
        final(out)@ == old(out)@ + member_rows(string_views(members@), text_width, inner),
        ends_line(member_rows(string_views(members@), text_width, inner)),
        all_ascii_lines(string_views(members@)) && 1 <= text_width && text_width + 2 <= inner ==> rows_fit(
            member_rows(string_views(members@), text_width, inner),
            inner + 2,
        ) && lines_of_width(member_rows(string_views(members@), text_width, inner), inner + 2),
{
    let ghost ms = string_views(members@);
    let ghost mstart = out@;
    let ghost fits = all_ascii_lines(ms) && 1 <= text_width && text_width + 2 <= inner;
    let mut k: usize = 0;
    assert(ms.take(0) =~= Seq::<Seq<char>>::empty());
    while k < members.len()
        invariant
            k <= members.len(),
            ms == string_views(members@),
            fits == (all_ascii_lines(ms) && 1 <= text_width && text_width + 2 <= inner),
            mstart == old(out)@,
            out@ == mstart + member_rows(ms.take(k as int), text_width, inner),
            ends_line(member_rows(ms.take(k as int), text_width, inner)),
            fits ==> rows_fit(member_rows(ms.take(k as int), text_width, inner), inner + 2),
            fits ==> lines_of_width(member_rows(ms.take(k as int), text_width, inner), inner + 2),
        decreases members.len() - k,
    {
        let ghost prev = member_rows(ms.take(k as int), text_width, inner);
        assert(ms.take(k + 1).drop_last() == ms.take(k as int));
        assert(ms.take(k + 1).last() == members@[k as int]@);
        proof {
            if fits {
                assert(ms[k as int] == members@[k as int]@);
                assert(all_ascii(ms[k as int]));
            }
        }
        push_card_text(out, members[k].as_str(), text_width, inner);
        proof {
            let t = spec_card_text(members@[k as int]@, text_width, inner);
            lemma_ends_line_append(prev, t);
            if fits {
                lemma_rows_fit_append(prev, t, inner + 2);
                lemma_lines_of_width_append(prev, t, inner + 2);
            }
        }
        k += 1;
    }
    assert(ms.take(members.len() as int) == ms);
}

fn push_class_card(out: &mut String, class: &ClassBlock, text_width: usize, inner: usize)
    ensures
        final(out)@ == old(out)@ + class_card(class_view(*class), text_width, inner),
        ends_line(class_card(class_view(*class), text_width, inner)),
        class_ascii(class_view(*class)) && 1 <= text_width && text_width + 2 <= inner ==> rows_fit(
            class_card(class_view(*class), text_width, inner),
            inner + 2,
        ) && lines_of_width(class_card(class_view(*class), text_width, inner), inner + 2),
{
    let ghost border = repeat_char('─', inner as nat);
    let ghost fits = class_ascii(class_view(*class)) && 1 <= text_width && text_width + 2 <= inner;
    let ghost s0 = out@;
    out.push('┌');
    push_repeated(out, '─', inner);
    out.push('┐');
    out.push('\n');
    let ghost s1 = out@;
    let ghost top = seq!['┌'] + border + seq!['┐', '\n'];
    assert(s1 == s0 + top);
    push_card_text(out, class.name.as_str(), text_width, inner);
    let ghost name_rows = spec_card_text(class.name@, text_width, inner);
    let ghost s2 = out@;
    let ghost mid = seq!['├'] + border + seq!['┤', '\n'];
    let ghost members = member_rows(string_views(class.members@), text_width, inner);
    if class.members.len() > 0 {
        out.push('├');
        push_repeated(out, '─', inner);
        out.push('┤');
        out.push('\n');
        let ghost s3 = out@;
        assert(s3 == s2 + mid);
        push_member_rows(out, &class.members, text_width, inner);
        assert(out@ =~= s2 + (mid + members));
    } else {
        assert(out@ =~= s2 + Seq::<char>::empty());
    }
    let ghost s4 = out@;
    out.push('└');
    push_repeated(out, '─', inner);
    out.push('┘');
    out.push('\n');
    let ghost bottom = seq!['└'] + border + seq!['┘', '\n'];
    assert(out@ == s4 + bottom);
    proof {
        let rest = if class.members@.len() > 0 { mid + members } else { Seq::<char>::empty() };
        assert(class_card(class_view(*class), text_width, inner) =~= ((top + name_rows) + rest) + bottom);
        assert(out@ =~= s0 + (((top + name_rows) + rest) + bottom));
        lemma_border_fits('┌', '┐', inner);
        lemma_border_fits('├', '┤', inner);
        lemma_border_fits('└', '┘', inner);
        lemma_ends_line_append(top, name_rows);
        if class.members@.len() > 0 {
            lemma_ends_line_append(mid, members);
        }
        lemma_ends_line_append(top + name_rows, rest);
        lemma_ends_line_append((top + name_rows) + rest, bottom);
        if fits {
            assert(string_views(class.members@) == class_view(*class).1);
            lemma_rows_fit_append(top, name_rows, inner + 2);
            if class.members@.len() > 0 {
                lemma_rows_fit_append(mid, members, inner + 2);
            }
            lemma_rows_fit_append(top + name_rows, rest, inner + 2);
            lemma_rows_fit_append((top + name_rows) + rest, bottom, inner + 2);
            lemma_lines_of_width_append(top, name_rows, inner + 2);
            if class.members@.len() > 0 {
                lemma_lines_of_width_append(mid, members, inner + 2);
            }
            lemma_lines_of_width_append(top + name_rows, rest, inner + 2);
            lemma_lines_of_width_append((top + name_rows) + rest, bottom, inner + 2);
        }
    }
}

fn push_relationship_rows(out: &mut String, rels: &Vec<String>, max_width: usize)
    ensures
        final(out)@ == old(out)@ + relationship_rows(string_views(rels@), max_width),
        ends_line(relationship_rows(string_views(rels@), max_width)),
        all_ascii_lines(string_views(rels@)) && 3 <= max_width ==> rows_fit(
            relationship_rows(string_views(rels@), max_width),
            max_width as int,
        ),
{
    let ghost rs = string_views(rels@);
    let ghost rstart = out@;
    let ghost fits = all_ascii_lines(rs) && 3 <= max_width;
    let bullet = "• ";
    let indent = "  ";
    proof {
        reveal_strlit("• ");
        reveal_strlit("  ");
    }
    assert(bullet@ == seq!['•', ' ']);
    assert(indent@ == seq![' ', ' ']);
    let mut k: usize = 0;
    assert(rs.take(0) =~= Seq::<Seq<char>>::empty());
    while k < rels.len()
        invariant
            k <= rels.len(),
            rs == string_views(rels@),
            fits == (all_ascii_lines(rs) && 3 <= max_width),
            rstart == old(out)@,
            bullet@ == seq!['•', ' '],
            indent@ == seq![' ', ' '],
            out@ == rstart + relationship_rows(rs.take(k as int), max_width),
            ends_line(relationship_rows(rs.take(k as int), max_width)),
            fits ==> rows_fit(relationship_rows(rs.take(k as int), max_width), max_width as int),
        decreases rels.len() - k,
    {
        let ghost prev = relationship_rows(rs.take(k as int), max_width);
        assert(rs.take(k + 1).drop_last() == rs.take(k as int));
        assert(rs.take(k + 1).last() == rels@[k as int]@);
        proof {
            if fits {
                assert(rs[k as int] == rels@[k as int]@);
                assert(all_ascii(rels@[k as int]@));
            }
            assert(printable_ascii(indent@));
            assert(no_newline(bullet@));
        }
        push_prefixed_wrapped_text(out, rels[k].as_str(), bullet, indent, max_width);
        proof {
            let t = spec_prefixed_wrapped_text(rels@[k as int]@, bullet@, indent@, max_width);
            lemma_ends_line_append(prev, t);
            if fits {
                lemma_rows_fit_append(prev, t, max_width as int);
            }
        }
        k += 1;
    }
    assert(rs.take(rels.len() as int) == rs);
}

fn push_cards_and_relationships(
    out: &mut String,
    classes: &Vec<ClassBlock>,
    rels: &Vec<String>,
    text_width: usize,
    inner: usize,
    max_width: usize,
)
    ensures
        final(out)@ == old(out)@ + class_cards(class_views(classes@), text_width, inner) + relationship_section(
            string_views(rels@),
            max_width,
        ),
        classes_ascii(class_views(classes@)) && all_ascii_lines(string_views(rels@)) && 1 <= text_width
            && text_width + 2 <= inner && inner + 2 <= max_width ==> rows_fit(
            class_cards(class_views(classes@), text_width, inner) + relationship_section(string_views(rels@), max_width),
            max_width as int,
        ) && lines_of_width(class_cards(class_views(classes@), text_width, inner), inner + 2),
{
    let ghost cs = class_views(classes@);
    let ghost rs = string_views(rels@);
    let ghost fits = classes_ascii(cs) && all_ascii_lines(rs) && 1 <= text_width && text_width + 2 <= inner
        && inner + 2 <= max_width;
    let ghost start = out@;
    let mut i: usize = 0;
    assert(cs.take(0) =~= Seq::<(Seq<char>, Seq<Seq<char>>)>::empty());
    while i < classes.len()
        invariant
            i <= classes.len(),
            cs == class_views(classes@),
            fits == (classes_ascii(cs) && all_ascii_lines(rs) && 1 <= text_width && text_width + 2 <= inner
                && inner + 2 <= max_width),
            start == old(out)@,
            out@ == start + class_cards(cs.take(i as int), text_width, inner),
            ends_line(class_cards(cs.take(i as int), text_width, inner)),
            fits ==> rows_fit(class_cards(cs.take(i as int), text_width, inner), max_width as int),
            fits ==> lines_of_width(class_cards(cs.take(i as int), text_width, inner), inner + 2),
        decreases classes.len() - i,
    {
        let ghost prev = class_cards(cs.take(i as int), text_width, inner);
        let ghost sep = if i > 0 { seq!['\n'] } else { Seq::<char>::empty() };
        assert(cs.take(i + 1).drop_last() == cs.take(i as int));
        assert(cs.take(i + 1).last() == class_view(classes@[i as int]));
        if i > 0 {
            out.push('\n');
        }
        proof {
            assert(Seq::<char>::empty() + seq!['\n'] =~= seq!['\n']);
            lemma_rows_fit_row(Seq::<char>::empty(), max_width as int);
            lemma_lines_of_width_row(Seq::<char>::empty(), inner + 2);
            lemma_ends_line_append(prev, sep);
            if fits {
                lemma_lines_of_width_append(prev, sep, inner + 2);
                assert(cs[i as int] == class_view(classes@[i as int]));
                assert(class_ascii(class_view(classes@[i as int])));
                lemma_rows_fit_append(prev, sep, max_width as int);
            }
        }
        push_class_card(out, &classes[i], text_width, inner);
        proof {
            let card = class_card(class_view(classes@[i as int]), text_width, inner);
            assert(class_cards(cs.take(i + 1), text_width, inner) == (prev + sep) + card);
            lemma_ends_line_append(prev + sep, card);
            if fits {
                lemma_rows_fit_wider(card, inner + 2, max_width as int);
                lemma_rows_fit_append(prev + sep, card, max_width as int);
                lemma_lines_of_width_append(prev + sep, card, inner + 2);
            }
        }
        i += 1;
    }
    assert(cs.take(classes.len() as int) == cs);
    let ghost cards = class_cards(cs, text_width, inner);
    let ghost after_cards = out@;
    assert(after_cards == old(out)@ + cards);
    if rels.len() > 0 {
        out.push('\n');
        let word = "Relationships";
        proof {
            reveal_strlit("Relationships");
        }
        assert(word@ == relationships_word());
        assert(printable_ascii(word@));
        let heading = truncate_display_width(word, max_width);
        out.append(heading.as_str());
        out.push('\n');
        let hw = display_width(heading.as_str());
        push_repeated(out, '─', hw);
        out.push('\n');
        let ghost before_rows = out@;
        push_relationship_rows(out, rels, max_width);
        proof {
            let nl = seq!['\n'];
            let h = heading@;
            let rule = repeat_char('─', hw as nat);
            let rows = relationship_rows(rs, max_width);
            let section = relationship_section(rs, max_width);
            assert(section =~= ((nl + (h + nl)) + (rule + nl)) + rows);
            assert(out@ =~= after_cards + section);
            if fits {
                assert(Seq::<char>::empty() + nl =~= nl);
                lemma_rows_fit_row(Seq::<char>::empty(), max_width as int);
                assert forall|j: int| 0 <= j < h.len() implies h[j] != '\n' by {
                    assert(' ' <= h[j] <= '~');
                }
                lemma_rows_fit_row(h, max_width as int);
                assert forall|j: int| 0 <= j < rule.len() implies rule[j] != '\n' by {
                    assert(rule[j] == '─');
                }
                lemma_rows_fit_row(rule, max_width as int);
                lemma_rows_fit_append(nl, h + nl, max_width as int);
                lemma_ends_line_append(nl, h + nl);
                lemma_rows_fit_append(nl + (h + nl), rule + nl, max_width as int);
                lemma_ends_line_append(nl + (h + nl), rule + nl);
                lemma_rows_fit_append((nl + (h + nl)) + (rule + nl), rows, max_width as int);
                lemma_rows_fit_append(cards, section, max_width as int);
            }
        }
    } else {
        assert(after_cards + Seq::<char>::empty() == after_cards);
        proof {
            assert(cards + relationship_section(rs, max_width) =~= cards);
        }
    }
}

/// Draws a class diagram as stacked cards that fit in `max_width` columns.
/// For an ASCII diagram no line of the drawing holds more than `max_width`
/// characters, and every line of the cards is as wide as the cards.
pub fn render_vertical_class_diagram(content: &str, max_width: usize) -> (r: Option<String>)
    ensures
        r matches Some(s) ==> spec_render_vertical_class_diagram(content@, max_width) == Some(s@),
        r is None ==> spec_render_vertical_class_diagram(content@, max_width) is None,
        all_ascii(content@) ==> (r matches Some(s) ==> rows_fit(s@, max_width as int)),
        all_ascii(content@) && r is Some ==> lines_of_width(
            stacked_cards(content@, max_width),
            card_width(diagram_parts(content@).0, max_width),
        ),
{
    if max_width < 12 {
        return None;
    }
    let (classes, rels) = parse_class_diagram(content);
    if classes.len() == 0 {
        return None;
    }
    let ghost cs = class_views(classes@);
    let mut widest: usize = 0;
    let mut i: usize = 0;
    assert(cs.take(0) =~= Seq::<(Seq<char>, Seq<Seq<char>>)>::empty());
    while i < classes.len()
        invariant
            i <= classes.len(),
            cs == class_views(classes@),
            widest as nat == widest_class_line(cs.take(i as int)),
        decreases classes.len() - i,
    {
        assert(cs.take(i + 1).drop_last() == cs.take(i as int));
        assert(cs.take(i + 1).last() == class_view(classes@[i as int]));
        let nw = display_width(classes[i].name.as_str());
        let w = max_width_of_strings(&classes[i].members, nw);
        proof {
            lemma_max_line_width_cons(classes@[i as int].name@, string_views(classes@[i as int].members@));
        }
        if w > widest {
            widest = w;
        }
        i += 1;
    }
    assert(cs.take(classes.len() as int) == cs);
    let card: usize = if widest >= max_width || max_width - widest < 4 {
        max_width
    } else if widest + 4 < 12 {
        12
    } else {
        widest + 4
    };
    assert(card == card_width(cs, max_width));
    let inner = card - 2;
    let text_width = if inner >= 3 {
        inner - 2
    } else {
        1
    };
    let mut out = String::new();
    proof {
        if all_ascii(content@) {
            lemma_diagram_parts_ascii(content@);
        }
    }
    push_cards_and_relationships(&mut out, &classes, &rels, text_width, inner, max_width);
    let oc = chars_of(out.as_str());
    let trimmed_out = trim_end_chars(&oc);
    proof {
        if all_ascii(content@) {
            assert(out@ =~= class_cards(cs, text_width, inner) + relationship_section(string_views(rels@), max_width));
            lemma_rows_fit_trim_end(out@, max_width as int);
        }
    }
    Some(string_of(&trimmed_out))
}

/// The lines of a class: its name, then its members.
pub open spec fn class_lines(c: (Seq<char>, Seq<Seq<char>>)) -> Seq<Seq<char>> {
    seq![c.0] + c.1
}

proof fn lemma_max_line_width_bounds(ls: Seq<Seq<char>>)
    ensures
        forall|j: int| 0 <= j < ls.len() ==> str_width(#[trigger] ls[j]) <= max_line_width(ls),
        max_line_width(ls) == 0 || exists|j: int| 0 <= j < ls.len() && max_line_width(ls) == str_width(#[trigger] ls[j]),
    decreases ls.len(),
{
    if ls.len() > 0 {
        let p = ls.drop_last();
        lemma_max_line_width_bounds(p);
        assert forall|j: int| 0 <= j < ls.len() implies str_width(#[trigger] ls[j]) <= max_line_width(ls) by {
            if j < p.len() {
                assert(ls[j] == p[j]);
            }
        }
        if max_line_width(ls) != 0 {
            if max_line_width(ls) == str_width(ls.last()) {
                assert(max_line_width(ls) == str_width(ls[ls.len() - 1]));
            } else {
                let j = choose|j: int| 0 <= j < p.len() && max_line_width(p) == str_width(#[trigger] p[j]);
                assert(ls[j] == p[j]);
            }
        }
    }
}

proof fn lemma_widest_bounds(cs: Seq<(Seq<char>, Seq<Seq<char>>)>)
    ensures
        forall|i: int, j: int|
            0 <= i < cs.len() && 0 <= j < class_lines(cs[i]).len() ==> str_width(#[trigger] class_lines(cs[i])[j])
                <= widest_class_line(cs),
        widest_class_line(cs) == 0 || exists|i: int, j: int|
            0 <= i < cs.len() && 0 <= j < class_lines(cs[i]).len() && widest_class_line(cs) == str_width(
                #[trigger] class_lines(cs[i])[j],
            ),
    decreases cs.len(),
{
    if cs.len() > 0 {
        let p = cs.drop_last();
        lemma_widest_bounds(p);
        lemma_max_line_width_bounds(class_lines(cs.last()));
        assert forall|i: int, j: int|
            0 <= i < cs.len() && 0 <= j < class_lines(cs[i]).len() implies str_width(#[trigger] class_lines(cs[i])[j])
                <= widest_class_line(cs) by {
            if i < p.len() {
                assert(cs[i] == p[i]);
                assert(class_lines(p[i])[j] == class_lines(cs[i])[j]);
            } else {
                assert(cs[i] == cs.last());
            }
        }
        if widest_class_line(cs) != 0 {
            if widest_class_line(cs) == max_line_width(class_lines(cs.last())) {
                let j = choose|j: int| 0 <= j < class_lines(cs.last()).len() && max_line_width(class_lines(cs.last())) == str_width(
                    #[trigger] class_lines(cs.last())[j],
                );
                assert(cs[cs.len() - 1] == cs.last());
                assert(widest_class_line(cs) == str_width(class_lines(cs[cs.len() - 1])[j]));
            } else {
                let (i, j) = choose|i: int, j: int|
                    0 <= i < p.len() && 0 <= j < class_lines(p[i]).len() && widest_class_line(p) == str_width(
                        #[trigger] class_lines(p[i])[j],
                    );
                assert(cs[i] == p[i]);
                assert(widest_class_line(cs) == str_width(class_lines(cs[i])[j]));
            }
        }
    }
}

/// The cards are wide enough for every line that fits: at least 12 columns
/// and at most `max_width`, four columns wider than every class name or
/// member that is no wider than `max_width - 4`, and no wider than needed:
/// 12 columns, all of `max_width`, or four more than some line.
pub proof fn law_card_width_leaves_room(cs: Seq<(Seq<char>, Seq<Seq<char>>)>, max_width: usize)
    requires
        max_width >= 12,
    ensures
        12 <= card_width(cs, max_width) <= max_width,
        forall|i: int, j: int|
            0 <= i < cs.len() && 0 <= j < class_lines(cs[i]).len() && str_width(#[trigger] class_lines(cs[i])[j]) + 4
                <= max_width ==> str_width(class_lines(cs[i])[j]) + 4 <= card_width(cs, max_width),
        card_width(cs, max_width) == 12 || card_width(cs, max_width) == max_width || exists|i: int, j: int|
            0 <= i < cs.len() && 0 <= j < class_lines(cs[i]).len() && card_width(cs, max_width) == str_width(
                #[trigger] class_lines(cs[i])[j],
            ) + 4,
{
    lemma_widest_bounds(cs);
}

/// The stacked cards of a diagram with classes, at 12 columns or more, are
/// drawn `card_width` columns wide, with the text inside wrapped to four
/// columns less (a frame and a margin on each side).
pub proof fn law_stacked_cards_text_width(content: Seq<char>, max_width: usize)
    requires
        max_width >= 12,
    ensures
        stacked_cards(content, max_width) == class_cards(
            diagram_parts(content).0,
            (card_width(diagram_parts(content).0, max_width) - 4) as usize,
            (card_width(diagram_parts(content).0, max_width) - 2) as usize,
        ),
{
    law_card_width_leaves_room(diagram_parts(content).0, max_width);
}

/// A class name or member that is one word and fits in `max_width - 4`
/// columns is drawn unbroken on one card row: `│ `, the word, padding to
/// the card's width, and `│`.
pub proof fn law_fitting_line_on_one_row(content: Seq<char>, max_width: usize, i: int, j: int)
    requires
        max_width >= 12,
        0 <= i < diagram_parts(content).0.len(),
        0 <= j < class_lines(diagram_parts(content).0[i]).len(),
        class_lines(diagram_parts(content).0[i])[j].len() > 0,
        forall|k: int|
            0 <= k < class_lines(diagram_parts(content).0[i])[j].len() ==> !crate::text::is_ws(
                #[trigger] class_lines(diagram_parts(content).0[i])[j][k],
            ),
        str_width(class_lines(diagram_parts(content).0[i])[j]) + 4 <= max_width,
    ensures
        ({
            let cs = diagram_parts(content).0;
            let l = class_lines(cs[i])[j];
            let card = card_width(cs, max_width);
            spec_card_text(l, (card - 4) as usize, (card - 2) as usize) == seq!['│', ' '] + l + spaces(
                (card - 3 - str_width(l)) as nat,
            ) + seq!['│', '\n']
        }),
{
    let cs = diagram_parts(content).0;
    let l = class_lines(cs[i])[j];
    let card = card_width(cs, max_width);
    law_card_width_leaves_room(cs, max_width);
    assert(str_width(l) + 4 <= card);
    let tw = (card - 4) as usize;
    let inner = (card - 2) as usize;
    law_fitting_word_is_one_line(l, tw);
    let ls = seq![l];
    assert(ls.drop_last() =~= Seq::<Seq<char>>::empty());
    assert(card_rows(ls, inner) == card_rows(Seq::<Seq<char>>::empty(), inner) + card_row(l, inner));
    assert(card_rows(Seq::<Seq<char>>::empty(), inner) + card_row(l, inner) =~= card_row(l, inner));
}

} // verus!
