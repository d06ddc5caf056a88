use vstd::prelude::*;
use crate::keywords::{is_diagram_keyword, is_direction_keyword, is_structure_keyword, spec_is_diagram_keyword, spec_is_direction_keyword, spec_is_structure_keyword};
use crate::lines::subrange_chars;
use crate::text::{chars_of, starts_with, string_of};

verus! {

/// How a piece of a Mermaid source line is coloured.
#[derive(Clone, Copy, Debug, PartialEq, Eq, Structural)]
pub enum TokenKind {
    Keyword,
    Arrow,
    Label,
    Plain,
}

/// A piece of a source line and its colour.
pub struct Token {
    pub text: String,
    pub kind: TokenKind,
}

pub open spec fn token_view(t: Token) -> (Seq<char>, TokenKind) {
    (t.text@, t.kind)
}

pub open spec fn token_views(ts: Seq<Token>) -> Seq<(Seq<char>, TokenKind)> {
    ts.map_values(|t: Token| token_view(t))
}

pub open spec fn spec_is_keyword(w: Seq<char>) -> bool {
    spec_is_diagram_keyword(w) || spec_is_direction_keyword(w) || spec_is_structure_keyword(w)
}

pub fn is_keyword(word: &str) -> (r: bool)
    ensures
        r == spec_is_keyword(word@),
{
    is_diagram_keyword(word) || is_direction_keyword(word) || is_structure_keyword(word)
}

/// The arrow that `s` starts with, longest forms tried first.
pub open spec fn arrow_at(s: Seq<char>) -> Option<Seq<char>> {
    if starts_with(s, seq!['-', '.', '-', '>']) {
        Some(seq!['-', '.', '-', '>'])
    } else if starts_with(s, seq!['=', '=', '>']) {
        Some(seq!['=', '=', '>'])
    } else if starts_with(s, seq!['-', '-', '>']) {
        Some(seq!['-', '-', '>'])
    } else if starts_with(s, seq!['-', '-', '-']) {
        Some(seq!['-', '-', '-'])
    } else if starts_with(s, seq!['-', '.', '-']) {
        Some(seq!['-', '.', '-'])
    } else if starts_with(s, seq!['-', '.', '.']) {
        Some(seq!['-', '.', '.'])
    } else if starts_with(s, seq!['-', '>']) {
        Some(seq!['-', '>'])
    } else if starts_with(s, seq!['-', '-']) {
        Some(seq!['-', '-'])
    } else {
        None
    }
}

/// Length of the arrow at position `i` of `s`, if one starts there.
fn arrow_len_at(s: &Vec<char>, i: usize) -> (r: Option<usize>)
    requires
        i <= s.len(),
    ensures
        r matches Some(n) ==> arrow_at(s@.skip(i as int)) matches Some(a) && a.len() == n && 2 <= n && i + n <= s.len(),
        r is None ==> arrow_at(s@.skip(i as int)) is None,
{
    let ghost t = s@.skip(i as int);
    let n = s.len() - i;
    let c0 = if n > 0 { s[i] } else { ' ' };
    let c1 = if n > 1 { s[i + 1] } else { ' ' };
    let c2 = if n > 2 { s[i + 2] } else { ' ' };
    let c3 = if n > 3 { s[i + 3] } else { ' ' };
    assert(n > 0 ==> t[0] == c0);
    assert(n > 1 ==> t[1] == c1);
    assert(n > 2 ==> t[2] == c2);
    assert(n > 3 ==> t[3] == c3);
    if n >= 4 && c0 == '-' && c1 == '.' && c2 == '-' && c3 == '>' {
        assert(t.take(4) =~= seq!['-', '.', '-', '>']);
        return Some(4);
    }
    assert(!starts_with(t, seq!['-', '.', '-', '>'])) by {
        if n >= 4 {
            assert(t.take(4)[0] == c0 && t.take(4)[1] == c1 && t.take(4)[2] == c2 && t.take(4)[3] == c3);
        }
    }
    if n >= 3 && c0 == '=' && c1 == '=' && c2 == '>' {
        assert(t.take(3) =~= seq!['=', '=', '>']);
        return Some(3);
    }
    assert(!starts_with(t, seq!['=', '=', '>'])) by {
        if n >= 3 {
            assert(t.take(3)[0] == c0 && t.take(3)[1] == c1 && t.take(3)[2] == c2);
        }
    }
    if n >= 3 && c0 == '-' && c1 == '-' && c2 == '>' {
        assert(t.take(3) =~= seq!['-', '-', '>']);
        return Some(3);
    }
    assert(!starts_with(t, seq!['-', '-', '>'])) by {
        if n >= 3 {
            assert(t.take(3)[0] == c0 && t.take(3)[1] == c1 && t.take(3)[2] == c2);
        }
    }
    if n >= 3 && c0 == '-' && c1 == '-' && c2 == '-' {
        assert(t.take(3) =~= seq!['-', '-', '-']);
        return Some(3);
    }
    assert(!starts_with(t, seq!['-', '-', '-'])) by {
        if n >= 3 {
            assert(t.take(3)[0] == c0 && t.take(3)[1] == c1 && t.take(3)[2] == c2);
        }
    }
    if n >= 3 && c0 == '-' && c1 == '.' && c2 == '-' {
        assert(t.take(3) =~= seq!['-', '.', '-']);
        return Some(3);
    }
    assert(!starts_with(t, seq!['-', '.', '-'])) by {
        if n >= 3 {
            assert(t.take(3)[0] == c0 && t.take(3)[1] == c1 && t.take(3)[2] == c2);
        }
    }
    if n >= 3 && c0 == '-' && c1 == '.' && c2 == '.' {
        assert(t.take(3) =~= seq!['-', '.', '.']);
        return Some(3);
    }
    assert(!starts_with(t, seq!['-', '.', '.'])) by {
        if n >= 3 {
            assert(t.take(3)[0] == c0 && t.take(3)[1] == c1 && t.take(3)[2] == c2);
        }
    }
    if n >= 2 && c0 == '-' && c1 == '>' {
        assert(t.take(2) =~= seq!['-', '>']);
        return Some(2);
    }
    assert(!starts_with(t, seq!['-', '>'])) by {
        if n >= 2 {
            assert(t.take(2)[0] == c0 && t.take(2)[1] == c1);
        }
    }
    if n >= 2 && c0 == '-' && c1 == '-' {
        assert(t.take(2) =~= seq!['-', '-']);
        return Some(2);
    }
    assert(!starts_with(t, seq!['-', '-'])) by {
        if n >= 2 {
            assert(t.take(2)[0] == c0 && t.take(2)[1] == c1);
        }
    }
    None
}

/// The arrow that `s` starts with and its length.
pub fn try_match_arrow(s: &str) -> (r: Option<(String, usize)>)
    ensures
        r matches Some(p) ==> arrow_at(s@) == Some(p.0@) && p.1 == p.0@.len(),
        r is None ==> arrow_at(s@) is None,
{
    let c = chars_of(s);
    assert(c@.skip(0) == c@);
    match arrow_len_at(&c, 0) {
        Some(n) => {
            let a = subrange_chars(&c, 0, n);
            assert(a@ == c@.take(n as int));
            Some((string_of(&a), n))
        },
        None => None,
    }
}

pub open spec fn is_ascii_alpha(c: char) -> bool {
    (65 <= (c as u32) <= 90) || (97 <= (c as u32) <= 122)
}

pub open spec fn is_ascii_digit(c: char) -> bool {
    48 <= (c as u32) <= 57
}

/// A word starts with an ASCII letter or `_`.
pub open spec fn is_word_start(c: char) -> bool {
    is_ascii_alpha(c) || c == '_'
}

/// A word goes on over ASCII letters, digits, `_` and `-`.
pub open spec fn is_word_char(c: char) -> bool {
    is_ascii_alpha(c) || is_ascii_digit(c) || c == '_' || c == '-'
}

fn word_start(c: char) -> (r: bool)
    ensures
        r == is_word_start(c),
{
    let u = c as u32;
    (65 <= u && u <= 90) || (97 <= u && u <= 122) || c == '_'
}

fn word_char(c: char) -> (r: bool)
    ensures
        r == is_word_char(c),
{
    let u = c as u32;
    (65 <= u && u <= 90) || (97 <= u && u <= 122) || (48 <= u && u <= 57) || c == '_' || c == '-'
}

/// End of the word that runs from `i`.
pub open spec fn word_end(s: Seq<char>, i: int) -> int
    decreases s.len() - i,
{
    if 0 <= i < s.len() && is_word_char(s[i]) {
        word_end(s, i + 1)
    } else {
        i
    }
}

/// End of the run of other characters from `i`: it stops before a word, a
/// `|` or an arrow.
pub open spec fn other_end(s: Seq<char>, i: int) -> int
    decreases s.len() - i,
{
    if 0 <= i < s.len() && !is_word_start(s[i]) && s[i] != '|' && arrow_at(s.skip(i)) is None {
        other_end(s, i + 1)
    } else {
        i
    }
}

pub proof fn lemma_word_end(s: Seq<char>, i: int)
    requires
        0 <= i <= s.len(),
    ensures
        i <= word_end(s, i) <= s.len(),
    decreases s.len() - i,
{
    if i < s.len() && is_word_char(s[i]) {
        lemma_word_end(s, i + 1);
    }
}

pub proof fn lemma_other_end(s: Seq<char>, i: int)
    requires
        0 <= i <= s.len(),
    ensures
        i <= other_end(s, i) <= s.len(),
    decreases s.len() - i,
{
    if i < s.len() && !is_word_start(s[i]) && s[i] != '|' && arrow_at(s.skip(i)) is None {
        lemma_other_end(s, i + 1);
    }
}

pub open spec fn word_kind(w: Seq<char>) -> TokenKind {
    if spec_is_keyword(w) {
        TokenKind::Keyword
    } else {
        TokenKind::Plain
    }
}

/// The coloured pieces of a line segment without `|`, from position `i` on:
/// arrows, words (keywords highlighted), and runs of other characters.
pub open spec fn tokens_from(s: Seq<char>, i: int) -> Seq<(Seq<char>, TokenKind)>
    decreases s.len() - i,
{
    if i < 0 || i >= s.len() {
        Seq::empty()
    } else if arrow_at(s.skip(i)) is Some {
        let a = arrow_at(s.skip(i))->0;
        if a.len() == 0 {
            Seq::empty()
        } else {
            seq![(a, TokenKind::Arrow)] + tokens_from(s, i + a.len())
        }
    } else if is_word_start(s[i]) {
        proof {
            lemma_word_end(s, i + 1);
        }
        let e = word_end(s, i + 1);
        let w = s.subrange(i, e);
        seq![(w, word_kind(w))] + tokens_from(s, e)
    } else if s[i] == '|' {
        Seq::empty()
    } else {
        proof {
            lemma_other_end(s, i + 1);
        }
        let e = other_end(s, i + 1);
        seq![(s.subrange(i, e), TokenKind::Plain)] + tokens_from(s, e)
    }
}

pub open spec fn has_no_bar(s: Seq<char>) -> bool {
    forall|j: int| 0 <= j < s.len() ==> s[j] != '|'
}

fn push_token(spans: &mut Vec<Token>, text: Vec<char>, kind: TokenKind)
    ensures
        token_views(final(spans)@) == token_views(old(spans)@).push((text@, kind)),
{
    let ghost before = token_views(spans@);
    spans.push(Token { text: string_of(&text), kind });
    assert(token_views(spans@) == before.push((text@, kind)));
}

/// Splits a segment without `|` into coloured pieces.
pub fn tokenize_segment(segment: &Vec<char>, spans: &mut Vec<Token>)
    requires
        has_no_bar(segment@),
    ensures
        token_views(final(spans)@) == token_views(old(spans)@) + tokens_from(segment@, 0),
{
    let ghost s = segment@;
    let ghost start = token_views(spans@);
    let mut i: usize = 0;
    while i < segment.len()
        invariant
            i <= segment.len(),
            s == segment@,
            has_no_bar(s),
            start == token_views(old(spans)@),
            token_views(spans@) + tokens_from(s, i as int) == start + tokens_from(s, 0),
        decreases segment.len() - i,
    {
        let ghost before = token_views(spans@);
        match arrow_len_at(segment, i) {
            Some(n) => {
                let a = subrange_chars(segment, i, i + n);
                assert(a@ == s.skip(i as int).take(n as int));
                push_token(spans, a, TokenKind::Arrow);
                assert(before.push((a@, TokenKind::Arrow)) + tokens_from(s, i + n) == before + tokens_from(s, i as int));
                i += n;
                continue;
            },
            None => {},
        }
        if word_start(segment[i]) {
            let begin = i;
            i += 1;
            while i < segment.len() && word_char(segment[i])
                invariant
                    begin < i <= segment.len(),
                    s == segment@,
                    word_end(s, begin + 1) == word_end(s, i as int),
                decreases segment.len() - i,
            {
                i += 1;
            }
            let w = subrange_chars(segment, begin, i);
            let ws = string_of(&w);
            let kw = is_keyword(ws.as_str());
            let kind = if kw { TokenKind::Keyword } else { TokenKind::Plain };
            assert(kind == word_kind(w@));
            push_token(spans, w, kind);
            assert(before.push((s.subrange(begin as int, i as int), kind)) + tokens_from(s, i as int) == before + tokens_from(s, begin as int));
            continue;
        }
        let begin = i;
        assert(!is_word_start(s[begin as int]) && s[begin as int] != '|' && arrow_at(s.skip(begin as int)) is None);
        i += 1;
        loop
            invariant
                begin < i <= segment.len(),
                s == segment@,
                other_end(s, begin + 1) == other_end(s, i as int),
            ensures
                begin < i <= segment.len(),
                other_end(s, begin + 1) == i,
            decreases segment.len() - i,
        {
            if i >= segment.len() || word_start(segment[i]) || segment[i] == '|' {
                break;
            }
            match arrow_len_at(segment, i) {
                Some(n) => {
                    break;
                },
                None => {},
            }
            i += 1;
        }
        let o = subrange_chars(segment, begin, i);
        push_token(spans, o, TokenKind::Plain);
        assert(before.push((s.subrange(begin as int, i as int), TokenKind::Plain)) + tokens_from(s, i as int) == before + tokens_from(s, begin as int));
    }
    assert(tokens_from(s, i as int) == Seq::<(Seq<char>, TokenKind)>::empty());
    assert(token_views(spans@) + Seq::<(Seq<char>, TokenKind)>::empty() == token_views(spans@));
}

/// Index of the first `c` in `s`, or -1.
pub open spec fn char_index(s: Seq<char>, c: char) -> int
    decreases s.len(),
{
    if s.len() == 0 {
        -1
    } else if s[0] == c {
        0
    } else {
        let r = char_index(s.drop_first(), c);
        if r < 0 {
            -1
        } else {
            r + 1
        }
    }
}

pub proof fn lemma_char_index(s: Seq<char>, c: char)
    ensures
        -1 <= char_index(s, c) < s.len(),
        char_index(s, c) >= 0 ==> s[char_index(s, c)] == c,
        forall|j: int| 0 <= j < s.len() && (char_index(s, c) < 0 || j < char_index(s, c)) ==> s[j] != c,
    decreases s.len(),
{
    if s.len() > 0 && s[0] != c {
        lemma_char_index(s.drop_first(), c);
        assert forall|j: int| 0 <= j < s.len() && (char_index(s, c) < 0 || j < char_index(s, c)) implies s[j] != c by {
            if j > 0 {
                assert(s[j] == s.drop_first()[j - 1]);
            }
        }
    }
}

/// Finds the first `c` of `s` at or after `from`.
fn find_char(s: &Vec<char>, from: usize, c: char) -> (r: Option<usize>)
    requires
        from <= s.len(),
    ensures
        r matches Some(k) ==> from <= k < s.len() && char_index(s@.skip(from as int), c) == k - from,
        r is None ==> char_index(s@.skip(from as int), c) == -1,
{
    let mut k: usize = from;
    while k < s.len() && s[k] != c
        invariant
            from <= k <= s.len(),
            forall|j: int| from <= j < k ==> s@[j] != c,
        decreases s.len() - k,
    {
        k += 1;
    }
    proof {
        let t = s@.skip(from as int);
        lemma_char_index(t, c);
        if k < s.len() {
            assert(t[k - from] == c);
            if char_index(t, c) != k - from {
                if char_index(t, c) < 0 {
                    assert(t[k - from] != c);
                } else if char_index(t, c) < k - from {
                    assert(t[char_index(t, c)] == s@[from + char_index(t, c)]);
                } else {
                    assert(t[k - from] != c);
                }
            }
        } else if char_index(t, c) >= 0 {
            assert(t[char_index(t, c)] == s@[from + char_index(t, c)]);
        }
    }
    if k < s.len() {
        Some(k)
    } else {
        None
    }
}

/// The coloured pieces of a line from `rest` on: text between two `|` is a
/// label, a lone `|` is plain, and the text around is split into arrows,
/// words and other runs.
pub open spec fn colorize_rest(rest: Seq<char>) -> Seq<(Seq<char>, TokenKind)>
    decreases rest.len(),
{
    if rest.len() == 0 {
        Seq::empty()
    } else {
        let p = char_index(rest, '|');
        if p < 0 {
            tokens_from(rest, 0)
        } else {
            proof {
                lemma_char_index(rest, '|');
            }
            let pre = tokens_from(rest.take(p), 0);
            let after = rest.skip(p + 1);
            let e = char_index(after, '|');
            if e >= 0 {
                proof {
                    lemma_char_index(after, '|');
                }
                pre + seq![(seq!['|'] + after.take(e) + seq!['|'], TokenKind::Label)] + colorize_rest(after.skip(e + 1))
            } else {
                pre + seq![(seq!['|'], TokenKind::Plain)] + colorize_rest(after)
            }
        }
    }
}

/// The coloured pieces of a Mermaid source line; a line that yields none is
/// one plain piece.
pub open spec fn spec_colorize_line(line: Seq<char>) -> Seq<(Seq<char>, TokenKind)> {
    let r = colorize_rest(line);
    if r.len() == 0 {
        seq![(line, TokenKind::Plain)]
    } else {
        r
    }
}

/// Colours a Mermaid source line.
pub fn colorize_line(line: &str) -> (r: Vec<Token>)
    ensures
        token_views(r@) == spec_colorize_line(line@),
{
    let l = chars_of(line);
    let ghost s = l@;
    let mut spans: Vec<Token> = Vec::new();
    let mut pos: usize = 0;
    assert(s.skip(0) == s);
    assert(token_views(spans@) == Seq::<(Seq<char>, TokenKind)>::empty());
    while pos < l.len()
        invariant
            pos <= l.len(),
            s == l@,
            token_views(spans@) + colorize_rest(s.skip(pos as int)) == colorize_rest(s),
        decreases l.len() - pos,
    {
        let ghost rest = s.skip(pos as int);
        let ghost before = token_views(spans@);
        proof {
            lemma_char_index(rest, '|');
        }
        match find_char(&l, pos, '|') {
            Some(p) => {
                let seg = subrange_chars(&l, pos, p);
                assert(seg@ == rest.take(p - pos));
                assert(has_no_bar(seg@)) by {
                    assert forall|j: int| 0 <= j < seg@.len() implies seg@[j] != '|' by {
                        assert(seg@[j] == rest[j]);
                    }
                }
                tokenize_segment(&seg, &mut spans);
                let ghost mid = token_views(spans@);
                let ghost after = rest.skip(p - pos + 1);
                assert(after == s.skip(p + 1));
                match find_char(&l, p + 1, '|') {
                    Some(e) => {
                        proof {
                            lemma_char_index(after, '|');
                        }
                        let mut lab = vec!['|'];
                        let inner = subrange_chars(&l, p + 1, e);
                        crate::text::push_all(&mut lab, &inner);
                        lab.push('|');
                        assert(inner@ == after.take(e - p - 1));
                        assert(lab@ == seq!['|'] + after.take(e - p - 1) + seq!['|']);
                        push_token(&mut spans, lab, TokenKind::Label);
                        assert(after.skip(e - p - 1 + 1) == s.skip(e + 1));
                        assert(token_views(spans@) + colorize_rest(s.skip(e + 1)) == colorize_rest(s));
                        pos = e + 1;
                    },
                    None => {
                        let bar = vec!['|'];
                        assert(bar@ == seq!['|']);
                        push_token(&mut spans, bar, TokenKind::Plain);
                        assert(token_views(spans@) + colorize_rest(s.skip(p + 1)) == colorize_rest(s));
                        pos = p + 1;
                    },
                }
            },
            None => {
                let seg = subrange_chars(&l, pos, l.len());
                assert(seg@ == rest);
                assert(has_no_bar(seg@));
                tokenize_segment(&seg, &mut spans);
                assert(token_views(spans@) == colorize_rest(s));
                pos = l.len();
                assert(colorize_rest(s.skip(pos as int)) == Seq::<(Seq<char>, TokenKind)>::empty());
                assert(token_views(spans@) + Seq::<(Seq<char>, TokenKind)>::empty() == token_views(spans@));
            },
        }
    }
    assert(colorize_rest(s.skip(pos as int)) == Seq::<(Seq<char>, TokenKind)>::empty());
    assert(token_views(spans@) + Seq::<(Seq<char>, TokenKind)>::empty() == token_views(spans@));
    if spans.len() == 0 {
        push_token(&mut spans, l, TokenKind::Plain);
    }
    spans
}

/// The texts of `ts`, one after another.
pub open spec fn joined_texts(ts: Seq<(Seq<char>, TokenKind)>) -> Seq<char>
    decreases ts.len(),
{
    if ts.len() == 0 {
        Seq::empty()
    } else {
        ts[0].0 + joined_texts(ts.drop_first())
    }
}

pub proof fn lemma_joined_texts_append(a: Seq<(Seq<char>, TokenKind)>, b: Seq<(Seq<char>, TokenKind)>)
    ensures
        joined_texts(a + b) == joined_texts(a) + joined_texts(b),
    decreases a.len(),
{
    if a.len() == 0 {
        assert(a + b =~= b);
        assert(joined_texts(a) + joined_texts(b) =~= joined_texts(b));
    } else {
        assert((a + b).drop_first() =~= a.drop_first() + b);
        lemma_joined_texts_append(a.drop_first(), b);
        assert((a + b)[0] == a[0]);
        assert(joined_texts(a + b) =~= joined_texts(a) + joined_texts(b));
    }
}

pub proof fn lemma_joined_single(t: (Seq<char>, TokenKind), rest: Seq<(Seq<char>, TokenKind)>)
    ensures
        joined_texts(seq![t] + rest) == t.0 + joined_texts(rest),
{
    assert((seq![t] + rest).drop_first() =~= rest);
    assert((seq![t] + rest)[0] == t);
}

proof fn lemma_arrow_prefix(x: Seq<char>)
    requires
        arrow_at(x) is Some,
    ensures
        arrow_at(x)->0.len() >= 2,
        x.take(arrow_at(x)->0.len() as int) == arrow_at(x)->0,
{
}

/// The pieces of a segment without `|` spell the segment from `i` on.
pub proof fn lemma_tokens_spell(s: Seq<char>, i: int)
    requires
        0 <= i <= s.len(),
        has_no_bar(s),
    ensures
        joined_texts(tokens_from(s, i)) == s.skip(i),
    decreases s.len() - i,
{
    if i < s.len() {
        let t = s.skip(i);
        if arrow_at(t) is Some {
            let a = arrow_at(t)->0;
            lemma_arrow_prefix(t);
            lemma_tokens_spell(s, i + a.len());
            lemma_joined_single((a, TokenKind::Arrow), tokens_from(s, i + a.len()));
            assert(t =~= a + s.skip(i + a.len()));
        } else if is_word_start(s[i]) {
            lemma_word_end(s, i + 1);
            let e = word_end(s, i + 1);
            let w = s.subrange(i, e);
            lemma_tokens_spell(s, e);
            lemma_joined_single((w, word_kind(w)), tokens_from(s, e));
            assert(t =~= w + s.skip(e));
        } else {
            assert(s[i] != '|');
            lemma_other_end(s, i + 1);
            let e = other_end(s, i + 1);
            lemma_tokens_spell(s, e);
            lemma_joined_single((s.subrange(i, e), TokenKind::Plain), tokens_from(s, e));
            assert(t =~= s.subrange(i, e) + s.skip(e));
        }
    } else {
        assert(s.skip(i) =~= Seq::<char>::empty());
    }
}

/// The pieces of a line from `rest` on spell it.
pub proof fn lemma_colorize_rest_spells(rest: Seq<char>)
    ensures
        joined_texts(colorize_rest(rest)) == rest,
    decreases rest.len(),
{
    if rest.len() > 0 {
        lemma_char_index(rest, '|');
        let p = char_index(rest, '|');
        if p < 0 {
            lemma_tokens_spell(rest, 0);
            assert(rest.skip(0) =~= rest);
        } else {
            let front = rest.take(p);
            assert(has_no_bar(front));
            lemma_tokens_spell(front, 0);
            assert(front.skip(0) =~= front);
            let pre = tokens_from(front, 0);
            let after = rest.skip(p + 1);
            lemma_char_index(after, '|');
            let e = char_index(after, '|');
            if e >= 0 {
                let label = (seq!['|'] + after.take(e) + seq!['|'], TokenKind::Label);
                let tail = colorize_rest(after.skip(e + 1));
                lemma_colorize_rest_spells(after.skip(e + 1));
                lemma_joined_texts_append(pre, seq![label] + tail);
                lemma_joined_single(label, tail);
                assert(pre + seq![label] + tail =~= pre + (seq![label] + tail));
                assert(rest =~= front + (label.0 + after.skip(e + 1)));
            } else {
                let bar = (seq!['|'], TokenKind::Plain);
                let tail = colorize_rest(after);
                lemma_colorize_rest_spells(after);
                lemma_joined_texts_append(pre, seq![bar] + tail);
                lemma_joined_single(bar, tail);
                assert(pre + seq![bar] + tail =~= pre + (seq![bar] + tail));
                assert(rest =~= front + (seq!['|'] + after));
            }
        }
    }
}

/// The layout directions of Mermaid: top to bottom (`TB`, `TD`), bottom to
/// top, left to right and right to left.
pub open spec fn is_layout_direction(w: Seq<char>) -> bool {
    w == seq!['T', 'B'] || w == seq!['T', 'D'] || w == seq!['B', 'T'] || w == seq!['L', 'R'] || w == seq!['R', 'L']
}

/// The five layout directions are keywords, and no other word is a
/// direction.
pub proof fn law_direction_keywords(w: Seq<char>)
    ensures
        spec_is_direction_keyword(w) <==> is_layout_direction(w),
        spec_is_direction_keyword(w) ==> spec_is_keyword(w) && word_kind(w) == TokenKind::Keyword,
{
}

/// A piece whose text is a layout direction is coloured as a keyword.
pub open spec fn direction_marked(p: (Seq<char>, TokenKind)) -> bool {
    spec_is_direction_keyword(p.0) ==> p.1 == TokenKind::Keyword
}

pub open spec fn all_directions_marked(ps: Seq<(Seq<char>, TokenKind)>) -> bool {
    forall|j: int| 0 <= j < ps.len() ==> direction_marked(#[trigger] ps[j])
}

proof fn lemma_direction_starts_word(w: Seq<char>)
    requires
        spec_is_direction_keyword(w),
    ensures
        w.len() == 2,
        is_word_start(w[0]),
        w[0] != '|',
        w[0] != '-',
        w[0] != '=',
{
}

proof fn lemma_marked_cons(x: (Seq<char>, TokenKind), ps: Seq<(Seq<char>, TokenKind)>)
    requires
        direction_marked(x),
        all_directions_marked(ps),
    ensures
        all_directions_marked(seq![x] + ps),
{
    assert forall|j: int| 0 <= j < (seq![x] + ps).len() implies direction_marked(#[trigger] (seq![x] + ps)[j]) by {
        if j > 0 {
            assert((seq![x] + ps)[j] == ps[j - 1]);
        }
    }
}

proof fn lemma_marked_append(a: Seq<(Seq<char>, TokenKind)>, b: Seq<(Seq<char>, TokenKind)>)
    requires
        all_directions_marked(a),
        all_directions_marked(b),
    ensures
        all_directions_marked(a + b),
{
    assert forall|j: int| 0 <= j < (a + b).len() implies direction_marked(#[trigger] (a + b)[j]) by {
        if j >= a.len() {
            assert((a + b)[j] == b[j - a.len()]);
        }
    }
}

proof fn lemma_tokens_mark_directions(s: Seq<char>, i: int)
    ensures
        all_directions_marked(tokens_from(s, i)),
    decreases s.len() - i,
{
    if 0 <= i < s.len() {
        if arrow_at(s.skip(i)) is Some {
            let a = arrow_at(s.skip(i))->0;
            if a.len() > 0 {
                lemma_tokens_mark_directions(s, i + a.len());
                assert(a[0] == '-' || a[0] == '=');
                if spec_is_direction_keyword(a) {
                    lemma_direction_starts_word(a);
                }
                lemma_marked_cons((a, TokenKind::Arrow), tokens_from(s, i + a.len()));
            }
        } else if is_word_start(s[i]) {
            lemma_word_end(s, i + 1);
            let e = word_end(s, i + 1);
            lemma_tokens_mark_directions(s, e);
            let w = s.subrange(i, e);
            lemma_marked_cons((w, word_kind(w)), tokens_from(s, e));
        } else if s[i] == '|' {
        } else {
            lemma_other_end(s, i + 1);
            let e = other_end(s, i + 1);
            lemma_tokens_mark_directions(s, e);
            let t = s.subrange(i, e);
            if spec_is_direction_keyword(t) {
                lemma_direction_starts_word(t);
                assert(t[0] == s[i]);
            }
            lemma_marked_cons((t, TokenKind::Plain), tokens_from(s, e));
        }
    }
}

proof fn lemma_rest_marks_directions(rest: Seq<char>)
    ensures
        all_directions_marked(colorize_rest(rest)),
    decreases rest.len(),
{
    if rest.len() > 0 {
        let p = char_index(rest, '|');
        lemma_char_index(rest, '|');
        if p < 0 {
            lemma_tokens_mark_directions(rest, 0);
        } else {
            let pre = tokens_from(rest.take(p), 0);
            lemma_tokens_mark_directions(rest.take(p), 0);
            let after = rest.skip(p + 1);
            let e = char_index(after, '|');
            lemma_char_index(after, '|');
            if e >= 0 {
                let label = seq!['|'] + after.take(e) + seq!['|'];
                assert(label[0] == '|');
                if spec_is_direction_keyword(label) {
                    lemma_direction_starts_word(label);
                }
                lemma_rest_marks_directions(after.skip(e + 1));
                lemma_marked_cons((label, TokenKind::Label), colorize_rest(after.skip(e + 1)));
                lemma_marked_append(pre, seq![(label, TokenKind::Label)] + colorize_rest(after.skip(e + 1)));
                assert(pre + seq![(label, TokenKind::Label)] + colorize_rest(after.skip(e + 1)) =~= pre + (seq![
                    (label, TokenKind::Label),
                ] + colorize_rest(after.skip(e + 1))));
            } else {
                lemma_rest_marks_directions(after);
                assert(!spec_is_direction_keyword(seq!['|']));
                lemma_marked_cons((seq!['|'], TokenKind::Plain), colorize_rest(after));
                lemma_marked_append(pre, seq![(seq!['|'], TokenKind::Plain)] + colorize_rest(after));
                assert(pre + seq![(seq!['|'], TokenKind::Plain)] + colorize_rest(after) =~= pre + (seq![
                    (seq!['|'], TokenKind::Plain),
                ] + colorize_rest(after)));
            }
        }
    }
}

/// Every piece of a coloured Mermaid line whose text is a layout direction
/// (`TB`, `TD`, `BT`, `LR` or `RL`) is coloured as a keyword.
pub proof fn law_directions_colored_as_keywords(line: Seq<char>)
    ensures
        forall|j: int|
            0 <= j < spec_colorize_line(line).len() && is_layout_direction(#[trigger] spec_colorize_line(line)[j].0)
                ==> spec_colorize_line(line)[j].1 == TokenKind::Keyword,
{
    lemma_rest_marks_directions(line);
    let r = colorize_rest(line);
    law_direction_keywords(line);
    if r.len() == 0 && spec_is_direction_keyword(line) {
        lemma_direction_starts_word(line);
        lemma_char_index(line, '|');
        assert(line[1] != '|');
        assert(char_index(line, '|') < 0);
        assert(arrow_at(line.skip(0)) is None) by {
            assert(line.skip(0) =~= line);
        }
        assert(tokens_from(line, 0).len() > 0);
        assert(false);
    }
    assert forall|j: int|
        0 <= j < spec_colorize_line(line).len() && is_layout_direction(#[trigger] spec_colorize_line(line)[j].0)
            implies spec_colorize_line(line)[j].1 == TokenKind::Keyword by {
        law_direction_keywords(spec_colorize_line(line)[j].0);
        if r.len() > 0 {
            assert(direction_marked(r[j]));
        }
    }
}

} // verus!
