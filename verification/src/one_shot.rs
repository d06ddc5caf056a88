use vstd::prelude::*;
use crate::text::{push_all, string_of, chars_of};

verus! {

/// Whether one-shot output carries ANSI colour codes.
#[derive(Clone, Copy, Debug, PartialEq, Eq, Structural)]
pub enum ColorMode {
    Ansi,
    Plain,
}

/// A terminal colour.
#[derive(Clone, Copy, Debug, PartialEq, Eq, Structural)]
pub enum Color {
    Reset,
    Black,
    Red,
    Green,
    Yellow,
    Blue,
    Magenta,
    Cyan,
    Gray,
    DarkGray,
    LightRed,
    LightGreen,
    LightYellow,
    LightBlue,
    LightMagenta,
    LightCyan,
    White,
    Indexed(u8),
    Rgb(u8, u8, u8),
}

/// The style of a piece of text: colours and the modifiers that one-shot
/// output renders.
#[derive(Clone, Copy, Debug, PartialEq, Eq, Structural)]
pub struct TextStyle {
    pub fg: Option<Color>,
    pub bg: Option<Color>,
    pub bold: bool,
    pub dim: bool,
    pub italic: bool,
    pub underlined: bool,
    pub crossed_out: bool,
}

/// A styled piece of a rendered line.
pub struct StyledSpan {
    pub content: String,
    pub style: TextStyle,
}

pub open spec fn digit_char(d: nat) -> char {
    ((48 + d) as u32) as char
}

/// Decimal digits of `n`.
pub open spec fn decimal(n: nat) -> Seq<char>
    decreases n,
{
    if n < 10 {
        seq![digit_char(n)]
    } else {
        decimal(n / 10).push(digit_char(n % 10))
    }
}

fn digit(d: u64) -> (c: char)
    requires
        d < 10,
    ensures
        c == digit_char(d as nat),
{
    match d {
        0 => '0',
        1 => '1',
        2 => '2',
        3 => '3',
        4 => '4',
        5 => '5',
        6 => '6',
        7 => '7',
        8 => '8',
        _ => '9',
    }
}

/// Writes `n` in decimal.
pub fn decimal_chars(n: u64) -> (r: Vec<char>)
    ensures
        r@ == decimal(n as nat),
    decreases n,
{
    if n < 10 {
        let mut v = Vec::new();
        v.push(digit(n));
        v
    } else {
        let mut v = decimal_chars(n / 10);
        v.push(digit(n % 10));
        v
    }
}

/// The SGR code of a basic colour as a background: ten more than as a
/// foreground.
pub open spec fn spec_base_code(background: bool, code: u8) -> u8 {
    if background {
        (code + 10) as u8
    } else {
        code
    }
}

pub fn base_code(background: bool, code: u8) -> (r: u8)
    requires
        background ==> code <= 245,
    ensures
        r == spec_base_code(background, code),
{
    if background {
        code + 10
    } else {
        code
    }
}

pub open spec fn basic_code(c: Color) -> Option<u8> {
    match c {
        Color::Black => Some(30u8),
        Color::Red => Some(31u8),
        Color::Green => Some(32u8),
        Color::Yellow => Some(33u8),
        Color::Blue => Some(34u8),
        Color::Magenta => Some(35u8),
        Color::Cyan => Some(36u8),
        Color::Gray => Some(37u8),
        Color::DarkGray => Some(90u8),
        Color::LightRed => Some(91u8),
        Color::LightGreen => Some(92u8),
        Color::LightYellow => Some(93u8),
        Color::LightBlue => Some(94u8),
        Color::LightMagenta => Some(95u8),
        Color::LightCyan => Some(96u8),
        Color::White => Some(97u8),
        _ => None,
    }
}

/// The SGR parameters that select `color`: none for `Reset`; the basic code
/// (plus ten as a background); `38;5;N`/`48;5;N` for an indexed colour;
/// `38;2;R;G;B`/`48;2;R;G;B` for RGB.
pub open spec fn color_code(color: Color, background: bool) -> Option<Seq<char>> {
    let prefix = if background {
        seq!['4', '8']
    } else {
        seq!['3', '8']
    };
    match color {
        Color::Reset => None,
        Color::Indexed(i) => Some(prefix + seq![';', '5', ';'] + decimal(i as nat)),
        Color::Rgb(r, g, b) => Some(
            prefix + seq![';', '2', ';'] + decimal(r as nat) + seq![';'] + decimal(g as nat) + seq![';'] + decimal(b as nat),
        ),
        _ => Some(decimal(spec_base_code(background, basic_code(color)->0) as nat)),
    }
}

/// Where a basic colour stands in the terminal palette: whether it is one
/// of the bright eight, and its place among its eight (black, red, green,
/// yellow, blue, magenta, cyan, white).
pub open spec fn palette_slot(c: Color) -> Option<(bool, nat)> {
    match c {
        Color::Black => Some((false, 0nat)),
        Color::Red => Some((false, 1nat)),
        Color::Green => Some((false, 2nat)),
        Color::Yellow => Some((false, 3nat)),
        Color::Blue => Some((false, 4nat)),
        Color::Magenta => Some((false, 5nat)),
        Color::Cyan => Some((false, 6nat)),
        Color::Gray => Some((false, 7nat)),
        Color::DarkGray => Some((true, 0nat)),
        Color::LightRed => Some((true, 1nat)),
        Color::LightGreen => Some((true, 2nat)),
        Color::LightYellow => Some((true, 3nat)),
        Color::LightBlue => Some((true, 4nat)),
        Color::LightMagenta => Some((true, 5nat)),
        Color::LightCyan => Some((true, 6nat)),
        Color::White => Some((true, 7nat)),
        _ => None,
    }
}

/// Each basic colour gets its standard SGR code: 30 to 37 for the eight
/// normal colours in palette order, 90 to 97 for the bright ones, ten more
/// for a background; `Reset` gets none.
pub proof fn law_basic_colour_codes(c: Color, background: bool)
    ensures
        palette_slot(c) matches Some((bright, k)) ==> color_code(c, background) == Some(
            decimal((if bright { 90nat } else { 30nat }) + k + (if background { 10nat } else { 0nat })),
        ),
        c == Color::Reset ==> color_code(c, background) is None,
{
}

/// Two basic colours with the same code are the same colour.
pub proof fn law_basic_codes_distinct(c1: Color, c2: Color)
    ensures
        basic_code(c1) is Some && basic_code(c1) == basic_code(c2) ==> c1 == c2,
{
}

pub open spec fn code_views(codes: Seq<Vec<char>>) -> Seq<Seq<char>> {
    codes.map_values(|c: Vec<char>| c@)
}

/// Adds the SGR parameters of `color` to `codes`.
pub fn push_color_code(codes: &mut Vec<Vec<char>>, color: Color, background: bool)
    ensures
        code_views(final(codes)@) == match color_code(color, background) {
            Some(c) => code_views(old(codes)@).push(c),
            None => code_views(old(codes)@),
        },
{
    let ghost before = code_views(codes@);
    let basic: Option<u8> = match color {
        Color::Black => Some(30),
        Color::Red => Some(31),
        Color::Green => Some(32),
        Color::Yellow => Some(33),
        Color::Blue => Some(34),
        Color::Magenta => Some(35),
        Color::Cyan => Some(36),
        Color::Gray => Some(37),
        Color::DarkGray => Some(90),
        Color::LightRed => Some(91),
        Color::LightGreen => Some(92),
        Color::LightYellow => Some(93),
        Color::LightBlue => Some(94),
        Color::LightMagenta => Some(95),
        Color::LightCyan => Some(96),
        Color::White => Some(97),
        _ => None,
    };
    assert(basic == basic_code(color));
    let mut code: Vec<char> = Vec::new();
    if background {
        code.push('4');
    } else {
        code.push('3');
    }
    code.push('8');
    assert(code@ == (if background { seq!['4', '8'] } else { seq!['3', '8'] }));
    match color {
        Color::Reset => {
            return;
        },
        Color::Indexed(index) => {
            code.push(';');
            code.push('5');
            code.push(';');
            let d = decimal_chars(index as u64);
            push_all(&mut code, &d);
            assert(code@ == color_code(color, background)->0);
        },
        Color::Rgb(red, green, blue) => {
            code.push(';');
            code.push('2');
            code.push(';');
            let r = decimal_chars(red as u64);
            push_all(&mut code, &r);
            code.push(';');
            let g = decimal_chars(green as u64);
            push_all(&mut code, &g);
            code.push(';');
            let b = decimal_chars(blue as u64);
            push_all(&mut code, &b);
            assert(code@ == color_code(color, background)->0);
        },
        _ => {
            let n = match basic {
                Some(n) => n,
                None => 0,
            };
            code = decimal_chars(base_code(background, n) as u64);
            assert(code@ == color_code(color, background)->0);
        },
    }
    codes.push(code);
    assert(code_views(codes@) == before.push(code@));
}

pub open spec fn color_codes_of(c: Option<Color>, background: bool) -> Seq<Seq<char>> {
    match c {
        Some(c) => match color_code(c, background) {
            Some(x) => seq![x],
            None => Seq::empty(),
        },
        None => Seq::empty(),
    }
}

pub open spec fn flag_code(on: bool, c: char) -> Seq<Seq<char>> {
    if on {
        seq![seq![c]]
    } else {
        Seq::empty()
    }
}

/// The SGR parameters of a style, in order: foreground, background, bold,
/// dim, italic, underlined, crossed out.
pub open spec fn style_codes(style: TextStyle) -> Seq<Seq<char>> {
    color_codes_of(style.fg, false) + color_codes_of(style.bg, true) + flag_code(style.bold, '1') + flag_code(style.dim, '2')
        + flag_code(style.italic, '3') + flag_code(style.underlined, '4') + flag_code(style.crossed_out, '9')
}

/// Parameters joined with `;`.
pub open spec fn join_codes(codes: Seq<Seq<char>>) -> Seq<char>
    decreases codes.len(),
{
    if codes.len() == 0 {
        Seq::empty()
    } else if codes.len() == 1 {
        codes[0]
    } else {
        join_codes(codes.drop_last()) + seq![';'] + codes.last()
    }
}

/// The escape sequence that sets a style: `ESC [ params m`, or nothing for
/// a style without parameters.
pub open spec fn style_sequence(style: TextStyle) -> Seq<char> {
    let codes = style_codes(style);
    if codes.len() == 0 {
        Seq::empty()
    } else {
        seq!['\x1b', '['] + join_codes(codes) + seq!['m']
    }
}

fn push_flag(codes: &mut Vec<Vec<char>>, on: bool, c: char)
    ensures
        code_views(final(codes)@) == code_views(old(codes)@) + flag_code(on, c),
{
    let ghost before = code_views(codes@);
    if on {
        let v = vec![c];
        assert(v@ == seq![c]);
        codes.push(v);
        assert(code_views(codes@) == before.push(seq![c]));
    } else {
        assert(before + Seq::<Seq<char>>::empty() == before);
    }
}

fn push_optional_color(codes: &mut Vec<Vec<char>>, c: Option<Color>, background: bool)
    ensures
        code_views(final(codes)@) == code_views(old(codes)@) + color_codes_of(c, background),
{
    let ghost before = code_views(codes@);
    match c {
        Some(col) => {
            push_color_code(codes, col, background);
            assert(code_views(codes@) == before + color_codes_of(c, background));
        },
        None => {
            assert(before + Seq::<Seq<char>>::empty() == before);
        },
    }
}

/// The SGR parameters of `style`.
pub fn style_code_list(style: TextStyle) -> (r: Vec<Vec<char>>)
    ensures
        code_views(r@) == style_codes(style),
{
    let mut codes: Vec<Vec<char>> = Vec::new();
    assert(code_views(codes@) == Seq::<Seq<char>>::empty());
    push_optional_color(&mut codes, style.fg, false);
    push_optional_color(&mut codes, style.bg, true);
    push_flag(&mut codes, style.bold, '1');
    push_flag(&mut codes, style.dim, '2');
    push_flag(&mut codes, style.italic, '3');
    push_flag(&mut codes, style.underlined, '4');
    push_flag(&mut codes, style.crossed_out, '9');
    assert(Seq::<Seq<char>>::empty() + color_codes_of(style.fg, false) == color_codes_of(style.fg, false));
    codes
}

/// Appends the escape sequence of `style` to `out`.
pub fn write_style(out: &mut Vec<char>, style: TextStyle)
    ensures
        final(out)@ == old(out)@ + style_sequence(style),
{
    let codes = style_code_list(style);
    let ghost cv = code_views(codes@);
    if codes.len() == 0 {
        assert(out@ + Seq::<char>::empty() == out@);
        return;
    }
    let ghost start = out@;
    out.push('\x1b');
    out.push('[');
    let mut i: usize = 0;
    let ghost base = out@;
    assert(cv.take(0) =~= Seq::<Seq<char>>::empty());
    while i < codes.len()
        invariant
            i <= codes.len(),
            cv == code_views(codes@),
            out@ == base + join_codes(cv.take(i as int)),
        decreases codes.len() - i,
    {
        assert(cv.take(i + 1).drop_last() == cv.take(i as int));
        assert(cv.take(i + 1).last() == codes@[i as int]@);
        if i > 0 {
            out.push(';');
        }
        push_all(out, &codes[i]);
        if i == 0 {
            assert(cv.take(1) == seq![cv[0]]);
        }
        i += 1;
    }
    assert(cv.take(codes.len() as int) == cv);
    out.push('m');
}

/// Number of lines left once trailing lines without text are dropped.
pub open spec fn content_end(lines: Seq<Seq<Seq<char>>>) -> int
    decreases lines.len(),
{
    if lines.len() == 0 {
        0
    } else if exists|j: int| 0 <= j < lines.last().len() && (#[trigger] lines.last()[j]).len() > 0 {
        lines.len() as int
    } else {
        content_end(lines.drop_last())
    }
}

pub open spec fn line_texts(lines: Seq<Vec<StyledSpan>>) -> Seq<Seq<Seq<char>>> {
    lines.map_values(|l: Vec<StyledSpan>| l@.map_values(|s: StyledSpan| s.content@))
}

fn line_has_text(line: &Vec<StyledSpan>) -> (r: bool)
    ensures
        r == exists|j: int| 0 <= j < line@.len() && (#[trigger] line@[j]).content@.len() > 0,
{
    let mut i: usize = 0;
    while i < line.len()
        invariant
            i <= line.len(),
            forall|j: int| 0 <= j < i ==> (#[trigger] line@[j]).content@.len() == 0,
        decreases line.len() - i,
    {
        if !line[i].content.as_str().is_empty() {
            return true;
        }
        i += 1;
    }
    false
}

/// How many lines are written: up to the last line that shows any text.
pub fn trim_trailing_empty_lines(lines: &Vec<Vec<StyledSpan>>) -> (r: usize)
    ensures
        r == content_end(line_texts(lines@)),
{
    let ghost lt = line_texts(lines@);
    let mut end = lines.len();
    assert(lt.take(end as int) == lt);
    while end > 0 && !line_has_text(&lines[end - 1])
        invariant
            end <= lines.len(),
            lt == line_texts(lines@),
            content_end(lt) == content_end(lt.take(end as int)),
        decreases end,
    {
        let ghost t = lt.take(end as int);
        assert(t.drop_last() == lt.take(end - 1));
        assert(t.last() == lines@[end - 1]@.map_values(|s: StyledSpan| s.content@));
        assert(!exists|j: int| 0 <= j < t.last().len() && (#[trigger] t.last()[j]).len() > 0) by {
            assert forall|j: int| 0 <= j < t.last().len() implies (#[trigger] t.last()[j]).len() == 0 by {
                assert(t.last()[j] == lines@[end - 1]@[j].content@);
            }
        }
        end -= 1;
    }
    proof {
        if end > 0 {
            let t = lt.take(end as int);
            let j = choose|j: int| 0 <= j < lines@[end - 1]@.len() && (#[trigger] lines@[end - 1]@[j]).content@.len() > 0;
            assert(t.last()[j] == lines@[end - 1]@[j].content@);
        }
    }
    end
}

pub open spec fn span_output(s: StyledSpan, mode: ColorMode) -> Seq<char> {
    match mode {
        ColorMode::Ansi => style_sequence(s.style) + s.content@ + seq!['\x1b', '[', '0', 'm'],
        ColorMode::Plain => s.content@,
    }
}

pub open spec fn spans_output(spans: Seq<StyledSpan>, mode: ColorMode) -> Seq<char>
    decreases spans.len(),
{
    if spans.len() == 0 {
        Seq::empty()
    } else {
        spans_output(spans.drop_last(), mode) + span_output(spans.last(), mode)
    }
}

pub open spec fn lines_output(lines: Seq<Vec<StyledSpan>>, mode: ColorMode) -> Seq<char>
    decreases lines.len(),
{
    if lines.len() == 0 {
        Seq::empty()
    } else {
        lines_output(lines.drop_last(), mode) + spans_output(lines.last()@, mode) + seq!['\n']
    }
}

/// The text that one-shot mode prints for rendered lines: each line up to the
/// last one with text, every span wrapped in its style and a reset in ANSI
/// mode, each line ended by a line break.
pub open spec fn spec_write_lines(lines: Seq<Vec<StyledSpan>>, mode: ColorMode) -> Seq<char> {
    lines_output(lines.take(content_end(line_texts(lines))), mode)
}

proof fn lemma_content_end_bounds(lines: Seq<Seq<Seq<char>>>)
    ensures
        0 <= content_end(lines) <= lines.len(),
    decreases lines.len(),
{
    if lines.len() > 0 {
        lemma_content_end_bounds(lines.drop_last());
    }
}

pub fn write_lines(lines: &Vec<Vec<StyledSpan>>, mode: ColorMode) -> (r: String)
    ensures
        r@ == spec_write_lines(lines@, mode),
{
    let end = trim_trailing_empty_lines(lines);
    proof {
        lemma_content_end_bounds(line_texts(lines@));
    }
    let ghost ls = lines@.take(end as int);
    let mut out: Vec<char> = Vec::new();
    let mut i: usize = 0;
    assert(ls.take(0) =~= Seq::<Vec<StyledSpan>>::empty());
    while i < end
        invariant
            i <= end <= lines.len(),
            ls == lines@.take(end as int),
            out@ == lines_output(ls.take(i as int), mode),
        decreases end - i,
    {
        assert(ls.take(i + 1).drop_last() == ls.take(i as int));
        assert(ls.take(i + 1).last() == lines@[i as int]);
        let line = &lines[i];
        let ghost before = out@;
        let mut k: usize = 0;
        assert(line@.take(0) =~= Seq::<StyledSpan>::empty());
        while k < line.len()
            invariant
                k <= line.len(),
                out@ == before + spans_output(line@.take(k as int), mode),
            decreases line.len() - k,
        {
            assert(line@.take(k + 1).drop_last() == line@.take(k as int));
            assert(line@.take(k + 1).last() == line@[k as int]);
            let span = &line[k];
            match mode {
                ColorMode::Ansi => {
                    write_style(&mut out, span.style);
                    let c = chars_of(span.content.as_str());
                    push_all(&mut out, &c);
                    out.push('\x1b');
                    out.push('[');
                    out.push('0');
                    out.push('m');
                },
                ColorMode::Plain => {
                    let c = chars_of(span.content.as_str());
                    push_all(&mut out, &c);
                },
            }
            k += 1;
        }
        assert(line@.take(line.len() as int) == line@);
        out.push('\n');
        i += 1;
    }
    assert(ls.take(end as int) == ls);
    string_of(&out)
}

/// The width one-shot output is laid out for: the terminal's width, at
/// least one column; 80 when the width is not known.
pub fn render_width_for(terminal_width: Option<u16>) -> (r: usize)
    ensures
        r == match terminal_width {
            Some(w) => if w >= 1 { w as int } else { 1 },
            None => 80,
        },
{
    match terminal_width {
        Some(w) => if w >= 1 { w as usize } else { 1 },
        None => 80,
    }
}

} // verus!
