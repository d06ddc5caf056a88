use leaf::one_shot::{base_code, write_lines, write_style, Color, ColorMode, StyledSpan, TextStyle};

fn plain_style() -> TextStyle {
    TextStyle { fg: None, bg: None, bold: false, dim: false, italic: false, underlined: false, crossed_out: false }
}

fn span(text: &str, style: TextStyle) -> StyledSpan {
    StyledSpan { content: text.to_string(), style }
}

fn codes(style: TextStyle) -> String {
    let mut out: Vec<char> = Vec::new();
    write_style(&mut out, style);
    out.into_iter().collect()
}

#[test]
fn plain_mode_writes_text_only() {
    let lines = vec![vec![span("a", plain_style()), span("b", plain_style())], vec![span("c", plain_style())]];
    assert_eq!(write_lines(&lines, ColorMode::Plain), "ab\nc\n");
}

#[test]
fn trailing_empty_lines_are_dropped() {
    let lines = vec![
        vec![span("x", plain_style())],
        vec![],
        vec![span("y", plain_style())],
        vec![span("", plain_style())],
        vec![],
    ];
    assert_eq!(write_lines(&lines, ColorMode::Plain), "x\n\ny\n");
    let empty = vec![vec![span("", plain_style())], vec![]];
    assert_eq!(write_lines(&empty, ColorMode::Plain), "");
    assert_eq!(write_lines(&empty, ColorMode::Ansi), "");
}

#[test]
fn ansi_mode_wraps_each_span() {
    let red_bold = TextStyle { fg: Some(Color::Red), bold: true, ..plain_style() };
    let lines = vec![vec![span("hi", red_bold)]];
    assert_eq!(write_lines(&lines, ColorMode::Ansi), "\x1b[31;1mhi\x1b[0m\n");
    let lines = vec![vec![span("x", plain_style())]];
    assert_eq!(write_lines(&lines, ColorMode::Ansi), "x\x1b[0m\n");
}

#[test]
fn colour_codes() {
    assert_eq!(codes(TextStyle { bg: Some(Color::Rgb(1, 2, 3)), ..plain_style() }), "\x1b[48;2;1;2;3m");
    assert_eq!(codes(TextStyle { fg: Some(Color::Indexed(200)), ..plain_style() }), "\x1b[38;5;200m");
    assert_eq!(codes(TextStyle { bg: Some(Color::Indexed(7)), ..plain_style() }), "\x1b[48;5;7m");
    assert_eq!(codes(TextStyle { fg: Some(Color::DarkGray), bg: Some(Color::White), ..plain_style() }), "\x1b[90;107m");
    assert_eq!(codes(TextStyle { fg: Some(Color::Reset), ..plain_style() }), "");
    assert_eq!(codes(plain_style()), "");
}

#[test]
fn modifier_codes_in_order() {
    let all = TextStyle { bold: true, dim: true, italic: true, underlined: true, crossed_out: true, ..plain_style() };
    assert_eq!(codes(all), "\x1b[1;2;3;4;9m");
    let some = TextStyle { fg: Some(Color::Green), italic: true, crossed_out: true, ..plain_style() };
    assert_eq!(codes(some), "\x1b[32;3;9m");
}

#[test]
fn background_codes_are_ten_higher() {
    assert_eq!(base_code(true, 31), 41);
    assert_eq!(base_code(false, 31), 31);
    assert_eq!(base_code(true, 90), 100);
}
