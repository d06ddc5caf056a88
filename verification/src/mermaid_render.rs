use vstd::prelude::*;
use crate::class_cards::{render_vertical_class_diagram, spec_render_vertical_class_diagram};
use crate::lines::{spec_lines, split_lines};
use crate::mermaid::{spec_use_horizontal_class_direction, spec_use_vertical_direction, use_horizontal_class_direction, use_vertical_direction};
use crate::text::{chars_of, starts_with, starts_with_chars, string_of, trim_chars, trimmed};
use crate::fit::{lemma_all_ascii_trimmed, rows_fit};
use crate::width::{all_ascii, str_width};
use crate::wrap::width_of_chars;

verus! {

/// Calls `mmdflux::render_diagram` with `OutputFormat::Text` and
/// `RenderConfig::default()`, giving the drawing, or `None` when the crate
/// reports an error. Nothing is stated of the drawing: the crate's edge
/// routing also reads environment variables, so the drawing is not a
/// function of the source alone. Nor is it stated that the call returns:
/// the crate's parser and layout hold `unwrap`, `expect` and `panic!` sites
/// whose reach on every input was not established, and a panic there
/// unwinds through this call (nothing here catches it).
#[verifier::external_body]
fn render_diagram_text(input: &str) -> (r: Option<String>) {
    mmdflux::render_diagram(input, mmdflux::OutputFormat::Text, &mmdflux::RenderConfig::default()).ok()
}

/// Every line of `rendered` fits in `max_width` columns, and there is at
/// least one column.
pub open spec fn spec_fits_width(rendered: Seq<char>, max_width: usize) -> bool {
    max_width > 0 && forall|i: int| 0 <= i < spec_lines(rendered).len() ==> str_width(#[trigger] spec_lines(rendered)[i]) <= max_width
}

pub fn fits_width(rendered: &str, max_width: usize) -> (r: bool)
    ensures
        r == spec_fits_width(rendered@, max_width),
{
    if max_width == 0 {
        return false;
    }
    let c = chars_of(rendered);
    let ls = split_lines(&c);
    let ghost lv = ls@.map_values(|l: Vec<char>| l@);
    let mut i: usize = 0;
    while i < ls.len()
        invariant
            i <= ls.len(),
            lv == ls@.map_values(|l: Vec<char>| l@),
            lv == spec_lines(rendered@),
            forall|j: int| 0 <= j < i ==> str_width(#[trigger] lv[j]) <= max_width,
        decreases ls.len() - i,
    {
        if width_of_chars(&ls[i]) > max_width {
            assert(str_width(lv[i as int]) > max_width);
            return false;
        }
        i += 1;
    }
    true
}

/// What drawing a Mermaid block gives: a text drawing, a pie chart for the
/// caller to draw from the trimmed source, or nothing (the source is shown).
pub enum MermaidRender {
    Diagram(String),
    PieChart(String),
    Unrendered,
}

pub open spec fn render_view(r: MermaidRender) -> Option<Option<Seq<char>>> {
    match r {
        MermaidRender::Diagram(s) => Some(Some(s@)),
        MermaidRender::PieChart(s) => Some(None),
        MermaidRender::Unrendered => None,
    }
}

pub open spec fn pie_word() -> Seq<char> {
    seq!['p', 'i', 'e']
}

pub open spec fn class_diagram_prefix() -> Seq<char> {
    seq!['c', 'l', 'a', 's', 's', 'D', 'i', 'a', 'g', 'r', 'a', 'm']
}

/// A drawing that fits.
pub open spec fn fitting(r: Option<Seq<char>>, max_width: usize) -> Option<Seq<char>> {
    match r {
        Some(x) => if spec_fits_width(x, max_width) {
            Some(x)
        } else {
            None
        },
        None => None,
    }
}

/// How a Mermaid block is drawn in `max_width` columns, given what the
/// renderer drew for the trimmed source (`first`), for the class diagram
/// turned left-to-right (`horizontal`) and for the flowchart turned top-down
/// (`vertical`): the first drawing when it fits; for a class diagram that
/// does not fit, the left-to-right drawing when that fits, else stacked
/// cards (nothing when the renderer rejected the diagram); for a flowchart,
/// the top-down drawing when that fits. Pie charts go to the caller; an
/// empty block gets no drawing.
pub open spec fn spec_render_drawn(
    content: Seq<char>,
    max_width: usize,
    first: Option<Seq<char>>,
    horizontal: Option<Seq<char>>,
    vertical: Option<Seq<char>>,
) -> Option<Option<Seq<char>>> {
    let t = trimmed(content);
    if t.len() == 0 {
        None
    } else if starts_with(t, pie_word()) {
        Some(None)
    } else if fitting(first, max_width) is Some {
        Some(fitting(first, max_width))
    } else if starts_with(t, class_diagram_prefix()) {
        if first is None {
            None
        } else if spec_use_horizontal_class_direction(t) is Some && fitting(horizontal, max_width) is Some {
            Some(fitting(horizontal, max_width))
        } else {
            match spec_render_vertical_class_diagram(t, max_width) {
                Some(v) => Some(Some(v)),
                None => None,
            }
        }
    } else if spec_use_vertical_direction(t) is Some {
        match fitting(vertical, max_width) {
            Some(x) => Some(Some(x)),
            None => None,
        }
    } else {
        None
    }
}

pub open spec fn opt_string(o: Option<String>) -> Option<Seq<char>> {
    match o {
        Some(s) => Some(s@),
        None => None,
    }
}

fn fits_opt(d: &Option<String>, max_width: usize) -> (r: bool)
    ensures
        r == (fitting(opt_string(*d), max_width) is Some),
{
    match d {
        Some(x) => fits_width(x.as_str(), max_width),
        None => false,
    }
}

/// Chooses how a Mermaid block is drawn from the renderer's drawings, as
/// `spec_render_drawn` says. Every drawing it gives fits: the renderer's by
/// measured width, and for an ASCII block the stacked cards by holding no
/// more than `max_width` characters on a line.
pub fn render_drawn(
    content: &str,
    max_width: usize,
    first: Option<String>,
    horizontal: Option<String>,
    vertical: Option<String>,
) -> (r: MermaidRender)
    ensures
        render_view(r) == spec_render_drawn(content@, max_width, opt_string(first), opt_string(horizontal), opt_string(vertical)),
        r matches MermaidRender::PieChart(s) ==> s@ == trimmed(content@),
        all_ascii(content@) ==> (r matches MermaidRender::Diagram(s) ==> spec_fits_width(s@, max_width) || rows_fit(
            s@,
            max_width as int,
        )),
{
    let c = chars_of(content);
    let t = trim_chars(&c);
    if t.len() == 0 {
        return MermaidRender::Unrendered;
    }
    let pie = vec!['p', 'i', 'e'];
    assert(pie@ == pie_word());
    let ts = string_of(&t);
    if starts_with_chars(&t, &pie) {
        return MermaidRender::PieChart(ts);
    }
    if fits_opt(&first, max_width) {
        return match first {
            Some(x) => MermaidRender::Diagram(x),
            None => MermaidRender::Unrendered,
        };
    }
    let cd = vec!['c', 'l', 'a', 's', 's', 'D', 'i', 'a', 'g', 'r', 'a', 'm'];
    assert(cd@ == class_diagram_prefix());
    if starts_with_chars(&t, &cd) {
        if first.is_none() {
            return MermaidRender::Unrendered;
        }
        if use_horizontal_class_direction(ts.as_str()).is_some() && fits_opt(&horizontal, max_width) {
            return match horizontal {
                Some(y) => MermaidRender::Diagram(y),
                None => MermaidRender::Unrendered,
            };
        }
        proof {
            if all_ascii(content@) {
                lemma_all_ascii_trimmed(content@);
            }
        }
        return match render_vertical_class_diagram(ts.as_str(), max_width) {
            Some(v) => MermaidRender::Diagram(v),
            None => MermaidRender::Unrendered,
        };
    }
    if use_vertical_direction(ts.as_str()).is_some() && fits_opt(&vertical, max_width) {
        return match vertical {
            Some(z) => MermaidRender::Diagram(z),
            None => MermaidRender::Unrendered,
        };
    }
    MermaidRender::Unrendered
}

/// The texts a Mermaid block asks the renderer to draw.
pub struct DrawingSources {
    /// The trimmed block; `None` for an empty block or a pie chart.
    pub first: Option<String>,
    /// A class diagram turned left-to-right, for when the first drawing is
    /// too wide.
    pub horizontal: Option<String>,
    /// A flowchart turned top-down, for when the first drawing is too wide.
    pub vertical: Option<String>,
}

pub open spec fn sources_view(d: DrawingSources) -> (Option<Seq<char>>, Option<Seq<char>>, Option<Seq<char>>) {
    (opt_string(d.first), opt_string(d.horizontal), opt_string(d.vertical))
}

/// What a block asks the renderer to draw: the trimmed source, unless it is
/// empty or a pie chart; for a class diagram, the source turned
/// left-to-right; for any other diagram, the source turned top-down.
pub open spec fn spec_drawing_sources(content: Seq<char>) -> (Option<Seq<char>>, Option<Seq<char>>, Option<Seq<char>>) {
    let t = trimmed(content);
    if t.len() == 0 || starts_with(t, pie_word()) {
        (None, None, None)
    } else if starts_with(t, class_diagram_prefix()) {
        (Some(t), spec_use_horizontal_class_direction(t), None)
    } else {
        (Some(t), None, spec_use_vertical_direction(t))
    }
}

/// The texts that `render` hands to the renderer for `content`.
pub fn drawing_sources(content: &str) -> (r: DrawingSources)
    ensures
        sources_view(r) == spec_drawing_sources(content@),
{
    let c = chars_of(content);
    let t = trim_chars(&c);
    let pie = vec!['p', 'i', 'e'];
    assert(pie@ == pie_word());
    if t.len() == 0 || starts_with_chars(&t, &pie) {
        return DrawingSources { first: None, horizontal: None, vertical: None };
    }
    let ts = string_of(&t);
    let cd = vec!['c', 'l', 'a', 's', 's', 'D', 'i', 'a', 'g', 'r', 'a', 'm'];
    assert(cd@ == class_diagram_prefix());
    if starts_with_chars(&t, &cd) {
        let h = use_horizontal_class_direction(ts.as_str());
        DrawingSources { first: Some(ts), horizontal: h, vertical: None }
    } else {
        let v = use_vertical_direction(ts.as_str());
        DrawingSources { first: Some(ts), horizontal: None, vertical: v }
    }
}

/// Draws a Mermaid block to fit in `max_width` columns: asks the renderer
/// to draw the texts of `drawing_sources` that the choice needs (the turned
/// drawings only when the first one does not fit, the left-to-right class
/// diagram only when the first one was drawn), then chooses as
/// `spec_render_drawn` says for whatever the renderer drew.
pub fn render(content: &str, max_width: usize) -> (r: MermaidRender)
    ensures
        exists|first: Option<Seq<char>>, horizontal: Option<Seq<char>>, vertical: Option<Seq<char>>|
            render_view(r) == #[trigger] spec_render_drawn(content@, max_width, first, horizontal, vertical),
        spec_drawing_sources(content@).0 is None ==> render_view(r) == spec_render_drawn(content@, max_width, None, None, None),
        r matches MermaidRender::PieChart(s) ==> s@ == trimmed(content@),
        all_ascii(content@) ==> (r matches MermaidRender::Diagram(s) ==> spec_fits_width(s@, max_width) || rows_fit(
            s@,
            max_width as int,
        )),
{
    let sources = drawing_sources(content);
    let ghost src = sources_view(sources);
    let mut first: Option<String> = None;
    let mut horizontal: Option<String> = None;
    let mut vertical: Option<String> = None;
    match &sources.first {
        Some(ts) => {
            first = render_diagram_text(ts.as_str());
            if !fits_opt(&first, max_width) {
                if first.is_some() {
                    if let Some(h) = &sources.horizontal {
                        horizontal = render_diagram_text(h.as_str());
                    }
                }
                if let Some(v) = &sources.vertical {
                    vertical = render_diagram_text(v.as_str());
                }
            }
        },
        None => {},
    }
    let ghost (f, h, v) = (opt_string(first), opt_string(horizontal), opt_string(vertical));
    let r = render_drawn(content, max_width, first, horizontal, vertical);
    assert(render_view(r) == spec_render_drawn(content@, max_width, f, h, v));
    r
}

} // verus!
