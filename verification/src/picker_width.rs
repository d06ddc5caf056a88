use vstd::prelude::*;
use crate::app::App;
use crate::history_picker::opt_view;
use crate::text::{ascii_lower_seq, chars_of, parse_unsigned, parse_unsigned_chars, to_ascii_lower_chars, trim_chars, trimmed};

verus! {

/// How wide the file picker popup should be: a share of the terminal width,
/// or a fixed number of cells.
#[derive(Clone, Copy, Debug, PartialEq, Eq, Structural)]
pub enum PickerWidthSpec {
    Percent(u8),
    Cells(u16),
}

/// The narrowest picker, in cells, that the popups are laid out for.
pub const PICKER_WIDTH_FLOOR_CELLS: u16 = 78;

pub const PICKER_WIDTH_FLOOR_WARNING: &'static str =
    "Configured file picker width below minimum, floor applied";

/// The width used when nothing is configured: 78 cells.
pub fn default_picker_width() -> (r: PickerWidthSpec)
    ensures
        r == PickerWidthSpec::Cells(78),
{
    PickerWidthSpec::Cells(78)
}

pub open spec fn ends_with(s: Seq<char>, suffix: Seq<char>) -> bool {
    s.len() >= suffix.len() && s.subrange(s.len() - suffix.len(), s.len() as int) == suffix
}

pub open spec fn without_suffix(s: Seq<char>, n: nat) -> Seq<char> {
    s.take(s.len() - n)
}

/// The value that a configuration string such as `"50%"`, `" 78Cells "` or
/// `"1cell"` denotes. Surrounding white space is ignored and letters are
/// compared without regard to ASCII case. A percentage lies in 1..=100; a
/// cell count is at least 1 and fits in a `u16`.
pub open spec fn spec_picker_width(s: Seq<char>) -> Option<PickerWidthSpec> {
    let t = ascii_lower_seq(trimmed(s));
    if ends_with(t, seq!['%']) {
        match parse_unsigned(without_suffix(t, 1), 255) {
            Some(n) => if 1 <= n <= 100 {
                Some(PickerWidthSpec::Percent(n as u8))
            } else {
                None
            },
            None => None,
        }
    } else if ends_with(t, seq!['c', 'e', 'l', 'l', 's']) {
        match parse_unsigned(without_suffix(t, 5), 65535) {
            Some(n) => if n >= 1 {
                Some(PickerWidthSpec::Cells(n as u16))
            } else {
                None
            },
            None => None,
        }
    } else if ends_with(t, seq!['c', 'e', 'l', 'l']) {
        match parse_unsigned(without_suffix(t, 4), 65535) {
            Some(n) => if n >= 1 {
                Some(PickerWidthSpec::Cells(n as u16))
            } else {
                None
            },
            None => None,
        }
    } else {
        None
    }
}

fn ends_with_chars(s: &Vec<char>, suffix: &Vec<char>) -> (r: bool)
    ensures
        r == ends_with(s@, suffix@),
{
    if s.len() < suffix.len() {
        return false;
    }
    let off = s.len() - suffix.len();
    let mut i: usize = 0;
    while i < suffix.len()
        invariant
            off + suffix.len() == s.len(),
            i <= suffix.len(),
            forall|k: int| 0 <= k < i ==> s@[off + k] == suffix@[k],
        decreases suffix.len() - i,
    {
        if s[off + i] != suffix[i] {
            assert(s@.subrange(off as int, s.len() as int)[i as int] != suffix@[i as int]);
            return false;
        }
        i += 1;
    }
    assert(s@.subrange(off as int, s.len() as int) == suffix@);
    true
}

fn take_chars(s: &Vec<char>, n: usize) -> (r: Vec<char>)
    requires
        n <= s.len(),
    ensures
        r@ == s@.take(n as int),
{
    let mut r: Vec<char> = Vec::new();
    let mut i: usize = 0;
    while i < n
        invariant
            i <= n <= s.len(),
            r@ == s@.take(i as int),
        decreases n - i,
    {
        r.push(s[i]);
        assert(s@.take(i + 1) == s@.take(i as int).push(s@[i as int]));
        i += 1;
    }
    r
}

/// Reads a picker width from configuration text, or `None` when the text
/// names no valid width.
pub fn parse_picker_width_spec(s: &str) -> (r: Option<PickerWidthSpec>)
    ensures
        r == spec_picker_width(s@),
{
    let raw = chars_of(s);
    let trimmed_chars = trim_chars(&raw);
    let t = to_ascii_lower_chars(&trimmed_chars);
    let percent = vec!['%'];
    let cells = vec!['c', 'e', 'l', 'l', 's'];
    let cell = vec!['c', 'e', 'l', 'l'];
    assert(percent@ == seq!['%']);
    assert(cells@ == seq!['c', 'e', 'l', 'l', 's']);
    assert(cell@ == seq!['c', 'e', 'l', 'l']);
    if ends_with_chars(&t, &percent) {
        let num = take_chars(&t, t.len() - 1);
        return match parse_unsigned_chars(&num, 255) {
            Some(n) => if 1 <= n && n <= 100 {
                Some(PickerWidthSpec::Percent(n as u8))
            } else {
                None
            },
            None => None,
        };
    }
    if ends_with_chars(&t, &cells) {
        let num = take_chars(&t, t.len() - 5);
        return match parse_unsigned_chars(&num, 65535) {
            Some(n) => if n >= 1 {
                Some(PickerWidthSpec::Cells(n as u16))
            } else {
                None
            },
            None => None,
        };
    }
    if ends_with_chars(&t, &cell) {
        let num = take_chars(&t, t.len() - 4);
        return match parse_unsigned_chars(&num, 65535) {
            Some(n) => if n >= 1 {
                Some(PickerWidthSpec::Cells(n as u16))
            } else {
                None
            },
            None => None,
        };
    }
    None
}

/// The picker width, in cells, before the floor is applied: a percentage of
/// the area width rounded up, or the fixed cell count.
pub open spec fn spec_picker_width_raw(spec: PickerWidthSpec, area_width: u16) -> u16 {
    match spec {
        PickerWidthSpec::Percent(p) => ((area_width * p + 99) / 100) as u16,
        PickerWidthSpec::Cells(n) => n,
    }
}

pub fn picker_width_raw(spec: PickerWidthSpec, area_width: u16) -> (r: u16)
    ensures
        r == spec_picker_width_raw(spec, area_width),
{
    match spec {
        PickerWidthSpec::Percent(p) => {
            assert(area_width * p <= 65535 * 255) by (nonlinear_arith)
                requires
                    area_width <= 65535,
                    p <= 255,
            ;
            let product: u32 = (area_width as u32) * (p as u32);
            let rounded: u32 = (product + 99) / 100;
            #[verifier::truncate]
            (rounded as u16)
        },
        PickerWidthSpec::Cells(n) => n,
    }
}

/// The picker width actually used in an area `area_width` cells wide: the
/// configured width raised to the floor, and kept two cells inside the area.
pub open spec fn spec_effective_picker_width(spec: PickerWidthSpec, area_width: u16) -> u16 {
    let raw = spec_picker_width_raw(spec, area_width);
    let cap: int = if area_width >= 2 { area_width - 2 } else { 0 };
    let floored: int = if raw < PICKER_WIDTH_FLOOR_CELLS { PICKER_WIDTH_FLOOR_CELLS as int } else { raw as int };
    (if floored < cap { floored } else { cap }) as u16
}

/// Whether the floor widens the picker beyond the configured width, as far
/// as the area lets it show.
pub open spec fn floor_widens(spec: PickerWidthSpec, area_width: u16) -> bool {
    let raw = spec_picker_width_raw(spec, area_width);
    let cap: int = if area_width >= 2 { area_width - 2 } else { 0 };
    let requested: int = if raw < cap { raw as int } else { cap };
    spec_effective_picker_width(spec, area_width) > requested
}

/// The configuration notice after the picker width is worked out for an
/// area `area_width` cells wide: the floor warning when the floor starts to
/// widen the picker (it did not before), else the notice as it was.
pub open spec fn flash_after_refresh(
    spec: PickerWidthSpec,
    area_width: u16,
    was_active: bool,
    flash: Option<Seq<char>>,
) -> Option<Seq<char>> {
    if floor_widens(spec, area_width) && !was_active {
        Some(PICKER_WIDTH_FLOOR_WARNING@)
    } else {
        flash
    }
}

impl App {
    /// Sets the configured width of the file picker.
    pub fn set_file_picker_width(&mut self, spec: PickerWidthSpec)
        ensures
            (App { file_picker_width: spec, ..*old(self) }) == *final(self),
    {
        self.file_picker_width = spec;
    }

    /// The notice about the configuration, if one is shown.
    pub fn config_flash(&self) -> (r: Option<&str>)
        ensures
            r matches Some(f) ==> self.config_flash matches Some(s) && f@ == s@,
            r is None ==> self.config_flash is None,
    {
        match &self.config_flash {
            Some(s) => Some(s.as_str()),
            None => None,
        }
    }

    /// Drops the notice about the configuration.
    pub fn clear_config_flash(&mut self)
        ensures
            (App { config_flash: None, ..*old(self) }) == *final(self),
    {
        self.config_flash = None;
    }

    /// Closes the file picker and drops the width-floor notice.
    pub fn close_file_picker(&mut self)
        ensures
            (App { file_picker_open: false, picker_width_floor_active: false, ..*old(self) }) == *final(self),
    {
        self.file_picker_open = false;
        self.picker_width_floor_active = false;
    }

    /// The picker width for an area `area_width` cells wide. Records whether
    /// the floor widens the picker, and shows the floor warning when it
    /// starts to; when it stops, the record is dropped without a word.
    pub fn refresh_picker_width_floor(&mut self, area_width: u16) -> (r: u16)
        ensures
            r == spec_effective_picker_width(old(self).file_picker_width, area_width),
            final(self).picker_width_floor_active == floor_widens(old(self).file_picker_width, area_width),
            opt_view(final(self).config_flash) == flash_after_refresh(
                old(self).file_picker_width,
                area_width,
                old(self).picker_width_floor_active,
                opt_view(old(self).config_flash),
            ),
            (App {
                picker_width_floor_active: final(self).picker_width_floor_active,
                config_flash: final(self).config_flash,
                ..*old(self)
            }) == *final(self),
    {
        let raw = picker_width_raw(self.file_picker_width, area_width);
        let cap = area_width.saturating_sub(2);
        let requested = if raw < cap { raw } else { cap };
        let floored = if raw < PICKER_WIDTH_FLOOR_CELLS { PICKER_WIDTH_FLOOR_CELLS } else { raw };
        let width = if floored < cap { floored } else { cap };
        let active = width > requested;
        if active && !self.picker_width_floor_active {
            self.config_flash = Some(PICKER_WIDTH_FLOOR_WARNING.to_owned());
        }
        self.picker_width_floor_active = active;
        width
    }
}

/// The picker width to use: the one the environment gives when it parses,
/// else the configured one, else the default.
pub open spec fn spec_resolve_picker_width(env_value: Option<Seq<char>>, config: Option<PickerWidthSpec>) -> PickerWidthSpec {
    match env_value {
        Some(v) if spec_picker_width(v) is Some => spec_picker_width(v)->0,
        _ => match config {
            Some(c) => c,
            None => PickerWidthSpec::Cells(78),
        },
    }
}

/// Chooses the picker width from the environment's value, if set, and the
/// configured width, if any.
pub fn resolve_file_picker_width(env_value: Option<&str>, config: Option<PickerWidthSpec>) -> (r: PickerWidthSpec)
    ensures
        r == spec_resolve_picker_width(
            match env_value {
                Some(v) => Some(v@),
                None => None,
            },
            config,
        ),
{
    if let Some(v) = env_value {
        if let Some(spec) = parse_picker_width_spec(v) {
            return spec;
        }
    }
    match config {
        Some(c) => c,
        None => default_picker_width(),
    }
}

} // verus!
