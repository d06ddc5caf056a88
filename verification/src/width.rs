use vstd::prelude::*;

verus! {

/// Display width in terminal columns of a string, as
/// `unicode_width::UnicodeWidthStr::width` computes it.
pub uninterp spec fn str_width(s: Seq<char>) -> usize;

/// Display width of one character, as `unicode_width::UnicodeWidthChar::width`
/// computes it; `None` for control characters.
pub uninterp spec fn char_width(c: char) -> Option<usize>;

/// Text made of printable ASCII characters, `' '` to `'~'`.
pub open spec fn printable_ascii(s: Seq<char>) -> bool {
    forall|i: int| 0 <= i < s.len() ==> ' ' <= #[trigger] s[i] <= '~'
}

/// Text whose characters are all ASCII.
pub open spec fn all_ascii(s: Seq<char>) -> bool {
    forall|i: int| 0 <= i < s.len() ==> (#[trigger] s[i] as u32) < 0x80
}

/// ASCII text in which no `'\r'` stands right before a `'\n'`.
pub open spec fn ascii_text(s: Seq<char>) -> bool {
    &&& forall|i: int| 0 <= i < s.len() ==> (#[trigger] s[i] as u32) < 0x80
    &&& forall|i: int| 0 <= i < s.len() - 1 && #[trigger] s[i] == '\r' ==> s[i + 1] != '\n'
}

/// Calls `UnicodeWidthStr::width`. The result is the string's column width:
/// an empty string has width 0, and ASCII text without a `"\r\n"` is as
/// wide as it is long (within a string the crate counts every character up
/// to U+00A0 as one column, except a `'\r'` right before a `'\n'`, which
/// counts none). Nothing else is stated of the width tables.
#[verifier::external_body]
pub(crate) fn display_width(s: &str) -> (r: usize)
    ensures
        r == str_width(s@),
        s@.len() == 0 ==> r == 0,
        printable_ascii(s@) ==> r == s@.len(),
        ascii_text(s@) ==> r == s@.len(),
{
    unicode_width::UnicodeWidthStr::width(s)
}

/// Calls `UnicodeWidthChar::width`. The result is the character's column
/// width, or `None` for a control character: printable ASCII characters are
/// one column wide, and the C0 and C1 control characters (below U+0020 and
/// U+007F to U+009F) have none. The other tables are not stated.
#[verifier::external_body]
pub(crate) fn char_display_width(c: char) -> (r: Option<usize>)
    ensures
        r == char_width(c),
        ' ' <= c <= '~' ==> r == Some(1usize),
        (c as u32) < 0x20 || (0x7F <= (c as u32) && (c as u32) < 0xA0) ==> r is None,
{
    unicode_width::UnicodeWidthChar::width(c)
}

} // verus!
