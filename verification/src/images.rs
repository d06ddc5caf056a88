use vstd::prelude::*;
use crate::paths::{path_is_absolute, path_join, spec_is_absolute, spec_join};
use crate::text::{chars_of, starts_with, starts_with_chars, string_of};

verus! {

/// Image destinations that are not read from disk: web addresses and inline
/// data.
pub open spec fn spec_is_remote_url(dest: Seq<char>) -> bool {
    ||| starts_with(dest, seq!['h', 't', 't', 'p', ':', '/', '/'])
    ||| starts_with(dest, seq!['h', 't', 't', 'p', 's', ':', '/', '/'])
    ||| starts_with(dest, seq!['d', 'a', 't', 'a', ':'])
}

pub fn is_remote_url(dest: &str) -> (r: bool)
    ensures
        r == spec_is_remote_url(dest@),
{
    let d = chars_of(dest);
    let http = vec!['h', 't', 't', 'p', ':', '/', '/'];
    let https = vec!['h', 't', 't', 'p', 's', ':', '/', '/'];
    let data = vec!['d', 'a', 't', 'a', ':'];
    assert(http@ == seq!['h', 't', 't', 'p', ':', '/', '/']);
    assert(https@ == seq!['h', 't', 't', 'p', 's', ':', '/', '/']);
    assert(data@ == seq!['d', 'a', 't', 'a', ':']);
    starts_with_chars(&d, &http) || starts_with_chars(&d, &https) || starts_with_chars(&d, &data)
}

/// Where a local image is read from: an absolute destination as it stands,
/// a relative one under the document's directory when there is one.
pub open spec fn spec_resolve_image_path(dest: Seq<char>, base: Option<Seq<char>>, windows: bool) -> Seq<char> {
    if spec_is_absolute(dest, windows) {
        dest
    } else {
        match base {
            Some(b) => spec_join(b, dest, windows),
            None => dest,
        }
    }
}

pub fn resolve_image_path(dest: &str, base_path: Option<&str>, windows: bool) -> (r: String)
    ensures
        r@ == spec_resolve_image_path(dest@, match base_path {
            Some(b) => Some(b@),
            None => None,
        }, windows),
{
    if path_is_absolute(dest, windows) {
        return string_of(&chars_of(dest));
    }
    match base_path {
        Some(base) => path_join(base, dest, windows),
        None => string_of(&chars_of(dest)),
    }
}

} // verus!
