//! Serving the embedded front end: which asset a request names and how
//! long browsers may keep it.
use vstd::prelude::*;
use crate::text::{chars_of, has_prefix, slice_chars, string_of, trim_start_char};

verus! {

/// The asset a request path names: the path without its leading `/`s.
pub fn asset_path(uri_path: &str) -> (s: String)
    ensures
        s@ == trim_start_char(uri_path@, '/'),
{
    let c = chars_of(uri_path);
    let mut i: usize = 0;
    assert(c@.skip(0) =~= c@);
    while i < c.len() && c[i] == '/'
        invariant
            i <= c@.len(),
            c@ == uri_path@,
            trim_start_char(uri_path@, '/') == trim_start_char(c@.skip(i as int), '/'),
        decreases c@.len() - i,
    {
        assert(c@.skip(i as int).drop_first() =~= c@.skip(i + 1));
        i = i + 1;
    }
    let r = slice_chars(&c, i, c.len());
    assert(r@ =~= c@.skip(i as int));
    string_of(&r)
}

/// The cache policy of an asset: the hashed files under `assets/` are
/// kept a year and never change; anything else is revalidated.
pub fn cache_control(path: &str) -> (s: &'static str)
    ensures
        crate::text::starts_with(path@, "assets/"@) ==> s@ == "public, max-age=31536000, immutable"@,
        !crate::text::starts_with(path@, "assets/"@) ==> s@ == "no-cache"@,
{
    if has_prefix(&chars_of(path), &chars_of("assets/")) {
        "public, max-age=31536000, immutable"
    } else {
        "no-cache"
    }
}

} // verus!
