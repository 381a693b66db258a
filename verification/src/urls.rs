//! Normalization of the URLs that navigation-class commands receive:
//! recognized schemes and relative paths pass through, loopback hosts get
//! `http://`, dotted names get `https://`, and a single bare word is
//! guessed to be a commercial domain.

use vstd::prelude::*;
use vstd::string::*;

use crate::strutil::{spec_starts_with, spec_trim, str_contains_char, str_starts_with, trim_str};

verus! {

/// The input already carries a scheme that is passed through unchanged.
pub open spec fn has_known_scheme(s: Seq<char>) -> bool {
    ||| spec_starts_with(s, "http://"@)
    ||| spec_starts_with(s, "https://"@)
    ||| spec_starts_with(s, "file://"@)
    ||| spec_starts_with(s, "data:"@)
    ||| spec_starts_with(s, "about:"@)
    ||| spec_starts_with(s, "chrome://"@)
    ||| spec_starts_with(s, "chrome-extension://"@)
}

/// The input looks like a relative path and is passed through unchanged.
pub open spec fn is_relative_path(s: Seq<char>) -> bool {
    spec_starts_with(s, "/"@) || spec_starts_with(s, "./"@) || spec_starts_with(s, "../"@)
}

/// The input names the local machine and defaults to plain `http`.
pub open spec fn is_loopback(s: Seq<char>) -> bool {
    spec_starts_with(s, "localhost"@) || spec_starts_with(s, "127.0.0.1"@)
}

/// The normalization policy, applied to the trimmed input.
pub open spec fn spec_normalize_url(s: Seq<char>) -> Seq<char> {
    let t = spec_trim(s);
    if has_known_scheme(t) || is_relative_path(t) {
        t
    } else if is_loopback(t) {
        "http://"@ + t
    } else if t.contains('.') {
        "https://"@ + t
    } else {
        "https://www."@ + t + ".com"@
    }
}

/// Normalize an incomplete URL: trim whitespace, pass through recognized
/// schemes and relative paths, default loopback hosts to `http://`, dotted
/// names to `https://`, and guess `https://www.<word>.com` for a bare word.
pub fn normalize_url(url: &str) -> (r: String)
    ensures
        r@ == spec_normalize_url(url@),
{
    let trimmed = trim_str(url);
    if str_starts_with(trimmed, "http://") || str_starts_with(trimmed, "https://")
        || str_starts_with(trimmed, "file://") || str_starts_with(trimmed, "data:")
        || str_starts_with(trimmed, "about:") || str_starts_with(trimmed, "chrome://")
        || str_starts_with(trimmed, "chrome-extension://") {
        return trimmed.to_owned();
    }
    if str_starts_with(trimmed, "/") || str_starts_with(trimmed, "./") || str_starts_with(
        trimmed,
        "../",
    ) {
        return trimmed.to_owned();
    }
    if str_starts_with(trimmed, "localhost") || str_starts_with(trimmed, "127.0.0.1") {
        let mut s = String::from_str("http://");
        s.append(trimmed);
        return s;
    }
    if str_contains_char(trimmed, '.') {
        let mut s = String::from_str("https://");
        s.append(trimmed);
        return s;
    }
    let mut s = String::from_str("https://www.");
    s.append(trimmed);
    s.append(".com");
    proof {
        assert(s@ =~= "https://www."@ + trimmed@ + ".com"@);
    }
    s
}

} // verus!
