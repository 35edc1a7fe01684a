//! Links of a results page: percent-coding, redirect targets, validity.

use crate::text::{
    after_first, begins_with, chars_of, contains, lemma_after_first_found, piece, rest_after,
    split, split_on, starts_with, string_of, views,
};
use vstd::prelude::*;
use vstd::string::*;
use vstd::utf8::encode_utf8;

verus! {

/// Whether a byte stands for itself in a percent-encoded string: an
/// ASCII letter, a digit, or one of `-`, `.`, `_`, `~`.
pub open spec fn unreserved(b: u8) -> bool {
    ||| 0x30 <= b <= 0x39
    ||| 0x41 <= b <= 0x5a
    ||| 0x61 <= b <= 0x7a
    ||| b == 0x2d
    ||| b == 0x2e
    ||| b == 0x5f
    ||| b == 0x7e
}

/// The upper-case hexadecimal digit for a number below sixteen.
pub open spec fn hex_digit(d: u8) -> char {
    if d < 10 {
        (0x30 + d) as u8 as char
    } else {
        (0x37 + d) as u8 as char
    }
}

/// One byte, percent-encoded.
pub open spec fn escaped_byte(b: u8) -> Seq<char> {
    if unreserved(b) {
        seq![b as char]
    } else {
        seq!['%', hex_digit(b / 16), hex_digit(b % 16)]
    }
}

/// A sequence of bytes, percent-encoded byte by byte.
pub open spec fn escaped_bytes(bytes: Seq<u8>) -> Seq<char>
    decreases bytes.len(),
{
    if bytes.len() == 0 {
        Seq::empty()
    } else {
        escaped_byte(bytes[0]) + escaped_bytes(bytes.drop_first())
    }
}

/// A string, percent-encoded: each byte of its UTF-8 form that is not
/// unreserved becomes `%` and two upper-case hexadecimal digits.
pub open spec fn percent_encoded(data: Seq<char>) -> Seq<char> {
    escaped_bytes(encode_utf8(data))
}

/// What percent-decoding makes of a string, or `None` where the decoded
/// bytes are not UTF-8.
pub uninterp spec fn percent_decoded(data: Seq<char>) -> Option<Seq<char>>;

/// `urlencoding::encode` keeps the unreserved bytes of the string's
/// UTF-8 form and writes every other byte as `%` and two upper-case
/// hexadecimal digits.
#[verifier::external_body]
pub(crate) fn percent_encode(data: &str) -> (out: String)
    ensures
        out@ == percent_encoded(data@),
{
    urlencoding::encode(data).into_owned()
}

/// `urlencoding::decode` replaces each `%` and two hexadecimal digits by
/// the byte they name and fails where the outcome is not UTF-8. The
/// outcome is left to the name `percent_decoded`, but for one fact: a
/// string without `%` decodes to itself.
#[verifier::external_body]
pub(crate) fn percent_decode(data: &str) -> (out: Option<String>)
    ensures
        out matches Some(s) ==> percent_decoded(data@) == Some(s@),
        out is None ==> percent_decoded(data@) is None,
        !data@.contains('%') ==> out is Some && out->0@ == data@,
{
    match urlencoding::decode(data) {
        Ok(decoded) => Some(decoded.into_owned()),
        Err(_) => None,
    }
}

/// What follows `q=` in the first segment that begins with it.
pub open spec fn first_query_value(segments: Seq<Seq<char>>) -> Option<Seq<char>>
    decreases segments.len(),
{
    if segments.len() == 0 {
        None
    } else if starts_with(segments[0], "q="@) {
        Some(segments[0].skip("q="@.len() as int))
    } else {
        first_query_value(segments.skip(1))
    }
}

/// The still encoded target of a redirect link: what follows the first
/// `/url?` is split at `&`, and the first segment that begins with `q=`
/// gives the target, which is what follows `q=` in it. A link without
/// `/url?`, or without such a segment, has no target.
pub open spec fn redirect_target(url: Seq<char>) -> Option<Seq<char>> {
    match after_first(url, "/url?"@) {
        Some(query) => first_query_value(split_on(query, '&')),
        None => None,
    }
}

/// The candidate link that a raw `href` stands for: the decoded target
/// of a redirect link, the link itself where it begins with `http`, and
/// nothing otherwise.
pub open spec fn cleaned_url(url: Seq<char>) -> Option<Seq<char>> {
    match redirect_target(url) {
        Some(raw) => percent_decoded(raw),
        None => if starts_with(url, "http"@) {
            Some(url)
        } else {
            None
        },
    }
}

/// The substrings that no valid link holds.
pub open spec fn denylist() -> Seq<Seq<char>> {
    seq![
        "google.com/search"@,
        "google.com/url"@,
        "google.com/imgres"@,
        "accounts.google"@,
        "webcache.googleusercontent"@,
        "/preferences"@,
        "/settings"@,
        "/advanced_search"@,
        "/setprefs"@,
        "javascript:"@,
    ]
}

/// Whether `url` holds a denylisted substring.
pub open spec fn denylisted(url: Seq<char>) -> bool {
    exists|i: int| 0 <= i < denylist().len() && contains(url, #[trigger] denylist()[i])
}

/// Whether a link may be fetched: it begins with `https://`, holds no
/// denylisted substring, and holds no `&`.
pub open spec fn valid_url(url: Seq<char>) -> bool {
    starts_with(url, "https://"@) && !denylisted(url) && !contains(url, "&"@)
}

/// The still encoded target of a redirect link, if `url` is one.
pub fn find_redirect_target(url: &str) -> (out: Option<String>)
    ensures
        out matches Some(s) ==> redirect_target(url@) == Some(s@),
        out is None ==> redirect_target(url@) is None,
{
    let link = chars_of(url);
    let marker = chars_of("/url?");
    let key = chars_of("q=");
    let query = match rest_after(&link, &marker) {
        Some(query) => query,
        None => {
            return None;
        },
    };
    let segments = split(&query, '&');
    let mut i: usize = 0;
    proof {
        assert(views(segments@).skip(0) =~= views(segments@));
    }
    while i < segments.len()
        invariant
            i <= segments.len(),
            key@ == "q="@,
            redirect_target(url@) == first_query_value(views(segments@).skip(i as int)),
        decreases segments.len() - i,
    {
        let ghost rest = views(segments@).skip(i as int);
        proof {
            assert(rest[0] == segments@[i as int]@);
            assert(rest.skip(1) =~= views(segments@).skip(i + 1));
        }
        if begins_with(&segments[i], &key) {
            let value = piece(&segments[i], key.len(), segments[i].len());
            proof {
                assert(rest[0].skip(key@.len() as int) =~= value@);
            }
            return Some(string_of(&value));
        }
        i += 1;
    }
    None
}

/// A link is a redirect link only where it holds `/url?`.
pub proof fn lemma_redirect_needs_marker(url: Seq<char>)
    requires
        !contains(url, "/url?"@),
    ensures
        redirect_target(url) is None,
{
    lemma_after_first_found(url, "/url?"@);
}

} // verus!
