//! One probe: the URL that is asked for, and what the answer is reported as.

use vstd::prelude::*;
use vstd::std_specs::iter::IteratorSpec;
use vstd::string::*;

verus! {

/// What a probe needs to know of the answer to a request.
#[derive(Debug)]
pub struct ProbeResponse {
    /// The status code of the answer.
    pub status: u16,
    /// The `Location` header of the answer, where it has one that is text.
    pub location: Option<String>,
}

/// The page as it is reported. An answer that moves the page permanently
/// (301) or for now (302) and says where names the place behind the page;
/// every other answer leaves the page as it was asked for.
pub open spec fn display_path(page: Seq<char>, status: u16, location: Option<Seq<char>>) -> Seq<
    char,
> {
    match location {
        Some(place) => if status == 301 {
            page + "   [REDIRECTED TO: "@ + place + "]"@
        } else if status == 302 {
            page + "   ["@ + place + "]"@
        } else {
            page
        },
        None => page,
    }
}

/// The view of an optional string.
pub open spec fn option_view(text: Option<String>) -> Option<Seq<char>> {
    match text {
        Some(t) => Some(t@),
        None => None,
    }
}

/// The URL to ask for: the base, a slash unless the base ends in one, and the
/// page.
pub open spec fn url_of(base: Seq<char>, page: Seq<char>) -> Seq<char> {
    if base.len() > 0 && base.last() == '/' {
        base + page
    } else {
        base + "/"@ + page
    }
}

/// Whether `s` ends in the character `c`.
pub fn ends_with_char(s: &str, c: char) -> (b: bool)
    ensures
        b == (s@.len() > 0 && s@.last() == c),
{
    let mut last: Option<char> = None;
    let chars = s.chars();
    for x in it: chars
        invariant
            it.seq() == s@,
            last == (if it.index() == 0 {
                None
            } else {
                Some(s@[it.index() - 1])
            }),
    {
        last = Some(x);
    }
    match last {
        Some(x) => x == c,
        None => false,
    }
}

/// The URL to ask for when probing `page` on the site at `base`.
pub fn probe_url(base: &str, page: &str) -> (r: String)
    ensures
        r@ == url_of(base@, page@),
{
    let mut url = base.to_owned();
    if !ends_with_char(base, '/') {
        url.append("/");
    }
    url.append(page);
    url
}

/// The outcome of a probe that was answered: the page as it is reported, and
/// the status code of the answer.
pub fn process_response(ext: String, resp: ProbeResponse) -> (r: (String, u16))
    ensures
        r.0@ == display_path(ext@, resp.status, option_view(resp.location)),
        r.1 == resp.status,
{
    let status = resp.status;
    match resp.location {
        Some(place) => {
            if status == 301 {
                let mut shown = ext;
                shown.append("   [REDIRECTED TO: ");
                shown.append(place.as_str());
                shown.append("]");
                (shown, status)
            } else if status == 302 {
                let mut shown = ext;
                shown.append("   [");
                shown.append(place.as_str());
                shown.append("]");
                (shown, status)
            } else {
                (ext, status)
            }
        },
        None => (ext, status),
    }
}

/// The outcome of a probe that was not answered: a fixed page, and the status
/// code Not Found, which is ignored unless the caller asked otherwise.
pub fn failed_response() -> (r: (String, u16))
    ensures
        r.0@ == "failed"@,
        r.1 == 404,
{
    ("failed".to_owned(), 404u16)
}

/// The outcome of a probe: that of the answer where there was one, and the
/// fixed outcome of a failure where the request did not get through.
pub fn probe_outcome(page: String, exchange: Option<ProbeResponse>) -> (r: (String, u16))
    ensures
        match exchange {
            Some(resp) => r.0@ == display_path(page@, resp.status, option_view(resp.location))
                && r.1 == resp.status,
            None => r.0@ == "failed"@ && r.1 == 404,
        },
{
    match exchange {
        Some(resp) => process_response(page, resp),
        None => failed_response(),
    }
}

} // verus!
