//! The site to scan: how the address that the user gave becomes the base URL.

use crate::scanner::Scanner;
use crate::text::starts_with;
use std::sync::Arc;
use vstd::prelude::*;
use vstd::string::*;

verus! {

/// What `reqwest::Url::parse` makes of `text`: the URL in its normal form, as
/// `Url::as_str` gives it, or nothing where the text is no absolute URL.
pub uninterp spec fn parsed_url(text: Seq<char>) -> Option<Seq<char>>;

/// The address with its scheme: `http://` followed by the address as given.
pub open spec fn with_scheme(address: Seq<char>) -> Seq<char> {
    "http://"@ + address
}

/// No text begins with both schemes: where it begins with `http://` its fifth
/// character is the colon, where it begins with `https://` it is an `s`.
pub proof fn lemma_one_scheme_at_most(address: Seq<char>)
    ensures
        !("http://"@.is_prefix_of(address) && "https://"@.is_prefix_of(address)),
{
    reveal_strlit("http://");
    reveal_strlit("https://");
    if "http://"@.is_prefix_of(address) && "https://"@.is_prefix_of(address) {
        assert(address.subrange(0, 7)[4] == ':');
        assert(address.subrange(0, 8)[4] == 's');
    }
}

/// Puts the scheme in front of an address. The scheme is left out only for an
/// address that begins with `http://` and with `https://`, and there is none:
/// an address that names its scheme gets `http://` in front all the same.
pub fn ensure_scheme(provided_url: &str) -> (r: String)
    ensures
        r@ == with_scheme(provided_url@),
{
    if !starts_with(provided_url, "http://") || !starts_with(provided_url, "https://") {
        let mut host_addr = "http://".to_owned();
        host_addr.append(provided_url);
        host_addr
    } else {
        proof {
            lemma_one_scheme_at_most(provided_url@);
        }
        provided_url.to_owned()
    }
}

/// Calls `reqwest::Url::parse` on `text` and, where that gives a URL, takes
/// its text with `Url::as_str`. The contract claims only that the outcome is
/// the one that `parsed_url` names: the same text always parses alike.
#[verifier::external_body]
fn parse_url(text: &str) -> (r: Option<String>)
    ensures
        r matches Some(url) ==> parsed_url(text@) == Some(url@),
        r is None ==> parsed_url(text@) is None,
{
    match reqwest::Url::parse(text) {
        Ok(url) => Some(url.as_str().to_string()),
        Err(_) => None,
    }
}

impl Scanner {
    /// Takes what parsing the address gave: a URL becomes the site, and
    /// without one the scanner stays as it is.
    pub fn accept_site(&mut self, parsed: Option<String>) -> (r: Result<&'static str, &'static str>)
        ensures
            match parsed {
                Some(url) => {
                    &&& r matches Ok(msg) && msg@ == "Successfully parsed given url."@
                    &&& (*final(self).site)@ == url@
                },
                None => {
                    &&& r matches Err(msg) && msg@
                        == "Unable to parse provided url. Please check your `-u`/`--url` argument."@
                    &&& final(self).site == old(self).site
                },
            },
            final(self).wordlist == old(self).wordlist,
            final(self).status_code_ignore_list == old(self).status_code_ignore_list,
            final(self).found == old(self).found,
            final(self).extension_list == old(self).extension_list,
    {
        match parsed {
            Some(url) => {
                self.site = Arc::new(url);
                Ok("Successfully parsed given url.")
            },
            None => Err("Unable to parse provided url. Please check your `-u`/`--url` argument."),
        }
    }

    /// Makes `provided_url` the site of the scan: puts the scheme in front of
    /// it, parses the result as a URL and stores the URL in its normal form.
    /// Where it is no URL, nothing changes and the error says so.
    pub fn try_add_site(&mut self, provided_url: &str) -> (r: Result<&'static str, &'static str>)
        ensures
            match parsed_url(with_scheme(provided_url@)) {
                Some(url) => {
                    &&& r matches Ok(msg) && msg@ == "Successfully parsed given url."@
                    &&& (*final(self).site)@ == url
                },
                None => {
                    &&& r matches Err(msg) && msg@
                        == "Unable to parse provided url. Please check your `-u`/`--url` argument."@
                    &&& final(self).site == old(self).site
                },
            },
            final(self).wordlist == old(self).wordlist,
            final(self).status_code_ignore_list == old(self).status_code_ignore_list,
            final(self).found == old(self).found,
            final(self).extension_list == old(self).extension_list,
    {
        let host_addr = ensure_scheme(provided_url);
        let parsed = parse_url(host_addr.as_str());
        self.accept_site(parsed)
    }
}

} // verus!
