//! Proxy settings: the parts of a parsed URL that the library reads, and the
//! normalisation of the proxy URL that the user enters.

use vstd::prelude::*;
use crate::text::{
    chars_of, concat2, contains, contains_str, str_eq, string_of, text_result, trim, trim_chars,
};

verus! {

/// What the library reads of a parsed URL (`url::Url`).
#[derive(Debug)]
pub struct UrlParts {
    pub scheme: String,
    pub host: Option<String>,
    pub path: String,
    pub query: Option<String>,
    pub fragment: Option<String>,
    /// The decoded `name=value` pairs of the query, in order.
    pub query_pairs: Vec<(String, String)>,
    /// The whole URL as the parser serialises it.
    pub serialized: String,
}

/// The parts of a parsed URL as character sequences.
pub struct UrlPartsView {
    pub scheme: Seq<char>,
    pub host: Option<Seq<char>>,
    pub path: Seq<char>,
    pub query: Option<Seq<char>>,
    pub fragment: Option<Seq<char>>,
    pub query_pairs: Seq<(Seq<char>, Seq<char>)>,
    pub serialized: Seq<char>,
}

/// The characters of an optional owned string.
pub open spec fn opt_string(o: Option<String>) -> Option<Seq<char>> {
    match o {
        Some(s) => Some(s@),
        None => None,
    }
}

/// The characters of a list of string pairs.
pub open spec fn string_pairs(v: Seq<(String, String)>) -> Seq<(Seq<char>, Seq<char>)> {
    v.map_values(|p: (String, String)| (p.0@, p.1@))
}

impl View for UrlParts {
    type V = UrlPartsView;

    open spec fn view(&self) -> UrlPartsView {
        UrlPartsView {
            scheme: self.scheme@,
            host: opt_string(self.host),
            path: self.path@,
            query: opt_string(self.query),
            fragment: opt_string(self.fragment),
            query_pairs: string_pairs(self.query_pairs@),
            serialized: self.serialized@,
        }
    }
}

/// What `url::Url::parse` gives for a text: its parts, or nothing when the
/// text is not an absolute URL.
pub uninterp spec fn parsed_url(input: Seq<char>) -> Option<UrlPartsView>;

/// A parsed URL's serialisation begins with its non-empty scheme and a `:`.
pub open spec fn serialized_starts_with_scheme(p: UrlPartsView) -> bool {
    &&& p.scheme.len() > 0
    &&& p.serialized.len() > p.scheme.len()
    &&& p.serialized.subrange(0, p.scheme.len() as int) == p.scheme
    &&& p.serialized[p.scheme.len() as int] == ':'
}

/// `url::Url::parse`, read into [`UrlParts`] through the parsed URL's
/// `scheme`, `host_str`, `path`, `query`, `fragment`, `query_pairs` and
/// `as_str`. The contract names the result and states one fact of it, which
/// the url crate's own invariant check (`check_invariants`) asserts of every
/// parsed URL: the serialisation starts with the non-empty scheme and a `:`
/// (`scheme()` is the serialisation up to that `:`).
#[verifier::external_body]
pub(crate) fn parse_url(input: &str) -> (r: Option<UrlParts>)
    ensures
        match r {
            Some(p) => parsed_url(input@) == Some(p@) && serialized_starts_with_scheme(p@),
            None => parsed_url(input@) is None,
        },
{
    match url::Url::parse(input) {
        Ok(u) => Some(UrlParts {
            scheme: u.scheme().to_owned(),
            host: u.host_str().map(str::to_owned),
            path: u.path().to_owned(),
            query: u.query().map(str::to_owned),
            fragment: u.fragment().map(str::to_owned),
            query_pairs: u.query_pairs().map(|(k, v)| (k.into_owned(), v.into_owned())).collect(),
            serialized: u.as_str().to_owned(),
        }),
        Err(_) => None,
    }
}

/// Does `reqwest::Proxy::all` accept the URL?
pub uninterp spec fn proxy_accepted(url: Seq<char>) -> bool;

/// `reqwest::Proxy::all`: whether the network client accepts the text as a
/// proxy URL. The contract names the answer; it claims nothing else of it.
#[verifier::external_body]
fn proxy_accepts(url: &str) -> (r: bool)
    ensures
        r == proxy_accepted(url@),
{
    reqwest::Proxy::all(url).is_ok()
}

/// The URL that a proxy setting is parsed as: the setting itself when it
/// names a scheme, else an HTTP URL.
pub open spec fn proxy_candidate(value: Seq<char>) -> Seq<char> {
    if contains(value, "://"@) {
        value
    } else {
        "http://"@ + value
    }
}

/// Is the scheme one that the network client can use for a proxy?
pub open spec fn is_proxy_scheme(scheme: Seq<char>) -> bool {
    scheme == "http"@ || scheme == "https"@ || scheme == "socks5"@ || scheme == "socks5h"@
}

/// Why a parsed URL cannot be a proxy, if it cannot: a scheme other than
/// HTTP, HTTPS, SOCKS5 and SOCKS5H, no host, or a path, query or fragment.
pub open spec fn proxy_parts_error(p: UrlPartsView) -> Option<Seq<char>> {
    if !is_proxy_scheme(p.scheme) {
        Some("Proxy must use HTTP, HTTPS, SOCKS5, or SOCKS5H."@)
    } else if p.host is None {
        Some("Proxy URL needs a host name or IP address."@)
    } else if !(p.path == ""@ || p.path == "/"@) || p.query is Some || p.fragment is Some {
        Some("Proxy URL cannot contain a path, query, or fragment."@)
    } else {
        None
    }
}

/// The text without one trailing slash.
pub open spec fn without_trailing_slash(s: Seq<char>) -> Seq<char> {
    if s.len() > 0 && s.last() == '/' {
        s.drop_last()
    } else {
        s
    }
}

/// The normalised proxy setting: empty for a blank setting; else the parsed
/// proxy URL, checked, without its trailing slash.
pub open spec fn normalized_proxy(value: Seq<char>) -> Result<Seq<char>, Seq<char>> {
    let t = trim(value);
    if t.len() == 0 {
        Ok(seq![])
    } else {
        match parsed_url(proxy_candidate(t)) {
            None => Err("Proxy URL is invalid. Try 127.0.0.1:23458."@),
            Some(p) => match proxy_parts_error(p) {
                Some(m) => Err(m),
                None => if proxy_accepted(p.serialized) {
                    Ok(without_trailing_slash(p.serialized))
                } else {
                    Err("Proxy URL is not supported by the network client."@)
                },
            },
        }
    }
}

/// Checks the parts of a parsed proxy URL.
pub fn check_proxy_parts(p: &UrlParts) -> (r: Result<(), String>)
    ensures
        match r {
            Ok(()) => proxy_parts_error(p@) is None,
            Err(m) => proxy_parts_error(p@) == Some(m@),
        },
{
    let scheme = p.scheme.as_str();
    if !(str_eq(scheme, "http") || str_eq(scheme, "https") || str_eq(scheme, "socks5") || str_eq(
        scheme,
        "socks5h",
    )) {
        return Err("Proxy must use HTTP, HTTPS, SOCKS5, or SOCKS5H.".to_owned());
    }
    if p.host.is_none() {
        return Err("Proxy URL needs a host name or IP address.".to_owned());
    }
    let path = p.path.as_str();
    if !(str_eq(path, "") || str_eq(path, "/")) || p.query.is_some() || p.fragment.is_some() {
        return Err("Proxy URL cannot contain a path, query, or fragment.".to_owned());
    }
    Ok(())
}

/// The text without one trailing slash.
pub fn strip_trailing_slash(s: &str) -> (r: String)
    ensures
        r@ == without_trailing_slash(s@),
{
    let mut c = chars_of(s);
    if c.len() > 0 && c[c.len() - 1] == '/' {
        c.pop();
    }
    string_of(&c)
}

/// Normalises a proxy setting: a blank setting is empty; `host:port` becomes
/// an HTTP URL; the URL must use HTTP, HTTPS, SOCKS5 or SOCKS5H, name a host,
/// hold no path, query or fragment, and be accepted by the network client.
pub fn normalize_proxy_url(value: &str) -> (r: Result<String, String>)
    ensures
        text_result(r) == normalized_proxy(value@),
        r matches Ok(n) ==> (n@.len() == 0 <==> trim(value@).len() == 0),
{
    let vc = chars_of(value);
    let tc = trim_chars(&vc);
    if tc.len() == 0 {
        return Ok(String::new());
    }
    let t = string_of(&tc);
    let candidate = if contains_str(t.as_str(), "://") {
        t
    } else {
        concat2("http://", t.as_str())
    };
    let parsed = match parse_url(candidate.as_str()) {
        Some(p) => p,
        None => return Err("Proxy URL is invalid. Try 127.0.0.1:23458.".to_owned()),
    };
    match check_proxy_parts(&parsed) {
        Ok(()) => {},
        Err(m) => return Err(m),
    }
    if !proxy_accepts(parsed.serialized.as_str()) {
        return Err("Proxy URL is not supported by the network client.".to_owned());
    }
    Ok(strip_trailing_slash(parsed.serialized.as_str()))
}

/// A normalised proxy setting is empty or a URL that the parser accepts, with
/// one of the four supported schemes, a host, and no path, query or
/// fragment; a setting without a scheme is read as `http://` followed by it.
pub proof fn lemma_normalized_proxy_is_supported(value: Seq<char>)
    requires
        normalized_proxy(value) is Ok,
    ensures
        ({
            let t = trim(value);
            let u = normalized_proxy(value)->Ok_0;
            t.len() == 0 ==> u.len() == 0
        }),
        ({
            let t = trim(value);
            let u = normalized_proxy(value)->Ok_0;
            t.len() > 0 ==> {
                &&& !contains(t, "://"@) ==> proxy_candidate(t) == "http://"@ + t
                &&& parsed_url(proxy_candidate(t)) matches Some(p) && is_proxy_scheme(p.scheme)
                    && p.host is Some && (p.path == ""@ || p.path == "/"@) && p.query is None
                    && p.fragment is None && proxy_accepted(p.serialized) && u
                    == without_trailing_slash(p.serialized)
            }
        }),
{
}

/// Each of the four supported schemes is accepted, and no other: a parsed
/// URL with a host and no path, query or fragment is a valid proxy exactly
/// when its scheme is `http`, `https`, `socks5` or `socks5h`. A non-blank
/// setting whose parse has those parts and that the network client accepts
/// normalises to the parsed URL without its trailing slash.
pub proof fn lemma_supported_schemes_accepted(p: UrlPartsView, value: Seq<char>)
    requires
        p.host is Some,
        p.path == ""@ || p.path == "/"@,
        p.query is None,
        p.fragment is None,
    ensures
        proxy_parts_error(p) is None <==> (p.scheme == "http"@ || p.scheme == "https"@ || p.scheme
            == "socks5"@ || p.scheme == "socks5h"@),
        proxy_parts_error(p) is Some ==> proxy_parts_error(p) == Some(
            "Proxy must use HTTP, HTTPS, SOCKS5, or SOCKS5H."@,
        ),
        (p.scheme == "http"@ || p.scheme == "https"@ || p.scheme == "socks5"@ || p.scheme
            == "socks5h"@) && trim(value).len() > 0 && parsed_url(proxy_candidate(trim(value)))
            == Some(p) && proxy_accepted(p.serialized) ==> normalized_proxy(value) == Ok::<
            Seq<char>,
            Seq<char>,
        >(without_trailing_slash(p.serialized)),
{
}

} // verus!
