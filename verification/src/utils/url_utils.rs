//! URL handling: normal form of a link, host and path of a URL. Parsing and
//! serialising URLs is the `url` crate's; what this crate does with the
//! results is proved here.
use vstd::prelude::*;

use crate::utils::text::{chars_of, string_from_chars, sub_chars};

verus! {

#[verifier::external_type_specification]
#[verifier::external_body]
pub struct ExUrlParseError(url::ParseError);

/// Whether `url::Url::parse` accepts `s` as an absolute URL.
pub uninterp spec fn url_parses(s: Seq<char>) -> bool;

/// `host_str` of the URL that `url::Url::parse` reads from `s`.
pub uninterp spec fn url_host(s: Seq<char>) -> Option<Seq<char>>;

/// `path` of the URL that `url::Url::parse` reads from `s`.
pub uninterp spec fn url_path(s: Seq<char>) -> Seq<char>;

/// The serialisation of the URL that `url::Url::parse` reads from `s`, after
/// `set_fragment(fragment)` and then `set_query(query)`.
pub uninterp spec fn url_with(s: Seq<char>, query: Option<Seq<char>>, fragment: Option<Seq<char>>) -> Seq<char>;

/// The serialisation of `link` resolved against the URL parsed from `base`
/// (`url::Url::parse(base)` then `join(link)`), or `None` where either fails.
pub uninterp spec fn url_join(base: Seq<char>, link: Seq<char>) -> Option<Seq<char>>;

/// Calls `url::Url::parse` and then `host_str`. Claims: the result is `Ok`
/// exactly when `url_parses`, and then holds `url_host`.
#[verifier::external_body]
fn parse_host(s: &str) -> (r: Result<Option<String>, url::ParseError>)
    ensures
        r is Ok <==> url_parses(s@),
        r matches Ok(h) ==> h.deep_view() == url_host(s@),
{
    match url::Url::parse(s) {
        Ok(u) => Ok(u.host_str().map(|h| h.to_string())),
        Err(e) => Err(e),
    }
}

/// Calls `url::Url::parse` and then `path`. Claims: the result is `Ok`
/// exactly when `url_parses`, and then holds `url_path`.
#[verifier::external_body]
fn parse_path(s: &str) -> (r: Result<String, url::ParseError>)
    ensures
        r is Ok <==> url_parses(s@),
        r matches Ok(p) ==> p@ == url_path(s@),
{
    match url::Url::parse(s) {
        Ok(u) => Ok(u.path().to_string()),
        Err(e) => Err(e),
    }
}

/// Calls `url::Url::parse`, then `set_fragment(fragment)` and
/// `set_query(query)`, and serialises the URL. Claims: `Ok` exactly when
/// `url_parses`, and then `url_with(s, query, fragment)`. Setting a query or
/// fragment (`Some`) can overflow the URL's 32-bit offsets and panic, so
/// only clearing them (`None`) is admitted.
#[verifier::external_body]
fn parse_with(s: &str, query: Option<&str>, fragment: Option<&str>) -> (r: Result<String, url::ParseError>)
    requires
        query is None,
        fragment is None,
    ensures
        r is Ok <==> url_parses(s@),
        r matches Ok(b) ==> b@ == url_with(s@, query.deep_view(), fragment.deep_view()),
{
    match url::Url::parse(s) {
        Ok(mut u) => {
            u.set_fragment(fragment);
            u.set_query(query);
            Ok(u.to_string())
        },
        Err(e) => Err(e),
    }
}

/// Calls `url::Url::parse` on `base`, then `join` with `link`, and
/// serialises the result. Claims: the result is `url_join(base, link)`.
#[verifier::external_body]
pub(crate) fn join_url(base: &str, link: &str) -> (r: Result<String, url::ParseError>)
    ensures
        r is Ok <==> url_join(base@, link@) is Some,
        r matches Ok(j) ==> url_join(base@, link@) == Some(j@),
{
    match url::Url::parse(base) {
        Ok(b) => match b.join(link) {
            Ok(u) => Ok(u.to_string()),
            Err(e) => Err(e),
        },
        Err(e) => Err(e),
    }
}

/// `s` without one trailing `/`, if it ends with one.
pub open spec fn without_trailing_slash(s: Seq<char>) -> Seq<char> {
    if s.len() > 0 && s.last() == '/' {
        s.drop_last()
    } else {
        s
    }
}

/// The normal form of a link: `None` where it is no absolute URL, else its
/// serialisation without query and fragment and without one trailing `/`.
pub open spec fn normalized(link: Seq<char>) -> Option<Seq<char>> {
    if url_parses(link) {
        Some(without_trailing_slash(url_with(link, None, None)))
    } else {
        None
    }
}

/// The host of a URL, `None` where it is no absolute URL or has no host.
pub open spec fn domain_of(url: Seq<char>) -> Option<Seq<char>> {
    if url_parses(url) {
        url_host(url)
    } else {
        None
    }
}

/// The path of a URL, `None` where it is no absolute URL.
pub open spec fn path_of(url: Seq<char>) -> Option<Seq<char>> {
    if url_parses(url) {
        Some(url_path(url))
    } else {
        None
    }
}

/// `s` without one trailing `/`, if it ends with one.
pub fn trim_trailing_slash(s: String) -> (r: String)
    ensures
        r@ == without_trailing_slash(s@),
{
    let cs = chars_of(s.as_str());
    let n = cs.len();
    if n > 0 && cs[n - 1] == '/' {
        let kept = sub_chars(&cs, 0, n - 1);
        assert(kept@ =~= s@.drop_last());
        string_from_chars(&kept)
    } else {
        s
    }
}

/// The normal form of a link: the URL without its query and its fragment,
/// and without a trailing `/`; `None` where `link` is no absolute URL.
pub fn normalize_url(link: &str) -> (r: Option<String>)
    ensures
        r.deep_view() == normalized(link@),
{
    match parse_with(link, None, None) {
        Ok(b) => Some(trim_trailing_slash(b)),
        Err(_) => None,
    }
}

/// The host of `url`; `None` where it is no absolute URL or has no host.
pub fn get_domain(url: &str) -> (r: Option<String>)
    ensures
        r.deep_view() == domain_of(url@),
{
    match parse_host(url) {
        Ok(h) => h,
        Err(_) => None,
    }
}

/// The path of `url`; `None` where it is no absolute URL.
pub fn get_path(url: &str) -> (r: Option<String>)
    ensures
        r.deep_view() == path_of(url@),
{
    match parse_path(url) {
        Ok(p) => Some(p),
        Err(_) => None,
    }
}

} // verus!
