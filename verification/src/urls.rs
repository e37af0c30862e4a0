use vstd::prelude::*;

verus! {

/// Whether `href` parses as an absolute URL, that is, whether
/// `url::Url::parse` accepts it.
pub uninterp spec fn url_parse_ok(href: Seq<char>) -> bool;

/// The last path segment of the URL that `href` parses to, or `None` when
/// that URL cannot be a base and so has no path segments. Meaningful only
/// when `url_parse_ok(href)` holds.
pub uninterp spec fn url_file_name(href: Seq<char>) -> Option<Seq<char>>;

/// The serialization of `rel` joined against the absolute URL `base`, or
/// `None` when the join fails. Meaningful only when `url_parse_ok(base)`
/// holds.
pub uninterp spec fn url_joined(base: Seq<char>, rel: Seq<char>) -> Option<Seq<char>>;

/// Relies on url::Url::parse, which returns `Ok` exactly on absolute URLs.
#[verifier::external_body]
pub fn url_parses(href: &str) -> (b: bool)
    ensures
        b == url_parse_ok(href@),
{
    url::Url::parse(href).is_ok()
}

/// How deriving a destination file name from an href can fail.
pub enum FileNameFault {
    /// The href is not an absolute URL.
    NotAUrl,
    /// The URL cannot be a base, so it has no path segments.
    NoSegments,
}

/// Relies on url::Url::parse (`Ok` exactly on absolute URLs) and
/// url::Url::path_segments (`Some` exactly when the URL can be a base, and
/// then the '/'-separated parts of its path, at least one of them).
#[verifier::external_body]
pub fn url_last_segment(href: &str) -> (r: Result<String, FileNameFault>)
    ensures
        (r == Err::<String, FileNameFault>(FileNameFault::NotAUrl)) == !url_parse_ok(href@),
        url_parse_ok(href@) ==> ((r == Err::<String, FileNameFault>(FileNameFault::NoSegments))
            == (url_file_name(href@) is None)),
        r matches Ok(name) ==> url_parse_ok(href@) && url_file_name(href@) == Some(name@),
{
    match url::Url::parse(href) {
        Ok(url) => match url.path_segments().and_then(|s| s.last()) {
            Some(name) => Ok(name.to_string()),
            None => Err(FileNameFault::NoSegments),
        },
        Err(_) => Err(FileNameFault::NotAUrl),
    }
}

/// Relies on url::Url::parse, url::Url::join and url::Url::as_str: the
/// result is the joined URL's serialization.
#[verifier::external_body]
pub fn url_join(base: &str, rel: &str) -> (r: Option<String>)
    ensures
        !url_parse_ok(base@) ==> r is None,
        url_parse_ok(base@) ==> ((r is Some) == (url_joined(base@, rel@) is Some)),
        r matches Some(joined) ==> url_joined(base@, rel@) == Some(joined@),
{
    match url::Url::parse(base) {
        Ok(url) => match url.join(rel) {
            Ok(joined) => Some(joined.as_str().to_owned()),
            Err(_) => None,
        },
        Err(_) => None,
    }
}

} // verus!
