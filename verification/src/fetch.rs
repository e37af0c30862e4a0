use vstd::prelude::*;
use crate::batch::FetchError;
use crate::model::Asset;
use crate::urls::{url_file_name, url_last_segment, url_parse_ok, FileNameFault};

verus! {

/// An href of the local, post-download form: it starts with `./`.
pub open spec fn is_local_href(s: Seq<char>) -> bool {
    s.len() >= 2 && s[0] == '.' && s[1] == '/'
}

/// The href an asset carries after it has been downloaded next to its Item:
/// `./<file_name>`, relative, so the Item stays portable beside its assets.
pub fn local_href(file_name: &str) -> (r: String)
    ensures
        r@ == "./"@ + file_name@,
        is_local_href(r@),
{
    let mut s = String::from_str("./");
    s.append(file_name);
    proof {
        reveal_strlit("./");
    }
    s
}

/// The destination file name for an asset: the last path segment of its href
/// parsed as a URL. `InvalidUrl` exactly when the href is not an absolute
/// URL; `NoFileName` exactly when the URL offers no path segments. Both
/// errors hand the offending href back.
pub fn destination_file_name(href: &str) -> (r: Result<String, FetchError>)
    ensures
        r matches Ok(name) ==> url_parse_ok(href@) && url_file_name(href@) == Some(name@),
        (!url_parse_ok(href@)) == (r matches Err(e) && e is InvalidUrl),
        url_parse_ok(href@) ==> ((r matches Err(e) && e is NoFileName) == (url_file_name(href@)
            is None)),
        r matches Err(e) ==> (match e {
            FetchError::InvalidUrl(h) => h@ == href@,
            FetchError::NoFileName(h) => h@ == href@,
            _ => false,
        }),
{
    match url_last_segment(href) {
        Ok(name) => Ok(name),
        Err(FileNameFault::NotAUrl) => Err(FetchError::InvalidUrl(href.to_owned())),
        Err(FileNameFault::NoSegments) => Err(FetchError::NoFileName(href.to_owned())),
    }
}

/// Rewrite a downloaded asset's href to the local `./<file_name>` form; the
/// asset's other metadata is carried through unchanged.
pub fn relocate_asset(asset: &mut Asset, file_name: &str)
    ensures
        final(asset).href@ == "./"@ + file_name@,
        is_local_href(final(asset).href@),
        final(asset).title == old(asset).title,
        final(asset).media_type == old(asset).media_type,
        final(asset).roles == old(asset).roles,
{
    asset.href = local_href(file_name);
}

} // verus!
