//! Files the operating system asks Lumia to open by URL.
use vstd::prelude::*;

verus! {

/// Whether `url::Url::parse` accepts the text as a URL.
pub uninterp spec fn url_parses(text: Seq<char>) -> bool;

/// Reads a file path from a URL with `url::Url::parse` and
/// `Url::to_file_path`. Trusted: a path comes back only for text that
/// parses as a URL, and it is not empty. Which path a URL gives is not
/// stated: `to_file_path` follows the rules of the platform it was built
/// for (drive letters and `\\host` shares on Windows, `/`-rooted paths
/// elsewhere).
#[verifier::external_body]
fn url_to_file_path(url: &str) -> (result: Option<String>)
    ensures
        result matches Some(path) ==> url_parses(url@) && path@.len() > 0,
{
    let path = url::Url::parse(url).ok()?.to_file_path().ok()?;
    path.into_os_string().into_string().ok()
}

/// The local file a URL names, if it names one: none for text that is not
/// a URL; the path follows the platform's rules, so only that it is not
/// empty is stated.
pub fn file_path(url: &str) -> (result: Option<String>)
    ensures
        result matches Some(path) ==> url_parses(url@) && path@.len() > 0,
{
    url_to_file_path(url)
}

} // verus!
