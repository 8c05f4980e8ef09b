use vstd::prelude::*;

verus! {

/// Whether `url::Url::parse` accepts the text.
pub uninterp spec fn url_parses(text: Seq<char>) -> bool;

/// The serialisation of the URL parsed from `text` once `url::Url::set_host`
/// has given it the host `host`, or `None` where `set_host` refuses it.
pub uninterp spec fn url_host_set(text: Seq<char>, host: Seq<char>) -> Option<Seq<char>>;

/// Why a URL's host could not be replaced.
#[derive(Clone, Copy, Debug, PartialEq, Eq, Structural)]
pub enum UrlError {
    /// The text is not a URL.
    InvalidUrl,
    /// The URL cannot take the new host, or the host is not one.
    InvalidHost,
}

/// What replacing the host of the URL `text` by `host` gives.
pub open spec fn host_replaced(text: Seq<char>, host: Seq<char>) -> Result<Seq<char>, UrlError> {
    if !url_parses(text) {
        Err(UrlError::InvalidUrl)
    } else {
        match url_host_set(text, host) {
            Some(t) => Ok(t),
            None => Err(UrlError::InvalidHost),
        }
    }
}

/// The view of a result that holds a string.
pub open spec fn text_result_view<E>(r: Result<String, E>) -> Result<Seq<char>, E> {
    match r {
        Ok(s) => Ok(s@),
        Err(e) => Err(e),
    }
}

/// Relies on url::Url::parse, url::Url::set_host and the URL's conversion into
/// its serialisation: parse the text, set the host, hand the text back.
#[verifier::external_body]
fn set_url_host(text: &str, host: &str) -> (r: Result<String, UrlError>)
    ensures
        !url_parses(text@) ==> r is Err && r->Err_0 == UrlError::InvalidUrl,
        url_parses(text@) ==> match url_host_set(text@, host@) {
            Some(t) => r is Ok && r->Ok_0@ == t,
            None => r is Err && r->Err_0 == UrlError::InvalidHost,
        },
{
    let mut url = url::Url::parse(text).map_err(|_| UrlError::InvalidUrl)?;
    url.set_host(Some(host)).map_err(|_| UrlError::InvalidHost)?;
    Ok(String::from(url))
}

/// Replaces the host of the URL `url` by `new_host`, keeping its scheme,
/// port, path, query and fragment as the URL parser serialises them.
pub fn rewrite_host(url: &str, new_host: &str) -> (r: Result<String, UrlError>)
    ensures
        text_result_view(r) == host_replaced(url@, new_host@),
{
    set_url_host(url, new_host)
}

} // verus!
