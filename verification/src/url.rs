//! URLs, as the `url` crate reads them.

use vstd::prelude::*;

verus! {

/// What the library reads of a URL.
#[derive(Debug)]
pub struct UrlParts {
    pub scheme: String,
    /// The host as it is written, if the URL has one.
    pub host: Option<String>,
    /// The whole URL.
    pub text: String,
}

/// The model of the parts of a URL.
pub struct UrlView {
    pub scheme: Seq<char>,
    pub host: Option<Seq<char>>,
    pub text: Seq<char>,
}

impl View for UrlParts {
    type V = UrlView;

    open spec fn view(&self) -> UrlView {
        UrlView {
            scheme: self.scheme@,
            host: match self.host {
                Some(host) => Some(host@),
                None => None,
            },
            text: self.text@,
        }
    }
}

/// What `url::Url::parse` makes of a text, or how its error reads.
pub uninterp spec fn url_parse(text: Seq<char>) -> Result<UrlView, Seq<char>>;

/// What `url::Url::join` makes of a reference relative to a base, or how its
/// error reads.
pub uninterp spec fn url_join(base: Seq<char>, reference: Seq<char>) -> Result<
    UrlView,
    Seq<char>,
>;

/// Whether a text is a URL.
pub open spec fn url_parses(text: Seq<char>) -> bool {
    url_parse(text) is Ok
}

/// `url::Url::parse`, with `scheme`, `host_str` and `as_str` of the URL, and the
/// text of the error.
#[verifier::external_body]
pub(crate) fn parse(text: &str) -> (r: Result<UrlParts, String>)
    ensures
        match r {
            Ok(parts) => url_parse(text@) == Ok::<UrlView, Seq<char>>(parts@),
            Err(e) => url_parse(text@) == Err::<UrlView, Seq<char>>(e@),
        },
{
    let url = url::Url::parse(text).map_err(|e| e.to_string())?;
    Ok(UrlParts {
        scheme: url.scheme().to_owned(),
        host: url.host_str().map(|host| host.to_owned()),
        text: url.as_str().to_owned(),
    })
}

/// `url::Url::join` on the URL that the base spells, with `scheme`, `host_str`
/// and `as_str` of the URL, and the text of the error.
#[verifier::external_body]
pub(crate) fn join(base: &str, reference: &str) -> (r: Result<UrlParts, String>)
    requires
        url_parses(base@),
    ensures
        match r {
            Ok(parts) => url_join(base@, reference@) == Ok::<UrlView, Seq<char>>(parts@),
            Err(e) => url_join(base@, reference@) == Err::<UrlView, Seq<char>>(e@),
        },
{
    let base = url::Url::parse(base).map_err(|e| e.to_string())?;
    let url = base.join(reference).map_err(|e| e.to_string())?;
    Ok(UrlParts {
        scheme: url.scheme().to_owned(),
        host: url.host_str().map(|host| host.to_owned()),
        text: url.as_str().to_owned(),
    })
}

/// Whether a text is a URL.
pub fn parses(text: &str) -> (r: bool)
    ensures
        r == url_parses(text@),
{
    parse(text).is_ok()
}

} // verus!
