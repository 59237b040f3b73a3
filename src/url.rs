//! URLs as the parts the library reads, and the joins that keep every
//! request under the base URL.

use vstd::prelude::*;
use vstd::string::StringExecFns;

use crate::text::{ends_with_char, has_prefix, opt_view, same_opt_str};

verus! {

/// A parsed absolute URL: its serialization and the parts that are checked.
#[derive(Debug, Clone)]
pub struct UrlParts {
    pub href: String,
    pub scheme: String,
    pub host: Option<String>,
    pub path: String,
}

/// The parts of a URL as character sequences: serialization, scheme, host, path.
pub type UrlView = (Seq<char>, Seq<char>, Option<Seq<char>>, Seq<char>);

impl UrlParts {
    pub open spec fn view(&self) -> UrlView {
        (self.href@, self.scheme@, opt_view(self.host), self.path@)
    }
}

/// The view of an optional parsed URL.
pub open spec fn opt_url_view(o: Option<UrlParts>) -> Option<UrlView> {
    match o {
        Some(u) => Some(u.view()),
        None => None,
    }
}

/// What the url crate makes of a string as an absolute URL.
pub uninterp spec fn url_parse(s: Seq<char>) -> Option<UrlView>;

/// What the url crate makes of `rel` resolved against the URL `base`.
pub uninterp spec fn url_join(base: Seq<char>, rel: Seq<char>) -> Option<UrlView>;

/// What the url crate makes of the URL serialized as `href` with its path
/// set to `path` (nothing when `href` does not parse).
pub uninterp spec fn url_set_path(href: Seq<char>, path: Seq<char>) -> Option<UrlView>;

/// Relies on `url::Url::parse`: parses an absolute URL; its parts are read
/// with `as_str`, `scheme`, `host_str` and `path`. A parsed URL's
/// serialization parses again (the crate checks this of every URL it builds).
#[verifier::external_body]
fn parse_url(s: &str) -> (r: Option<UrlParts>)
    ensures
        opt_url_view(r) == url_parse(s@),
        r matches Some(u) ==> url_parse(u.href@) is Some,
{
    match url::Url::parse(s) {
        Ok(u) => Some(UrlParts {
            href: u.as_str().to_string(),
            scheme: u.scheme().to_string(),
            host: u.host_str().map(|h| h.to_string()),
            path: u.path().to_string(),
        }),
        Err(_) => None,
    }
}

/// Relies on `url::Url::join`: resolves `rel` against the URL serialized as
/// `base`, which is parsed back (a serialized URL parses to itself).
#[verifier::external_body]
fn join_url(base: &str, rel: &str) -> (r: Option<UrlParts>)
    ensures
        opt_url_view(r) == url_join(base@, rel@),
{
    match url::Url::parse(base).and_then(|b| b.join(rel)) {
        Ok(u) => Some(UrlParts {
            href: u.as_str().to_string(),
            scheme: u.scheme().to_string(),
            host: u.host_str().map(|h| h.to_string()),
            path: u.path().to_string(),
        }),
        Err(_) => None,
    }
}

/// Relies on `url::Url::set_path`: the URL serialized as `href`, parsed
/// back, with its path replaced by `path`.
#[verifier::external_body]
fn set_url_path(href: &str, path: &str) -> (r: Option<UrlParts>)
    ensures
        opt_url_view(r) == url_set_path(href@, path@),
        url_parse(href@) is Some ==> r is Some,
{
    let mut u = url::Url::parse(href).ok()?;
    u.set_path(path);
    Some(UrlParts {
        href: u.as_str().to_string(),
        scheme: u.scheme().to_string(),
        host: u.host_str().map(|h| h.to_string()),
        path: u.path().to_string(),
    })
}

/// The serialization of `rel` resolved against the URL `base`, if it resolves.
pub fn join_href(base: &str, rel: &str) -> (r: Option<String>)
    ensures
        r matches Some(h) ==> url_join(base@, rel@) matches Some(j) && h@ == j.0,
        r is None <==> url_join(base@, rel@) is None,
{
    match join_url(base, rel) {
        Some(j) => Some(j.href),
        None => None,
    }
}

/// The base URL of `s`: parsed, with a `/` put after its path when it has
/// none. Empty or unparsable input is an error.
pub open spec fn spec_base_url(s: Seq<char>) -> Option<UrlView> {
    if s.len() == 0 {
        None
    } else {
        match url_parse(s) {
            None => None,
            Some(u) => if u.3.len() > 0 && u.3.last() == '/' {
                Some(u)
            } else {
                url_set_path(u.0, u.3.push('/'))
            },
        }
    }
}

/// Parses the base URL of a WebDAV endpoint, making its path end with `/`.
pub fn format_base_url(s: &str) -> (r: Result<UrlParts, String>)
    ensures
        r is Ok <==> spec_base_url(s@) is Some,
        s@.len() > 0 && url_parse(s@) is Some ==> r is Ok,
        r matches Ok(u) ==> Some(u.view()) == spec_base_url(s@),
{
    if s.unicode_len() == 0 {
        return Err(String::from_str("empty URL"));
    }
    match parse_url(s) {
        None => Err(String::from_str("invalid URL")),
        Some(u) => {
            if ends_with_char(u.path.as_str(), '/') {
                Ok(u)
            } else {
                let mut p = u.path.clone();
                p.append("/");
                proof {
                    reveal_strlit("/");
                    assert(p@ =~= u.path@.push('/'));
                }
                match set_url_path(u.href.as_str(), p.as_str()) {
                    Some(v) => Ok(v),
                    None => Err(String::from_str("invalid URL")),
                }
            }
        },
    }
}

/// Whether a resolved URL stays under `base`: its serialization starts with
/// the base's, and it has the base's scheme and host and a path under the
/// base's path.
pub open spec fn stays_under(base: UrlView, joined: UrlView) -> bool {
    &&& base.0.is_prefix_of(joined.0)
    &&& joined.1 == base.1
    &&& joined.2 == base.2
    &&& base.3.is_prefix_of(joined.3)
}

/// Resolves `path` against the base URL. It is refused when it does not
/// resolve or when the result leaves the base URL.
pub fn resolve_under(base: &UrlParts, path: &str) -> (r: Result<String, String>)
    ensures
        r is Ok <==> (url_join(base.href@, path@) matches Some(j) && stays_under(base.view(), j)),
        r matches Ok(s) ==> url_join(base.href@, path@) matches Some(j) && s@ == j.0,
{
    let joined = match join_url(base.href.as_str(), path) {
        Some(j) => j,
        None => {
            return Err(String::from_str("invalid path"));
        },
    };
    if !has_prefix(joined.href.as_str(), base.href.as_str()) {
        return Err(String::from_str("invalid path"));
    }
    if !joined.scheme.eq(&base.scheme) || !same_opt_str(&joined.host, &base.host) || !has_prefix(
        joined.path.as_str(),
        base.path.as_str(),
    ) {
        return Err(String::from_str("parent directory not allowed"));
    }
    Ok(joined.href)
}

} // verus!
