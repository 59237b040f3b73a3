//! The authentication handle of a WebDAV endpoint: its base URL, the Basic
//! credential it sends, and a fingerprint of that credential for comparison.

use base64::Engine;
use sha2::Digest;
use vstd::prelude::*;
use vstd::string::StringExecFns;

use crate::url::{format_base_url, resolve_under, spec_base_url, stays_under, url_join, url_parse, UrlParts, UrlView};

verus! {

/// What base64's standard engine (with padding) makes of the UTF-8 bytes of a string.
pub uninterp spec fn base64_of(s: Seq<char>) -> Seq<char>;

/// The lowercase hex SHA-256 digest of the UTF-8 bytes of a string.
pub uninterp spec fn sha256_hex_of(s: Seq<char>) -> Seq<char>;

/// Relies on `base64::engine::general_purpose::STANDARD.encode`: standard
/// alphabet with padding, over the string's UTF-8 bytes.
#[verifier::external_body]
fn encode_base64(s: &str) -> (r: String)
    ensures
        r@ == base64_of(s@),
{
    base64::engine::general_purpose::STANDARD.encode(s)
}

/// Relies on `sha2::Sha256::digest` over the string's UTF-8 bytes, rendered
/// as lowercase hex.
#[verifier::external_body]
fn sha256_hex(s: &str) -> (r: String)
    ensures
        r@ == sha256_hex_of(s@),
{
    format!("{:x}", sha2::Sha256::digest(s.as_bytes()))
}

/// The credential string `username:password`.
pub open spec fn credential(username: Seq<char>, password: Seq<char>) -> Seq<char> {
    username + seq![':'] + password
}

/// Access to one WebDAV endpoint. Two handles are equal when their base URLs
/// and fingerprints are; the credential itself is never compared.
pub struct WebdavAuth {
    base_url: UrlParts,
    token: String,
    encrypted_token: String,
}

impl WebdavAuth {
    /// The endpoint's base URL, whose path ends with `/`.
    pub closed spec fn base(&self) -> UrlView {
        self.base_url.view()
    }

    /// The base64 credential the handle authenticates with.
    pub closed spec fn spec_token(&self) -> Seq<char> {
        self.token@
    }

    /// The fingerprint: hex SHA-256 of the base64 credential.
    pub closed spec fn fingerprint(&self) -> Seq<char> {
        self.encrypted_token@
    }

    /// A handle for `username` and `password` at `base_url`. The base URL
    /// must parse; a `/` is put after its path when it has none.
    pub fn new(username: &str, password: &str, base_url: &str) -> (r: Result<Self, String>)
        ensures
            r is Ok <==> spec_base_url(base_url@) is Some,
            base_url@.len() > 0 && url_parse(base_url@) is Some ==> r is Ok,
            r matches Ok(a) ==> {
                &&& Some(a.base()) == spec_base_url(base_url@)
                &&& a.spec_token() == base64_of(credential(username@, password@))
                &&& a.fingerprint() == sha256_hex_of(base64_of(credential(username@, password@)))
            },
    {
        let mut cred = String::from_str(username);
        cred.append(":");
        cred.append(password);
        proof {
            reveal_strlit(":");
            assert(cred@ =~= credential(username@, password@));
        }
        let token = encode_base64(cred.as_str());
        let encrypted_token = sha256_hex(token.as_str());
        let base = match format_base_url(base_url) {
            Ok(u) => u,
            Err(e) => {
                return Err(e);
            },
        };
        Ok(WebdavAuth { base_url: base, token, encrypted_token })
    }

    /// The value of the `Authorization` header: `Basic <credential>`.
    pub fn authorization(&self) -> (r: String)
        ensures
            r@ == seq!['B', 'a', 's', 'i', 'c', ' '] + self.spec_token(),
    {
        let mut h = String::from_str("Basic ");
        h.append(self.token.as_str());
        proof {
            reveal_strlit("Basic ");
            assert(h@ =~= seq!['B', 'a', 's', 'i', 'c', ' '] + self.token@);
        }
        h
    }

    /// The endpoint's base URL.
    pub fn base_url(&self) -> (r: &UrlParts)
        ensures
            r.view() == self.base(),
    {
        &self.base_url
    }

    /// Whether two handles carry the same credential.
    pub fn eq_only_token(&self, other: &Self) -> (r: bool)
        ensures
            r == (self.fingerprint() == other.fingerprint()),
    {
        self.encrypted_token.eq(&other.encrypted_token)
    }

    /// Whether two handles have the same base URL and the same credential.
    pub fn same_endpoint(&self, other: &Self) -> (r: bool)
        ensures
            r == (self.base().0 == other.base().0 && self.fingerprint()
                == other.fingerprint()),
    {
        self.base_url.href.eq(&other.base_url.href) && self.encrypted_token.eq(&other.encrypted_token)
    }

    /// A second handle to the same endpoint with the same credential.
    pub fn duplicate(&self) -> (r: Self)
        ensures
            r.base() == self.base(),
            r.spec_token() == self.spec_token(),
            r.fingerprint() == self.fingerprint(),
    {
        WebdavAuth {
            base_url: UrlParts {
                href: self.base_url.href.clone(),
                scheme: self.base_url.scheme.clone(),
                host: crate::text::copy_opt_str(&self.base_url.host),
                path: self.base_url.path.clone(),
            },
            token: self.token.clone(),
            encrypted_token: self.encrypted_token.clone(),
        }
    }
}

/// Resolves `path` against the handle's base URL, refusing a path that does
/// not resolve or that leaves the base URL (a parent directory).
pub fn format_url_path(webdav_auth: &WebdavAuth, path: &str) -> (r: Result<String, String>)
    ensures
        r is Ok <==> (url_join(webdav_auth.base().0, path@) matches Some(j) && stays_under(
            webdav_auth.base(),
            j,
        )),
        r matches Ok(s) ==> url_join(webdav_auth.base().0, path@) matches Some(j) && s@ == j.0,
{
    resolve_under(&webdav_auth.base_url, path)
}

impl PartialEq for WebdavAuth {
    fn eq(&self, other: &WebdavAuth) -> (r: bool) {
        self.same_endpoint(other)
    }
}

impl vstd::std_specs::cmp::PartialEqSpecImpl for WebdavAuth {
    open spec fn obeys_eq_spec() -> bool {
        true
    }

    open spec fn eq_spec(&self, other: &WebdavAuth) -> bool {
        self.base().0 == other.base().0 && self.fingerprint() == other.fingerprint()
    }
}

} // verus!
