//! URLs of external sources, parsed by the `url` crate. The library reads a
//! parsed URL through its text parts; parsing, joining, path replacement and
//! query building are the `url` crate's work.
use vstd::prelude::*;

verus! {

#[verifier::external_type_specification]
#[verifier::external_body]
pub struct ExUrl(url::Url);

/// A parsed URL and the parts of it that the library reads.
#[derive(Debug)]
pub struct ParsedUrl {
    url: url::Url,
    href: String,
    scheme: String,
    domain: Option<String>,
    port: Option<u16>,
    path: String,
}

/// The text parts of a URL: its serialization, scheme, domain, port (or the
/// scheme's default port) and path.
pub type UrlParts = (Seq<char>, Seq<char>, Option<Seq<char>>, Option<u16>, Seq<char>);

/// What `url::Url::parse` yields for `text`, read through `UrlParts`;
/// `None` when it rejects the text.
pub uninterp spec fn url_parse_parts(text: Seq<char>) -> Option<(Seq<char>, Seq<char>, Option<Seq<char>>, Option<u16>, Seq<char>)>;

/// What `Url::join` yields for the URL serialized as `base` and `input`.
pub uninterp spec fn url_join_parts(base: Seq<char>, input: Seq<char>) -> Option<(Seq<char>, Seq<char>, Option<Seq<char>>, Option<u16>, Seq<char>)>;

/// The URL serialized as `base` after `Url::set_path(path)`.
pub uninterp spec fn url_set_path_parts(base: Seq<char>, path: Seq<char>) -> (Seq<char>, Seq<char>, Option<Seq<char>>, Option<u16>, Seq<char>);

/// The URL serialized as `base` after appending the form-encoded `pairs`
/// to its query with `query_pairs_mut().extend_pairs(..)`.
pub uninterp spec fn url_extend_pairs_parts(base: Seq<char>, pairs: Seq<(Seq<char>, Seq<char>)>) -> (Seq<char>, Seq<char>, Option<Seq<char>>, Option<u16>, Seq<char>);

impl ParsedUrl {
    /// The URL's parts.
    pub closed spec fn parts(&self) -> UrlParts {
        (self.href@, self.scheme@, crate::text::opt_text(self.domain), self.port, self.path@)
    }

    /// The serialization (`Url::as_str`).
    pub fn as_str(&self) -> (r: &str)
        ensures
            r@ == self.parts().0,
    {
        self.href.as_str()
    }

    /// The scheme.
    pub fn scheme(&self) -> (r: &str)
        ensures
            r@ == self.parts().1,
    {
        self.scheme.as_str()
    }

    /// The domain, for URLs whose host is a domain.
    pub fn domain(&self) -> (r: Option<&str>)
        ensures
            match r {
                Some(d) => self.parts().2 == Some(d@),
                None => self.parts().2 is None,
            },
    {
        match &self.domain {
            Some(d) => Some(d.as_str()),
            None => None,
        }
    }

    /// The port, or the scheme's default port.
    pub fn port_or_known_default(&self) -> (r: Option<u16>)
        ensures
            r == self.parts().3,
    {
        self.port
    }

    /// The path.
    pub fn path(&self) -> (r: &str)
        ensures
            r@ == self.parts().4,
    {
        self.path.as_str()
    }
}

/// Parses `text` with `url::Url::parse`. The contract claims that the parts
/// are those `url_parse_parts` names for the text, and that an error (with
/// the parser's message) comes exactly when that is `None`.
#[verifier::external_body]
pub(crate) fn parse_url(text: &str) -> (r: Result<ParsedUrl, String>)
    ensures
        match r {
            Ok(u) => url_parse_parts(text@) == Some(u.parts()),
            Err(_) => url_parse_parts(text@) is None,
        },
{
    url::Url::parse(text).map(|url| ParsedUrl {
            href: String::from(url.as_str()),
            scheme: String::from(url.scheme()),
            domain: url.domain().map(String::from),
            port: url.port_or_known_default(),
            path: String::from(url.path()),
            url,
        }).map_err(|error| error.to_string())
}

/// Resolves `input` against `base` with `Url::join`. The contract claims
/// that the parts are those `url_join_parts` names for the base's
/// serialization and the input, and that an error comes exactly when that
/// is `None`.
#[verifier::external_body]
pub(crate) fn join_url(base: &ParsedUrl, input: &str) -> (r: Result<ParsedUrl, String>)
    ensures
        match r {
            Ok(u) => url_join_parts(base.parts().0, input@) == Some(u.parts()),
            Err(_) => url_join_parts(base.parts().0, input@) is None,
        },
{
    base.url.join(input).map(|url| ParsedUrl {
            href: String::from(url.as_str()),
            scheme: String::from(url.scheme()),
            domain: url.domain().map(String::from),
            port: url.port_or_known_default(),
            path: String::from(url.path()),
            url,
        }).map_err(|error| error.to_string())
}

/// Replaces the path of `base` with `Url::set_path`. The contract claims the
/// parts that `url_set_path_parts` names.
#[verifier::external_body]
pub(crate) fn with_path(base: ParsedUrl, path: &str) -> (r: ParsedUrl)
    ensures
        r.parts() == url_set_path_parts(base.parts().0, path@),
{
    let mut url = base.url;
    url.set_path(path);
    ParsedUrl {
        href: String::from(url.as_str()),
        scheme: String::from(url.scheme()),
        domain: url.domain().map(String::from),
        port: url.port_or_known_default(),
        path: String::from(url.path()),
        url,
    }
}

/// Appends `pairs` to the query of `base` with
/// `query_pairs_mut().extend_pairs(..)`. The contract claims the parts that
/// `url_extend_pairs_parts` names.
#[verifier::external_body]
pub(crate) fn with_query_pairs(base: &ParsedUrl, pairs: &Vec<(String, String)>) -> (r: ParsedUrl)
    ensures
        r.parts() == url_extend_pairs_parts(
            base.parts().0,
            pairs@.map_values(|p: (String, String)| (p.0@, p.1@)),
        ),
{
    let mut url = base.url.clone();
    url.query_pairs_mut().extend_pairs(pairs.iter());
    ParsedUrl {
        href: String::from(url.as_str()),
        scheme: String::from(url.scheme()),
        domain: url.domain().map(String::from),
        port: url.port_or_known_default(),
        path: String::from(url.path()),
        url,
    }
}

/// Copies a parsed URL (`url::Url::clone`). The contract claims that the
/// copy has the same parts.
#[verifier::external_body]
pub(crate) fn copy_url(u: &ParsedUrl) -> (r: ParsedUrl)
    ensures
        r.parts() == u.parts(),
{
    let url = u.url.clone();
    ParsedUrl {
        href: String::from(url.as_str()),
        scheme: String::from(url.scheme()),
        domain: url.domain().map(String::from),
        port: url.port_or_known_default(),
        path: String::from(url.path()),
        url,
    }
}

/// What `String::from_utf8_lossy` makes of `bytes`.
pub uninterp spec fn utf8_lossy_text(bytes: Seq<u8>) -> Seq<char>;

/// Decodes `bytes` as UTF-8, replacing invalid sequences
/// (`String::from_utf8_lossy`). The contract names the text by
/// `utf8_lossy_text`.
#[verifier::external_body]
pub(crate) fn utf8_lossy(bytes: &[u8]) -> (r: String)
    ensures
        r@ == utf8_lossy_text(bytes@),
{
    String::from_utf8_lossy(bytes).into_owned()
}

impl ParsedUrl {
    /// Parses an absolute URL.
    pub fn parse(text: &str) -> (r: Result<ParsedUrl, String>)
        ensures
            match r {
                Ok(u) => url_parse_parts(text@) == Some(u.parts()),
                Err(_) => url_parse_parts(text@) is None,
            },
    {
        parse_url(text)
    }
}

} // verus!
