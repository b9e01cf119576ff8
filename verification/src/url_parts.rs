//! What the `url` crate reports of a parsed URL, as plain values.

use vstd::prelude::*;

use crate::text::no_ascii_upper;

verus! {

/// The host of a parsed URL.
#[derive(Debug)]
pub enum HostValue {
    Domain(String),
    Ipv4([u8; 4]),
    Ipv6([u16; 8]),
}

/// The view of a [`HostValue`].
pub enum HostValueView {
    Domain(Seq<char>),
    Ipv4([u8; 4]),
    Ipv6([u16; 8]),
}

impl View for HostValue {
    type V = HostValueView;

    open spec fn view(&self) -> HostValueView {
        match self {
            HostValue::Domain(d) => HostValueView::Domain(d@),
            HostValue::Ipv4(a) => HostValueView::Ipv4(*a),
            HostValue::Ipv6(a) => HostValueView::Ipv6(*a),
        }
    }
}

/// The components of a URL as the `url` crate parsed them.
#[derive(Debug)]
pub struct UrlParts {
    pub scheme: String,
    pub username: String,
    pub password: Option<String>,
    pub port: Option<u16>,
    pub path: String,
    pub query: Option<String>,
    pub fragment: Option<String>,
    pub host: Option<HostValue>,
}

/// The view of [`UrlParts`].
pub struct UrlView {
    pub scheme: Seq<char>,
    pub username: Seq<char>,
    pub password: Option<Seq<char>>,
    pub port: Option<u16>,
    pub path: Seq<char>,
    pub query: Option<Seq<char>>,
    pub fragment: Option<Seq<char>>,
    pub host: Option<HostValueView>,
}

/// The view of an optional string.
pub open spec fn opt_view(s: Option<String>) -> Option<Seq<char>> {
    match s {
        Some(t) => Some(t@),
        None => None,
    }
}

impl View for UrlParts {
    type V = UrlView;

    open spec fn view(&self) -> UrlView {
        UrlView {
            scheme: self.scheme@,
            username: self.username@,
            password: opt_view(self.password),
            port: self.port,
            path: self.path@,
            query: opt_view(self.query),
            fragment: opt_view(self.fragment),
            host: match self.host {
                Some(h) => Some(h@),
                None => None,
            },
        }
    }
}

/// The view of what [`parse_url`] returns: the components' view, or the text
/// of the error.
pub open spec fn parsed_view(r: Result<UrlParts, String>) -> Result<UrlView, Seq<char>> {
    match r {
        Ok(p) => Ok(p@),
        Err(e) => Err(e@),
    }
}

/// A domain that is the host of a URL with the scheme "http" or "https" is
/// lower-cased: it holds no ASCII upper-case letter.
pub open spec fn domain_host_lowercase(u: UrlView) -> bool {
    (u.scheme == "http"@ || u.scheme == "https"@) ==> match u.host {
        Some(HostValueView::Domain(d)) => no_ascii_upper(d),
        _ => true,
    }
}

/// What `url::Url::parse` makes of `input`: the URL's components, or the
/// text of the error. The WHATWG URL parsing and IDNA normalization that this
/// stands for are not written out here.
pub uninterp spec fn url_parse(input: Seq<char>) -> Result<UrlView, Seq<char>>;

/// `url::Url::parse`, followed by its accessors `scheme`, `username`,
/// `password`, `port`, `path`, `query`, `fragment` and `host`. The claims are
/// that the outcome is a function of `input` (named [`url_parse`]): the same
/// input always gives the same components or the same error text; and that a
/// domain host of an "http" or "https" URL is lower-cased. For these special
/// schemes the parser reads the host with `Host::parse_cow`, which passes it
/// to `idna::domain_to_ascii_from_cow`, documented as normalizing upper-case
/// to lower-case. Nothing else of the parsing is stated.
#[verifier::external_body]
pub fn parse_url(input: &str) -> (r: Result<UrlParts, String>)
    ensures
        match r {
            Ok(p) => url_parse(input@) == Ok::<UrlView, Seq<char>>(p@),
            Err(e) => url_parse(input@) == Err::<UrlView, Seq<char>>(e@),
        },
        r matches Ok(p) ==> domain_host_lowercase(p@),
{
    let u = url::Url::parse(input).map_err(|e| e.to_string())?;
    let host = u.host().map(|h| match h {
        url::Host::Domain(d) => HostValue::Domain(d.into()),
        url::Host::Ipv4(a) => HostValue::Ipv4(a.octets()),
        url::Host::Ipv6(a) => HostValue::Ipv6(a.segments())
    });
    Ok(UrlParts { scheme: u.scheme().into(), username: u.username().into(),
        password: u.password().map(Into::into), port: u.port(), path: u.path().into(),
        query: u.query().map(Into::into), fragment: u.fragment().map(Into::into), host })
}

} // verus!
