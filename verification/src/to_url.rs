//! An owned or borrowed link or path that can be written as a URL.

use vstd::prelude::*;
use vstd::std_specs::convert::FromSpecImpl;

use crate::host::{Host};
use crate::link::{link_text, Link, LinkView};
use crate::path::{segment_views, PathBuf, PathSegment};

verus! {

/// An owned or borrowed [`Link`] or path which can be parsed as a URL.
pub enum ToUrl<'a> {
    Link(Link),
    LinkRef(&'a Link),
    Path(PathBuf),
    PathRef(&'a [PathSegment]),
}

/// The link that a [`ToUrl`] stands for.
pub open spec fn url_view(u: ToUrl) -> LinkView {
    match u {
        ToUrl::Link(l) => l@,
        ToUrl::LinkRef(l) => l@,
        ToUrl::Path(p) => LinkView { host: None, path: p@ },
        ToUrl::PathRef(p) => LinkView { host: None, path: segment_views(p@) },
    }
}

impl<'a> ToUrl<'a> {
    /// Construct a new [`Link`] from this URL.
    pub fn to_link(&self) -> (r: Link)
        ensures
            r@ == url_view(*self),
    {
        match self {
            ToUrl::Link(link) => link.clone(),
            ToUrl::LinkRef(link) => (*link).clone(),
            ToUrl::Path(path) => Link::from_parts(None, path.clone()),
            ToUrl::PathRef(path) => Link::from_parts(None, PathBuf::from_slice(path)),
        }
    }

    /// Borrow the [`Host`] component of this link, if any.
    pub fn host(&self) -> (r: Option<&Host>)
        ensures
            match r {
                Some(h) => url_view(*self).host == Some(h@),
                None => url_view(*self).host is None,
            },
    {
        match self {
            ToUrl::Link(link) => link.host(),
            ToUrl::LinkRef(link) => link.host(),
            _ => None,
        }
    }

    /// Borrow the path component of this link.
    pub fn path(&self) -> (r: &[PathSegment])
        ensures
            segment_views(r@) == url_view(*self).path,
    {
        match self {
            ToUrl::Link(link) => link.path().as_slice(),
            ToUrl::LinkRef(link) => link.path().as_slice(),
            ToUrl::Path(path) => path.as_slice(),
            ToUrl::PathRef(path) => path,
        }
    }

    /// This URL as text.
    pub fn to_string(&self) -> (r: String)
        ensures
            r@ == link_text(url_view(*self)),
    {
        match self {
            ToUrl::Link(link) => link.to_string(),
            ToUrl::LinkRef(link) => link.to_string(),
            ToUrl::Path(path) => path.to_string(),
            ToUrl::PathRef(path) => PathBuf::from_slice(path).to_string(),
        }
    }
}

impl<'a> From<Link> for ToUrl<'a> {
    fn from(link: Link) -> Self {
        ToUrl::Link(link)
    }
}

impl<'a> FromSpecImpl<Link> for ToUrl<'a> {
    open spec fn obeys_from_spec() -> bool {
        true
    }

    open spec fn from_spec(link: Link) -> Self {
        ToUrl::Link(link)
    }
}

impl<'a> From<&'a Link> for ToUrl<'a> {
    fn from(link: &'a Link) -> Self {
        ToUrl::LinkRef(link)
    }
}

impl<'a> FromSpecImpl<&'a Link> for ToUrl<'a> {
    open spec fn obeys_from_spec() -> bool {
        true
    }

    open spec fn from_spec(link: &'a Link) -> Self {
        ToUrl::LinkRef(link)
    }
}

impl<'a> From<PathBuf> for ToUrl<'a> {
    fn from(path: PathBuf) -> Self {
        ToUrl::Path(path)
    }
}

impl<'a> FromSpecImpl<PathBuf> for ToUrl<'a> {
    open spec fn obeys_from_spec() -> bool {
        true
    }

    open spec fn from_spec(path: PathBuf) -> Self {
        ToUrl::Path(path)
    }
}

impl<'a> From<&'a [PathSegment]> for ToUrl<'a> {
    fn from(path: &'a [PathSegment]) -> Self {
        ToUrl::PathRef(path)
    }
}

impl<'a> FromSpecImpl<&'a [PathSegment]> for ToUrl<'a> {
    open spec fn obeys_from_spec() -> bool {
        true
    }

    open spec fn from_spec(path: &'a [PathSegment]) -> Self {
        ToUrl::PathRef(path)
    }
}

} // verus!
