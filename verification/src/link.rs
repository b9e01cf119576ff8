//! Links: an optional host followed by a path.

use vstd::prelude::*;
use vstd::std_specs::cmp::PartialEqSpecImpl;
use vstd::std_specs::convert::FromSpecImpl;
use vstd::string::StringExecFns;

use crate::error::ParseError;
use crate::address::address_ok;
use crate::host::{
    host_domain_lowercase, host_text, lemma_host_text_parse, lemma_host_text_protocol, lemma_host_text_tail, spec_parse_host,
    url_reports, Host, HostView,
};
use crate::path::{
    lemma_parse_valid_segments, lemma_path_text_parse, lemma_segments_text_split, parse_segments,
    path_text, piece_views, segment_char_ok, segment_views, segments_text, spec_parse_path,
    spec_parse_segments, valid_path, valid_segment, PathBuf, PathSegment,
};
use crate::protocol::{spec_protocol, Protocol};
use crate::text::{
    chars_of, find_first, find_sep, first_index, first_sep, lemma_first_index_at,
    lemma_first_index_none, lemma_first_sep_at, sep_at, slice_chars, split, split_char, string_of,
    strip_last,
};
use crate::url_parts::{url_parse, UrlView};

verus! {

/// Where a link points: to a host, or to a path on the local host.
#[derive(Debug, Eq, Hash, PartialEq, PartialOrd, Ord)]
enum Origin {
    Remote(Host),
    Local,
}

/// An HTTP or HTTPS Link with an optional host and a path.
#[derive(Debug, Eq, Hash, PartialEq, Ord)]
pub struct Link {
    origin: Origin,
    path: PathBuf,
}

/// The view of a [`Link`].
pub struct LinkView {
    pub host: Option<HostView>,
    pub path: Seq<Seq<char>>,
}

impl View for Link {
    type V = LinkView;

    closed spec fn view(&self) -> LinkView {
        LinkView {
            host: match self.origin {
                Origin::Remote(h) => Some(h@),
                Origin::Local => None,
            },
            path: self.path@,
        }
    }
}

/// The text of a link: the host's text followed by the path's text.
pub open spec fn link_text(l: LinkView) -> Seq<char> {
    match l.host {
        Some(h) => host_text(h) + path_text(l.path),
        None => path_text(l.path),
    }
}

/// The message of the error for a string `s` that does not start with a
/// known protocol.
pub open spec fn link_protocol_error(s: Seq<char>) -> Seq<char> {
    "cannot parse "@ + s + " as a Link: invalid protocol"@
}

/// A link whose host's address is a domain name holds that name lower-cased.
pub open spec fn link_domain_lowercase(l: LinkView) -> bool {
    match l.host {
        Some(h) => host_domain_lowercase(h),
        None => true,
    }
}

/// Parsing `s` as a link does not finish: `s` is a known protocol followed by
/// "://" and nothing else.
pub open spec fn link_parse_panics(s: Seq<char>) -> bool {
    &&& !(s.len() > 0 && s[0] == '/')
    &&& first_sep(s) matches Some(i)
    &&& spec_protocol(s.take(i)) is Some
    &&& s.len() == i + 3
}

/// The host text and the path pieces of a link string `t` (without a
/// trailing '/') whose first "://" is at `i`: the host is everything before
/// the first '/' after the "://", and the pieces are what follows it, split
/// at '/'.
pub open spec fn link_parts(t: Seq<char>, i: int) -> (Seq<char>, Seq<Seq<char>>) {
    let rest = t.skip(i + 3);
    match first_index(rest, '/') {
        None => (t, Seq::<Seq<char>>::empty()),
        Some(j) => (t.take(i + 3 + j), split_char(rest.skip(j + 1), '/')),
    }
}

/// What parsing `s` as a link gives: a path when `s` starts with '/';
/// otherwise a host (what precedes the first '/' after "://", once one
/// trailing '/' is removed) and the segments after it. `Err` holds the message
/// of the error.
pub open spec fn spec_parse_link(s: Seq<char>) -> Result<LinkView, Seq<char>> {
    if s.len() > 0 && s[0] == '/' {
        match spec_parse_path(s) {
            Ok(p) => Ok(LinkView { host: None, path: p }),
            Err(e) => Err(e),
        }
    } else {
        match first_sep(s) {
            None => Err(link_protocol_error(s)),
            Some(i) => if spec_protocol(s.take(i)) is None {
                Err(link_protocol_error(s))
            } else {
                let parts = link_parts(strip_last(s, '/'), i);
                match spec_parse_host(parts.0) {
                    Err(e) => Err(e),
                    Ok(h) => match spec_parse_segments(parts.1) {
                        Err(e) => Err(e),
                        Ok(p) => Ok(LinkView { host: Some(h), path: p }),
                    },
                }
            },
        }
    }
}

impl Link {
    /// Create a new [`Link`] with the given [`Host`] and [`PathBuf`].
    pub fn new(host: Host, path: PathBuf) -> (r: Self)
        ensures
            r@ == (LinkView { host: Some(host@), path: path@ }),
    {
        Link { origin: Origin::Remote(host), path }
    }

    /// The link with an optional host and a path.
    pub closed spec fn spec_from_parts(host: Option<Host>, path: PathBuf) -> Link {
        match host {
            Some(h) => Link { origin: Origin::Remote(h), path },
            None => Link { origin: Origin::Local, path },
        }
    }

    /// The view of a link built from parts is made of their views.
    pub broadcast proof fn lemma_spec_from_parts(host: Option<Host>, path: PathBuf)
        ensures
            #[trigger] Link::spec_from_parts(host, path)@ == (LinkView {
                host: match host {
                    Some(h) => Some(h@),
                    None => None::<HostView>,
                },
                path: path@,
            }),
    {
    }

    /// A link to the root path of `host`.
    pub fn from_host(host: Host) -> (r: Self)
        ensures
            r@ == (LinkView { host: Some(host@), path: Seq::<Seq<char>>::empty() }),
    {
        Link { origin: Origin::Remote(host), path: PathBuf::new() }
    }

    /// A link with an optional host and a path.
    pub fn from_parts(host: Option<Host>, path: PathBuf) -> (r: Self)
        ensures
            r == Link::spec_from_parts(host, path),
            r@ == (LinkView {
                host: match host {
                    Some(h) => Some(h@),
                    None => None::<HostView>,
                },
                path: path@,
            }),
    {
        match host {
            Some(h) => Link { origin: Origin::Remote(h), path },
            None => Link { origin: Origin::Local, path },
        }
    }

    /// Consume this [`Link`] and return its [`Host`] and [`PathBuf`].
    pub fn into_inner(self) -> (r: (Option<Host>, PathBuf))
        ensures
            r.1@ == self@.path,
            match r.0 {
                Some(h) => self@.host == Some(h@),
                None => self@.host is None,
            },
    {
        match self.origin {
            Origin::Remote(h) => (Some(h), self.path),
            Origin::Local => (None, self.path),
        }
    }

    /// Consume this [`Link`] and return its [`Host`].
    pub fn into_host(self) -> (r: Option<Host>)
        ensures
            match r {
                Some(h) => self@.host == Some(h@),
                None => self@.host is None,
            },
    {
        self.into_inner().0
    }

    /// Consume this [`Link`] and return its [`PathBuf`].
    pub fn into_path(self) -> (r: PathBuf)
        ensures
            r@ == self@.path,
    {
        self.path
    }

    /// Borrow this [`Link`]'s [`Host`], if it has one.
    pub fn host(&self) -> (r: Option<&Host>)
        ensures
            match r {
                Some(h) => self@.host == Some(h@),
                None => self@.host is None,
            },
    {
        match &self.origin {
            Origin::Remote(h) => Some(h),
            Origin::Local => None,
        }
    }

    /// Borrow this [`Link`]'s path.
    pub fn path(&self) -> (r: &PathBuf)
        ensures
            r@ == self@.path,
    {
        &self.path
    }

    /// Borrow this [`Link`]'s path mutably.
    pub fn path_mut(&mut self) -> (r: &mut PathBuf)
        ensures
            r@ == old(self)@.path,
            final(self)@ == (LinkView { host: old(self)@.host, path: final(r)@ }),
    {
        &mut self.path
    }

    /// Append the given [`PathSegment`] to this [`Link`] and return it.
    pub fn append(self, segment: PathSegment) -> (r: Self)
        ensures
            r@ == (LinkView { host: self@.host, path: self@.path.push(segment@) }),
    {
        let Link { origin, path } = self;
        Link { origin, path: path.append(segment) }
    }

    /// Append each of `segments` to this link's path, in order.
    pub fn extend(&mut self, segments: Vec<PathSegment>)
        ensures
            final(self)@ == (LinkView { host: old(self)@.host, path: old(self)@.path + segment_views(segments@) }),
    {
        self.path.extend(segments);
    }
}

/// A link text that does not start or end with '/' parses as the same text
/// followed by one '/': when either of the two parses, both give the same
/// link. (Only the message of an unknown protocol, which quotes the text,
/// differs between them.)
pub proof fn lemma_link_trailing_slash(s: Seq<char>)
    requires
        s.len() > 0,
        s[0] != '/',
        s.last() != '/',
    ensures
        spec_parse_link(s) is Ok ==> spec_parse_link(s + seq!['/']) == spec_parse_link(s),
        spec_parse_link(s + seq!['/']) is Ok ==> spec_parse_link(s + seq!['/']) == spec_parse_link(s),
        first_sep(s) matches Some(i) && spec_protocol(s.take(i)) is Some ==> spec_parse_link(
            s + seq!['/'],
        ) == spec_parse_link(s),
{
    let t = s + seq!['/'];
    assert(t.drop_last() =~= s);
    assert(t[0] == s[0]);
    assert(t.last() == '/');
    assert(strip_last(t, '/') == s);
    assert(strip_last(s, '/') == s);
    if t.len() >= 3 {
        assert(!sep_at(t, t.len() - 3)) by {
            assert(t[t.len() - 2] == s.last());
        }
    }
    assert(first_sep(t) == first_sep(s));
    crate::text::lemma_first_sep(s);
    if let Some(i) = first_sep(s) {
        assert(t.take(i) =~= s.take(i));
    }
}

/// The text of a host, with no path after it, parses as a link to that host
/// with the empty path, whenever the URL parser reports for that text the
/// host's own scheme and address and nothing else.
pub proof fn lemma_host_text_link(h: HostView, u: UrlView)
    requires
        address_ok(h.address),
        url_parse(host_text(h)) == Ok::<UrlView, Seq<char>>(u),
        url_reports(u, h),
    ensures
        spec_parse_link(host_text(h)) == Ok::<LinkView, Seq<char>>(
            LinkView { host: Some(h), path: Seq::<Seq<char>>::empty() },
        ),
{
    let l = LinkView { host: Some(h), path: Seq::<Seq<char>>::empty() };
    lemma_link_text_parse(l, u);
    let ht = host_text(h);
    let n = h.protocol.scheme().len() as int;
    assert(path_text(l.path) =~= seq!['/']);
    assert(link_text(l) == ht + seq!['/']);
    lemma_host_text_protocol(h);
    lemma_host_text_tail(h);
    reveal_strlit("http");
    reveal_strlit("https");
    assert(ht[0] == ht.take(n)[0]);
    assert(ht.last() == ht.skip(n + 3)[ht.len() - n - 4]);
    lemma_link_trailing_slash(ht);
}

/// Reading the text of a link without a host back gives the same link.
pub proof fn lemma_local_link_text_parse(l: LinkView)
    requires
        l.host is None,
        valid_path(l.path),
    ensures
        spec_parse_link(link_text(l)) == Ok::<LinkView, Seq<char>>(l),
{
    lemma_path_text_parse(l.path);
    if l.path.len() > 0 {
        lemma_segments_text_split(l.path);
    }
}

/// Reading the text of a link with a host back gives the same link, whenever
/// the URL parser reports for the host's text that host's own scheme and
/// address and nothing else.
#[verifier::spinoff_prover]
#[verifier::rlimit(40)]
pub proof fn lemma_link_text_parse(l: LinkView, u: UrlView)
    requires
        l.host is Some,
        address_ok(l.host->0.address),
        valid_path(l.path),
        url_parse(host_text(l.host->0)) == Ok::<UrlView, Seq<char>>(u),
        url_reports(u, l.host->0),
    ensures
        spec_parse_link(link_text(l)) == Ok::<LinkView, Seq<char>>(l),
{
    let h = l.host->0;
    let ht = host_text(h);
    let p = l.path;
    let s = link_text(l);
    let n = h.protocol.scheme().len() as int;
    lemma_host_text_protocol(h);
    lemma_host_text_tail(h);
    lemma_host_text_parse(h, u);
    crate::text::lemma_first_sep(ht);
    assert(sep_at(ht, n));
    assert(s =~= ht + path_text(p));
    assert(sep_at(s, n));
    assert forall|j: int| 0 <= j < n implies !sep_at(s, j) by {
        assert(!sep_at(ht, j));
        assert(s[j] == ht[j]);
        assert(s[j + 1] == ht[j + 1]);
        assert(s[j + 2] == ht[j + 2]);
    }
    lemma_first_sep_at(s, n);
    assert(s.take(n) =~= ht.take(n));
    reveal_strlit("http");
    reveal_strlit("https");
    assert(s[0] == ht[0]);
    assert(ht[0] == ht.take(n)[0]);
    let tail = ht.skip(n + 3);
    if p.len() == 0 {
        assert(path_text(p) =~= seq!['/']);
        assert(strip_last(s, '/') =~= ht);
        lemma_first_index_none(tail, '/');
        assert(p =~= Seq::<Seq<char>>::empty());
    } else {
        lemma_segments_text_split(p);
        lemma_parse_valid_segments(p);
        let st = segments_text(p);
        let last = p.last();
        assert(valid_segment(p[p.len() - 1]));
        assert(segment_char_ok(last, last.len() - 1));
        assert(st.last() == last.last());
        assert(st.len() == segments_text(p.drop_last()).len() + 1 + last.len());
        assert(strip_last(s, '/') == s);
        let rest = s.skip(n + 3);
        assert(rest =~= tail + st);
        let j = tail.len() as int;
        assert forall|k: int| 0 <= k < j implies rest[k] != '/' by {
            assert(rest[k] == tail[k]);
        }
        lemma_first_index_at(rest, '/', j);
        assert(s.take(n + 3 + j) =~= ht);
        assert(rest.skip(j + 1) =~= st.skip(1));
    }
}

impl Clone for Link {
    fn clone(&self) -> (r: Self)
        ensures
            r@ == self@,
    {
        match &self.origin {
            Origin::Remote(h) => Link { origin: Origin::Remote(h.clone()), path: self.path.clone() },
            Origin::Local => Link { origin: Origin::Local, path: self.path.clone() },
        }
    }
}

impl Default for Link {
    fn default() -> (r: Self)
        ensures
            r@ == (LinkView { host: None, path: Seq::<Seq<char>>::empty() }),
    {
        Link { origin: Origin::Local, path: PathBuf::new() }
    }
}

impl Link {
    /// Whether the two links have the same host and path.
    pub fn same(&self, other: &Link) -> (r: bool)
        ensures
            r == (self@ == other@),
    {
        let hosts = match (&self.origin, &other.origin) {
            (Origin::Remote(a), Origin::Remote(b)) => a.same(b),
            (Origin::Local, Origin::Local) => true,
            _ => false,
        };
        let r = hosts && self.path.same_segments(other.path.as_slice());
        proof {
            if !hosts {
                assert(self@.host != other@.host);
            }
        }
        r
    }

    /// Whether this link has no host and exactly the given path segments.
    pub fn eq_path(&self, other: &[PathSegment]) -> (r: bool)
        ensures
            r == (self@.host is None && self@.path == segment_views(other@)),
    {
        match &self.origin {
            Origin::Remote(_) => false,
            Origin::Local => self.path.same_segments(other),
        }
    }

    /// This link as text: the host's text (if any) followed by the path's.
    pub fn to_string(&self) -> (r: String)
        ensures
            r@ == link_text(self@),
            valid_path(self@.path),
            self@.host matches Some(h) ==> address_ok(h.address),
            self@.host is None ==> spec_parse_link(r@) == Ok::<LinkView, Seq<char>>(self@),
    {
        let path = self.path.to_string();
        let _ = self.path.as_slice();
        match &self.origin {
            Origin::Remote(h) => {
                let mut out = h.to_string();
                out.append(path.as_str());
                out
            },
            Origin::Local => {
                proof {
                    lemma_local_link_text_parse(self@);
                }
                path
            },
        }
    }

    /// Parse a link: a path such as "/a/b", or a host followed by a path such
    /// as "https://example.com/a/b".
    pub fn parse(s: &str) -> (r: Result<Link, ParseError>)
        requires
            !link_parse_panics(s@),
        ensures
            match r {
                Ok(l) => spec_parse_link(s@) == Ok::<LinkView, Seq<char>>(l@),
                Err(e) => spec_parse_link(s@) == Err::<LinkView, Seq<char>>(e@),
            },
            r matches Ok(l) ==> link_domain_lowercase(l@),
    {
        let v = chars_of(s);
        if v.len() > 0 && v[0] == '/' {
            let path = PathBuf::parse(s)?;
            return Ok(Link { origin: Origin::Local, path });
        }
        let i = match find_sep(&v) {
            Some(i) => i,
            None => return Err(Link::protocol_error(s)),
        };
        let head = slice_chars(&v, 0, i);
        assert(head@ == s@.take(i as int));
        let head_text = string_of(&head);
        if Protocol::parse(head_text.as_str()).is_err() {
            return Err(Link::protocol_error(s));
        }
        let n = v.len();
        let t = if v[n - 1] == '/' {
            slice_chars(&v, 0, n - 1)
        } else {
            v
        };
        assert(t@ == strip_last(s@, '/'));
        assert(t@.len() >= i + 3);
        let rest = slice_chars(&t, i + 3, t.len());
        assert(rest@ == t@.skip(i + 3));
        let ghost parts = link_parts(t@, i as int);
        let (host_chars, pieces) = match find_first(&rest, '/') {
            None => {
                let none: Vec<Vec<char>> = Vec::new();
                assert(piece_views(none@) =~= Seq::<Seq<char>>::empty());
                (t, none)
            },
            Some(j) => {
                let host_chars = slice_chars(&t, 0, i + 3 + j);
                assert(host_chars@ == t@.take(i + 3 + j));
                let tail = slice_chars(&rest, j + 1, rest.len());
                assert(tail@ == rest@.skip(j + 1));
                let pieces = split(&tail, '/');
                assert(piece_views(pieces@) =~= split_char(tail@, '/'));
                (host_chars, pieces)
            },
        };
        assert(host_chars@ == parts.0);
        assert(piece_views(pieces@) == parts.1);
        let host_text = string_of(&host_chars);
        let host = Host::parse(host_text.as_str())?;
        let segments = parse_segments(&pieces)?;
        let path = PathBuf::from_segments(segments);
        Ok(Link { origin: Origin::Remote(host), path })
    }

    fn protocol_error(s: &str) -> (e: ParseError)
        ensures
            e@ == link_protocol_error(s@),
    {
        let mut message = String::from_str("cannot parse ");
        message.append(s);
        message.append(" as a Link: invalid protocol");
        ParseError::new(message)
    }

    /// Whether `other`, without one trailing '/', is non-empty and parses to
    /// this link.
    pub fn eq_str(&self, other: &str) -> (r: bool)
        ensures
            r == (strip_last(other@, '/').len() > 0 && !link_parse_panics(strip_last(other@, '/'))
                && spec_parse_link(strip_last(other@, '/')) == Ok::<LinkView, Seq<char>>(self@)),
    {
        let v = chars_of(other);
        let o = if v.len() > 0 && v[v.len() - 1] == '/' {
            slice_chars(&v, 0, v.len() - 1)
        } else {
            v
        };
        assert(o@ == strip_last(other@, '/'));
        if o.len() == 0 {
            return false;
        }
        let text = string_of(&o);
        match <Link as std::str::FromStr>::from_str(text.as_str()) {
            Ok(l) => self.same(&l),
            Err(_) => false,
        }
    }
}

impl std::str::FromStr for Link {
    type Err = ParseError;

    /// Parse a link. The one input that [`Link::parse`] does not take, a
    /// protocol followed by "://" and nothing else, is reported as an
    /// "invalid Link" error.
    fn from_str(s: &str) -> (r: Result<Link, ParseError>)
        ensures
            !link_parse_panics(s@) ==> match r {
                Ok(l) => spec_parse_link(s@) == Ok::<LinkView, Seq<char>>(l@),
                Err(e) => spec_parse_link(s@) == Err::<LinkView, Seq<char>>(e@),
            },
            link_parse_panics(s@) ==> (r matches Err(e) && e@ == "invalid Link: "@ + s@),
            r matches Ok(l) ==> link_domain_lowercase(l@),
    {
        let v = chars_of(s);
        let n = v.len();
        if !(n > 0 && v[0] == '/') && n >= 3 && v[n - 3] == ':' && v[n - 2] == '/' && v[n - 1] == '/' {
            if let Some(i) = find_sep(&v) {
                if i + 3 == n {
                    let head = slice_chars(&v, 0, i);
                    assert(head@ == s@.take(i as int));
                    let head_text = string_of(&head);
                    if Protocol::parse(head_text.as_str()).is_ok() {
                        return Err(ParseError::with_detail("invalid Link: ", s));
                    }
                }
            }
        }
        proof {
            if link_parse_panics(s@) {
                let i = first_sep(s@)->0;
                crate::text::lemma_first_sep(s@);
                assert(crate::text::sep_at(s@, i));
            }
        }
        Link::parse(s)
    }
}

impl PartialEq<[PathSegment]> for Link {
    fn eq(&self, other: &[PathSegment]) -> bool {
        self.eq_path(other)
    }
}

impl PartialEqSpecImpl<[PathSegment]> for Link {
    open spec fn obeys_eq_spec() -> bool {
        true
    }

    open spec fn eq_spec(&self, other: &[PathSegment]) -> bool {
        self@.host is None && self@.path == segment_views(other@)
    }
}

impl From<Host> for Link {
    /// The link to the root of `host`.
    fn from(host: Host) -> (r: Link)
        ensures
            r@ == (LinkView { host: Some(host@), path: Seq::<Seq<char>>::empty() }),
    {
        Link::from_host(host)
    }
}

impl FromSpecImpl<Host> for Link {
    /// No claim is made through `from_spec`: `from` states its result itself.
    open spec fn obeys_from_spec() -> bool {
        false
    }

    open spec fn from_spec(host: Host) -> Link {
        Link::spec_from_parts(Some(host), arbitrary())
    }
}

impl From<PathBuf> for Link {
    fn from(path: PathBuf) -> Link {
        Link::from_parts(None, path)
    }
}

impl FromSpecImpl<PathBuf> for Link {
    open spec fn obeys_from_spec() -> bool {
        true
    }

    open spec fn from_spec(path: PathBuf) -> Link {
        Link::spec_from_parts(None, path)
    }
}

impl From<(Host, PathBuf)> for Link {
    fn from(tuple: (Host, PathBuf)) -> Link {
        let (host, path) = tuple;
        Link::from_parts(Some(host), path)
    }
}

impl FromSpecImpl<(Host, PathBuf)> for Link {
    open spec fn obeys_from_spec() -> bool {
        true
    }

    open spec fn from_spec(tuple: (Host, PathBuf)) -> Link {
        Link::spec_from_parts(Some(tuple.0), tuple.1)
    }
}

impl From<(Option<Host>, PathBuf)> for Link {
    fn from(tuple: (Option<Host>, PathBuf)) -> Link {
        let (host, path) = tuple;
        Link::from_parts(host, path)
    }
}

impl FromSpecImpl<(Option<Host>, PathBuf)> for Link {
    open spec fn obeys_from_spec() -> bool {
        true
    }

    open spec fn from_spec(tuple: (Option<Host>, PathBuf)) -> Link {
        Link::spec_from_parts(tuple.0, tuple.1)
    }
}

impl PathBuf {
    /// The path of a link that has no host; a link with a host is an error.
    pub fn try_from_link(link: Link) -> (r: Result<PathBuf, ParseError>)
        ensures
            match r {
                Ok(p) => link@.host is None && p@ == link@.path,
                Err(e) => link@.host is Some && e@ == "expected a path but found "@ + link_text(link@),
            },
    {
        match link.origin {
            Origin::Local => Ok(link.path),
            Origin::Remote(_) => {
                let text = link.to_string();
                Err(ParseError::with_detail("expected a path but found ", text.as_str()))
            },
        }
    }
}

} // verus!
