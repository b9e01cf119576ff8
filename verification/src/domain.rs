//! Normalized domain names.

use std::sync::Arc;

use vstd::prelude::*;
use vstd::string::StringExecFns;

use crate::error::ParseError;
use crate::text::{
    chars_of, find_first, first_index, lemma_first_index, no_ascii_upper, slice_chars, split, split_char, str_eq,
    string_of, strip_last,
};
use crate::url_parts::{domain_host_lowercase, parse_url, parsed_view, url_parse, HostValue, HostValueView, UrlParts, UrlView};

verus! {

/// `c` may appear in a DNS label: an ASCII letter, digit or '-'.
pub open spec fn is_label_char(c: char) -> bool {
    ||| ('a' <= c && c <= 'z')
    ||| ('A' <= c && c <= 'Z')
    ||| ('0' <= c && c <= '9')
    ||| c == '-'
}

/// The characters of a DNS label are exactly the ASCII letters, the ASCII
/// digits and '-'.
pub proof fn lemma_label_char_is_ascii_alphanumeric_or_hyphen(c: char)
    ensures
        is_label_char(c) <==> ((0x30 <= c as u32 && c as u32 <= 0x39) || (0x41 <= c as u32
            && c as u32 <= 0x5a) || (0x61 <= c as u32 && c as u32 <= 0x7a) || c as u32 == 0x2d),
{
}

/// A name of 1 to 63 ASCII letters, digits and '-', neither starting nor
/// ending with '-', is a valid label: digits are as good as letters.
pub proof fn lemma_alphanumeric_label(l: Seq<char>)
    requires
        1 <= l.len() <= 63,
        forall|i: int| 0 <= i < l.len() ==> #[trigger] l[i] == '-' || ('0' <= l[i] && l[i] <= '9')
            || ('a' <= l[i] && l[i] <= 'z') || ('A' <= l[i] && l[i] <= 'Z'),
        l[0] != '-',
        l.last() != '-',
    ensures
        valid_label(l),
{
}

/// A DNS-style label: 1 to 63 letters, digits or hyphens, neither starting
/// nor ending with a hyphen.
pub open spec fn valid_label(l: Seq<char>) -> bool {
    &&& 1 <= l.len() <= 63
    &&& forall|i: int| 0 <= i < l.len() ==> #[trigger] is_label_char(l[i])
    &&& l[0] != '-'
    &&& l.last() != '-'
}

/// `d` is a non-empty name of at most 253 characters whose '.'-separated
/// labels are all valid.
pub open spec fn valid_labels(d: Seq<char>) -> bool {
    &&& 0 < d.len() <= 253
    &&& forall|k: int| 0 <= k < split_char(d, '.').len() ==> #[trigger] valid_label(split_char(d, '.')[k])
}

/// A domain name is accepted when, without one trailing '.', its labels are valid.
pub open spec fn domain_name_ok(name: Seq<char>) -> bool {
    valid_labels(strip_last(name, '.'))
}

/// `c` may appear in a domain name: a label character or '.'.
pub open spec fn is_name_char(c: char) -> bool {
    is_label_char(c) || c == '.'
}

pub proof fn lemma_split_len(t: Seq<char>, c: char)
    ensures
        split_char(t, c).len() >= 1,
    decreases t.len(),
{
    if t.len() > 0 {
        lemma_split_len(t.drop_last(), c);
    }
}

/// When every piece of `t` split at '.' is made of label characters, every
/// character of `t` is a label character or '.'.
pub proof fn lemma_label_pieces(t: Seq<char>)
    requires
        forall|k: int, j: int|
            0 <= k < split_char(t, '.').len() && 0 <= j < split_char(t, '.')[k].len() ==> #[trigger] is_label_char(
                split_char(t, '.')[k][j],
            ),
    ensures
        forall|i: int| 0 <= i < t.len() ==> #[trigger] is_name_char(t[i]),
    decreases t.len(),
{
    if t.len() > 0 {
        let u = t.drop_last();
        let p = split_char(u, '.');
        let q = split_char(t, '.');
        lemma_split_len(u, '.');
        assert forall|k: int, j: int| 0 <= k < p.len() && 0 <= j < p[k].len() implies #[trigger] is_label_char(p[k][j]) by {
            if t.last() == '.' {
                assert(q[k] == p[k]);
            } else if k < p.len() - 1 {
                assert(q[k] == p[k]);
            } else {
                assert(q[k] == p[k].push(t.last()));
                assert(q[k][j] == p[k][j]);
            }
        }
        lemma_label_pieces(u);
        if t.last() != '.' {
            let k = p.len() - 1;
            assert(q[k] == p[k].push(t.last()));
            assert(is_label_char(q[k][p[k].len() as int]));
        }
        assert forall|i: int| 0 <= i < t.len() implies #[trigger] is_name_char(t[i]) by {
            if i < t.len() - 1 {
                assert(t[i] == u[i]);
            }
        }
    }
}

/// An accepted domain name is non-empty and made of label characters and '.'.
pub proof fn lemma_domain_chars(s: Seq<char>)
    requires
        domain_name_ok(s),
    ensures
        s.len() > 0,
        forall|i: int| 0 <= i < s.len() ==> #[trigger] is_name_char(s[i]),
{
    let t = strip_last(s, '.');
    let q = split_char(t, '.');
    assert forall|k: int, j: int| 0 <= k < q.len() && 0 <= j < q[k].len() implies #[trigger] is_label_char(q[k][j]) by {
        assert(valid_label(q[k]));
    }
    lemma_label_pieces(t);
    assert forall|i: int| 0 <= i < s.len() implies #[trigger] is_name_char(s[i]) by {
        if i < t.len() {
            assert(s[i] == t[i]);
        }
    }
}

/// The message of the error for an invalid domain name `d`.
pub open spec fn invalid_domain(d: Seq<char>) -> Seq<char> {
    "invalid domain name: "@ + d
}

fn label_char(c: char) -> (r: bool)
    ensures
        r == is_label_char(c),
{
    ('a' <= c && c <= 'z') || ('A' <= c && c <= 'Z') || ('0' <= c && c <= '9') || c == '-'
}

fn check_label(l: &Vec<char>) -> (r: bool)
    ensures
        r == valid_label(l@),
{
    let n = l.len();
    if n == 0 || n > 63 {
        return false;
    }
    let mut i: usize = 0;
    while i < n
        invariant
            n == l@.len(),
            i <= n,
            forall|j: int| 0 <= j < i ==> #[trigger] is_label_char(l@[j]),
        decreases n - i,
    {
        if !label_char(l[i]) {
            return false;
        }
        i = i + 1;
    }
    l[0] != '-' && l[n - 1] != '-'
}

/// Check that `domain` is an acceptable domain name.
pub fn validate_domain_name(domain: &str) -> (r: Result<(), ParseError>)
    ensures
        match r {
            Ok(()) => domain_name_ok(domain@),
            Err(e) => !domain_name_ok(domain@) && e@ == invalid_domain(strip_last(domain@, '.')),
        },
{
    let v = chars_of(domain);
    let d = if v.len() > 0 && v[v.len() - 1] == '.' {
        slice_chars(&v, 0, v.len() - 1)
    } else {
        v
    };
    assert(d@ == strip_last(domain@, '.'));
    if d.len() == 0 || d.len() > 253 {
        let text = string_of(&d);
        return Err(ParseError::with_detail("invalid domain name: ", text.as_str()));
    }
    let labels = split(&d, '.');
    let mut k: usize = 0;
    while k < labels.len()
        invariant
            d@ == strip_last(domain@, '.'),
            0 < d@.len() <= 253,
            k <= labels@.len(),
            labels@.len() == split_char(d@, '.').len(),
            forall|m: int| 0 <= m < labels@.len() ==> #[trigger] labels@[m]@ == split_char(d@, '.')[m],
            forall|m: int| 0 <= m < k ==> #[trigger] valid_label(split_char(d@, '.')[m]),
        decreases labels@.len() - k,
    {
        if !check_label(&labels[k]) {
            assert(labels@[k as int]@ == split_char(d@, '.')[k as int]);
            assert(!valid_label(split_char(d@, '.')[k as int]));
            let text = string_of(&d);
            return Err(ParseError::with_detail("invalid domain name: ", text.as_str()));
        }
        k = k + 1;
    }
    Ok(())
}

/// The URL that a domain name `s` is checked in.
pub open spec fn domain_probe(s: Seq<char>) -> Seq<char> {
    "http://"@ + s + "/"@
}

/// A parsed URL is "http://" and a host: its scheme is "http", and its other
/// components are empty: no user name, password, port, query or fragment,
/// and the path "/".
pub open spec fn only_host(u: UrlView) -> bool {
    &&& u.scheme == "http"@
    &&& u.username.len() == 0
    &&& u.password is None
    &&& u.port is None
    &&& u.query is None
    &&& u.fragment is None
    &&& u.path == "/"@
}

/// What the domain name `s` gives once the URL parser has read
/// "http://{s}/" and reported `u` (its components, or the text of its
/// error): the normalized name that the parser found as the host, if the URL
/// has nothing else, `s` holds no ':' (no port part, not even an empty or a
/// default one) and the name is accepted. `Err` holds the message of the
/// error.
pub open spec fn spec_domain_from_url(s: Seq<char>, u: Result<UrlView, Seq<char>>) -> Result<Seq<char>, Seq<char>> {
    match u {
        Err(cause) => Err(invalid_domain(cause)),
        Ok(u) => if !only_host(u) || s.contains(':') {
            Err(invalid_domain(s))
        } else {
            match u.host {
                Some(HostValueView::Domain(d)) => if domain_name_ok(d) {
                    Ok(d)
                } else {
                    Err(invalid_domain(strip_last(d, '.')))
                },
                _ => Err(invalid_domain(s)),
            }
        },
    }
}

/// What parsing `s` as a domain name gives: what the URL parser's reading of
/// "http://{s}/" makes of it.
pub open spec fn spec_parse_domain(s: Seq<char>) -> Result<Seq<char>, Seq<char>> {
    spec_domain_from_url(s, url_parse(domain_probe(s)))
}

/// `Arc::clone`: a new pointer to the same allocation, so to the same string.
#[verifier::external_body]
fn share(a: &Arc<String>) -> (r: Arc<String>)
    ensures
        r == *a,
{
    Arc::clone(a)
}

/// A normalized ASCII/Punycode domain name.
#[derive(Debug, Eq, Hash, PartialEq, Ord)]
pub struct Domain(Arc<String>);

impl View for Domain {
    type V = Seq<char>;

    closed spec fn view(&self) -> Seq<char> {
        self.0@
    }
}

impl Domain {
    /// Every domain holds an accepted name.
    #[verifier::type_invariant]
    spec fn well_formed(self) -> bool {
        domain_name_ok(self.0@)
    }

    /// Parse and normalize a domain name. The name that comes out holds no
    /// ASCII upper-case letter.
    pub fn new(domain: &str) -> (r: Result<Self, ParseError>)
        ensures
            match r {
                Ok(d) => spec_parse_domain(domain@) == Ok::<Seq<char>, Seq<char>>(d@),
                Err(e) => spec_parse_domain(domain@) == Err::<Seq<char>, Seq<char>>(e@),
            },
            r matches Ok(d) ==> no_ascii_upper(d@),
    {
        let mut probe = String::from_str("http://");
        probe.append(domain);
        probe.append("/");
        let u = parse_url(probe.as_str());
        let ghost reported = parsed_view(u);
        proof {
            if let Ok(v) = reported {
                reveal_strlit("http");
                assert(domain_host_lowercase(v));
            }
        }
        Domain::from_url(domain, u)
    }

    /// The domain that the name `domain` gives, where `u` is what the URL
    /// parser made of "http://{domain}/".
    pub fn from_url(domain: &str, u: Result<UrlParts, String>) -> (r: Result<Self, ParseError>)
        ensures
            match r {
                Ok(d) => spec_domain_from_url(domain@, parsed_view(u)) == Ok::<Seq<char>, Seq<char>>(d@),
                Err(e) => spec_domain_from_url(domain@, parsed_view(u)) == Err::<Seq<char>, Seq<char>>(e@),
            },
    {
        let u = match u {
            Ok(u) => u,
            Err(cause) => return Err(ParseError::with_detail("invalid domain name: ", cause.as_str())),
        };
        let v = chars_of(domain);
        let colon = find_first(&v, ':');
        proof {
            lemma_first_index(domain@, ':');
            if let Some(i) = first_index(domain@, ':') {
                assert(domain@[i] == ':');
            }
        }
        let only = str_eq(u.scheme.as_str(), "http") && u.username.as_str().is_empty() && u.password.is_none() && u.port.is_none()
            && u.query.is_none() && u.fragment.is_none() && str_eq(u.path.as_str(), "/");
        if !only || colon.is_some() {
            return Err(ParseError::with_detail("invalid domain name: ", domain));
        }
        match &u.host {
            Some(HostValue::Domain(d)) => Domain::from_normalized(d.as_str()),
            _ => Err(ParseError::with_detail("invalid domain name: ", domain)),
        }
    }

    /// Construct a [`Domain`] from a name that is already normalized, after
    /// checking that it is acceptable. This does not normalize: the name is
    /// kept as it is, so one with ASCII upper-case letters stays so, unlike
    /// what [`Domain::new`] gives. Its callers here pass the host that the URL
    /// parser reported.
    pub fn from_normalized(domain: &str) -> (r: Result<Self, ParseError>)
        ensures
            match r {
                Ok(d) => domain_name_ok(domain@) && d@ == domain@,
                Err(e) => !domain_name_ok(domain@) && e@ == invalid_domain(strip_last(domain@, '.')),
            },
    {
        validate_domain_name(domain)?;
        Ok(Domain(Arc::new(domain.to_owned())))
    }

    /// Borrow this domain name's normalized ASCII representation.
    pub fn as_str(&self) -> (r: &str)
        ensures
            r@ == self@,
            domain_name_ok(self@),
    {
        proof {
            use_type_invariant(self);
        }
        self.0.as_str()
    }

    /// This domain name as a new `String`.
    pub fn to_string(&self) -> (r: String)
        ensures
            r@ == self@,
            domain_name_ok(self@),
    {
        String::from_str(self.as_str())
    }

    /// The size of this domain: the length of its name.
    pub fn get_size(&self) -> (r: usize)
        ensures
            r == self@.len(),
    {
        self.as_str().unicode_len()
    }

    /// Consume this [`Domain`] and return its normalized ASCII representation.
    pub fn into_inner(self) -> (r: Arc<String>)
        ensures
            r@ == self@,
    {
        self.0
    }
}

impl AsRef<str> for Domain {
    fn as_ref(&self) -> (r: &str)
        ensures
            r@ == self@,
    {
        self.as_str()
    }
}

impl std::str::FromStr for Domain {
    type Err = ParseError;

    fn from_str(domain: &str) -> (r: Result<Self, ParseError>)
        ensures
            match r {
                Ok(d) => spec_parse_domain(domain@) == Ok::<Seq<char>, Seq<char>>(d@),
                Err(e) => spec_parse_domain(domain@) == Err::<Seq<char>, Seq<char>>(e@),
            },
            r matches Ok(d) ==> no_ascii_upper(d@),
    {
        Domain::new(domain)
    }
}

impl Clone for Domain {
    /// Another [`Domain`] sharing this one's storage.
    fn clone(&self) -> (r: Self)
        ensures
            r@ == self@,
    {
        proof {
            use_type_invariant(self);
        }
        Domain(share(&self.0))
    }
}

} // verus!
