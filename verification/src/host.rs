//! The host component of a link: protocol, address and optional port.

use vstd::prelude::*;
use vstd::std_specs::convert::FromSpecImpl;
use vstd::string::StringExecFns;

use crate::address::{
    address_is_localhost, address_ok, address_text, ipv6_text, lemma_ipv4_text_avoids,
    lemma_ipv6_text_avoids, same_address, Address, AddressView, Ipv4Addr, Ipv6Addr,
};
use crate::domain::{domain_name_ok, invalid_domain, is_name_char, lemma_domain_chars, Domain};
use crate::error::ParseError;
use crate::port::{explicit_port, lemma_explicit_port_bracketed, spec_explicit_port, Port};
use crate::protocol::{invalid_protocol, spec_protocol, Protocol};
use crate::text::{
    avoids, chars_of, decimal, find_sep, first_sep, lemma_avoids_concat, lemma_decimal_avoids,
    lemma_decimal_digits, lemma_decimal_u16, lemma_first_index_at, lemma_first_sep_at,
    lemma_last_index_at, lemma_last_index_none, push_char, push_decimal, sep_at, slice_chars,
    no_ascii_upper, str_eq, string_of, strip_last,
};
use crate::url_parts::{domain_host_lowercase, parse_url, parsed_view, url_parse, HostValue, HostValueView, UrlParts, UrlView};

verus! {

/// The host component of a link (e.g. "http://127.0.0.1:8702")
#[derive(Debug, Hash, Eq, PartialEq, Ord)]
pub struct Host {
    protocol: Protocol,
    address: Address,
    port: Option<Port>,
}

/// The view of a [`Host`].
pub struct HostView {
    pub protocol: Protocol,
    pub address: AddressView,
    pub port: Option<u16>,
}

impl View for Host {
    type V = HostView;

    closed spec fn view(&self) -> HostView {
        HostView { protocol: self.protocol, address: self.address@, port: self.port }
    }
}

/// The address that a parsed URL's host gives, or the message of the error.
pub open spec fn spec_host_address(h: Option<HostValueView>, s: Seq<char>) -> Result<AddressView, Seq<char>> {
    match h {
        None => Err("invalid host (missing address): "@ + s),
        Some(HostValueView::Ipv4(a)) => Ok(AddressView::IPv4(Ipv4Addr { octets: a })),
        Some(HostValueView::Ipv6(a)) => Ok(AddressView::IPv6(Ipv6Addr { segments: a })),
        Some(HostValueView::Domain(d)) => if domain_name_ok(d) {
            Ok(AddressView::Domain(d))
        } else {
            Err(invalid_domain(strip_last(d, '.')))
        },
    }
}

/// What the host string `s`, whose protocol is `protocol`, gives once the URL
/// parser has read `s` and reported `u` (its components, or the text of its
/// error): the address that the parser found (with no user information,
/// query, fragment or path, and with the protocol's scheme), and the port
/// that `s` names explicitly. `Err` holds the message of the error.
pub open spec fn spec_host_from_url(s: Seq<char>, protocol: Protocol, u: Result<UrlView, Seq<char>>) -> Result<HostView, Seq<char>> {
    match u {
        Err(cause) => Err("invalid host: "@ + cause),
        Ok(u) => if u.username.len() > 0 || u.password is Some {
            Err("invalid host (userinfo not allowed): "@ + s)
        } else if u.query is Some || u.fragment is Some || u.path != "/"@ {
            Err("invalid host (unexpected URL components): "@ + s)
        } else if u.scheme != protocol.scheme() {
            Err(invalid_protocol(s))
        } else {
            match spec_host_address(u.host, s) {
                Err(e) => Err(e),
                Ok(address) => match spec_explicit_port(s) {
                    Err(e) => Err(e),
                    Ok(port) => Ok(HostView { protocol, address, port }),
                },
            }
        },
    }
}

/// What parsing `s` as a host gives: the protocol named before the first
/// "://", then what the URL parser's reading of `s` makes of it. `Err` holds
/// the message of the error.
pub open spec fn spec_parse_host(s: Seq<char>) -> Result<HostView, Seq<char>> {
    match first_sep(s) {
        None => Err(invalid_protocol(s)),
        Some(i) => match spec_protocol(s.take(i)) {
            None => Err(invalid_protocol(s.take(i))),
            Some(protocol) => spec_host_from_url(s, protocol, url_parse(s)),
        },
    }
}

/// A host whose address is a domain name holds that name lower-cased: no
/// ASCII upper-case letter.
pub open spec fn host_domain_lowercase(h: HostView) -> bool {
    match h.address {
        AddressView::Domain(d) => no_ascii_upper(d),
        _ => true,
    }
}

/// The text of a host: "{protocol}://{address}", with an IPv6 address in
/// brackets, followed by ":{port}" when there is a port.
pub open spec fn host_text(h: HostView) -> Seq<char> {
    let base = h.protocol.scheme() + seq![':', '/', '/'];
    let addr = match h.address {
        AddressView::IPv6(a) => seq!['['] + ipv6_text(a.segments@) + seq![']'],
        a => address_text(a),
    };
    match h.port {
        Some(p) => base + addr + seq![':'] + decimal(p as nat),
        None => base + addr,
    }
}

/// The host is on the local machine.
pub open spec fn host_is_localhost(h: HostView) -> bool {
    address_is_localhost(h.address)
}

/// `h` is reached through loopback from `public_addr` (or the local host).
pub open spec fn host_is_loopback(h: HostView, public_addr: Option<HostView>) -> bool {
    match public_addr {
        Some(a) => h == a || (host_is_localhost(h) && h.port == a.port),
        None => host_is_localhost(h),
    }
}

/// A host loops back to itself; a host that is not the local host loops
/// back to a public address only when it is that address, port included; the
/// local host loops back to a public address exactly when it is that address
/// or has its port; and with no public address, only the local host loops
/// back.
pub proof fn lemma_loopback(h: HostView, a: HostView)
    ensures
        host_is_loopback(h, Some(h)),
        !host_is_localhost(h) ==> (host_is_loopback(h, Some(a)) <==> h == a),
        host_is_localhost(h) ==> (host_is_loopback(h, Some(a)) <==> (h == a || h.port == a.port)),
        host_is_localhost(h) && h.port != a.port ==> (host_is_loopback(h, Some(a)) <==> h == a),
        host_is_loopback(h, None) <==> host_is_localhost(h),
        h != a && h.port != a.port ==> !host_is_loopback(h, Some(a)),
{
}

/// The text of an address as it stands in a host's text: an IPv6 address in
/// brackets, any other address as is.
pub open spec fn host_address_text(a: AddressView) -> Seq<char> {
    match a {
        AddressView::IPv6(x) => seq!['['] + ipv6_text(x.segments@) + seq![']'],
        a => address_text(a),
    }
}

proof fn lemma_address_avoids(a: AddressView, c: char)
    requires
        address_ok(a),
        !(a is IPv6),
        c == ':' || c == '/' || c == '[',
    ensures
        avoids(address_text(a), c),
        address_text(a).len() > 0,
{
    match a {
        AddressView::IPv4(x) => {
            lemma_ipv4_text_avoids(x.octets@, c);
            lemma_decimal_digits(x.octets@[0] as nat);
        },
        AddressView::Domain(d) => {
            lemma_domain_chars(d);
            assert forall|i: int| 0 <= i < d.len() implies #[trigger] d[i] != c by {
                assert(is_name_char(d[i]));
            }
        },
        _ => {},
    }
}

/// The port that a host's text names is the host's port: reading the text
/// of any host back with [`crate::port::explicit_port`] gives its port.
#[verifier::spinoff_prover]
#[verifier::rlimit(40)]
pub proof fn lemma_host_text_port(h: HostView)
    requires
        address_ok(h.address),
    ensures
        spec_explicit_port(host_text(h)) == Ok::<Option<u16>, Seq<char>>(h.port),
{
    reveal_strlit("http");
    reveal_strlit("https");
    let sch = h.protocol.scheme();
    let sep = seq![':', '/', '/'];
    let addr = host_address_text(h.address);
    let tail = match h.port {
        Some(p) => seq![':'] + decimal(p as nat),
        None => Seq::<char>::empty(),
    };
    let t = host_text(h);
    assert(t =~= sch + sep + addr + tail);
    let n = sch.len() as int;
    assert(sep_at(t, n));
    assert forall|j: int| 0 <= j < n implies !sep_at(t, j) by {
        assert(t[j] == sch[j]);
    }
    lemma_first_sep_at(t, n);
    let a0 = t.skip(n + 3);
    assert(a0 =~= addr + tail);
    if let Some(p) = h.port {
        lemma_decimal_u16(p);
        lemma_decimal_digits(p as nat);
        assert(a0.last() == decimal(p as nat).last());
        assert(crate::text::is_digit(decimal(p as nat).last()));
    } else {
        assert(tail.len() == 0);
    }
    match h.address {
        AddressView::IPv6(x) => {
            let xt = ipv6_text(x.segments@);
            lemma_ipv6_text_avoids(x.segments@, ']');
            assert(strip_last(a0, '/') == a0);
            let r = a0.skip(1);
            assert(r =~= xt + seq![']'] + tail);
            assert forall|j: int| 0 <= j < xt.len() implies r[j] != ']' by {
                assert(r[j] == xt[j]);
            }
            lemma_first_index_at(r, ']', xt.len() as int);
            let suffix = r.skip(xt.len() as int + 1);
            assert(suffix =~= tail);
            if let Some(p) = h.port {
                assert(suffix.skip(1) =~= decimal(p as nat));
            }
        },
        _ => {
            lemma_address_avoids(h.address, ':');
            lemma_address_avoids(h.address, '/');
            lemma_address_avoids(h.address, '[');
            assert(a0[0] == addr[0]);
            match h.port {
                Some(p) => {
                    let k = addr.len() as int;
                    assert(strip_last(a0, '/') == a0);
                    lemma_decimal_avoids(p as nat, ':');
                    assert forall|j: int| k < j < a0.len() implies a0[j] != ':' by {
                        assert(a0[j] == decimal(p as nat)[j - k - 1]);
                    }
                    lemma_last_index_at(a0, ':', k);
                    assert(a0.skip(k + 1) =~= decimal(p as nat));
                },
                None => {
                    assert(a0 =~= addr);
                    assert(a0.last() != '/');
                    assert(strip_last(a0, '/') == a0);
                    lemma_last_index_none(a0, ':');
                },
            }
        },
    }
}

/// The port that "{pr}://[{a}]:{p}" names, for an IPv6 address `a` written
/// as text, is `p`, and "{pr}://[{a}]" names none, for any prefix `pr`
/// without "://".
pub proof fn lemma_explicit_port_ipv6(pr: Seq<char>, a: Ipv6Addr, p: u16)
    requires
        first_sep(pr) is None,
    ensures
        spec_explicit_port(pr + seq![':', '/', '/', '['] + ipv6_text(a.segments@) + seq![']', ':'] + decimal(p as nat))
            == Ok::<Option<u16>, Seq<char>>(Some(p)),
        spec_explicit_port(pr + seq![':', '/', '/', '['] + ipv6_text(a.segments@) + seq![']'])
            == Ok::<Option<u16>, Seq<char>>(None),
{
    lemma_ipv6_text_avoids(a.segments@, ']');
    lemma_explicit_port_bracketed(pr, ipv6_text(a.segments@), p);
}

/// How the URL parser reports the host of an address.
pub open spec fn host_value_of(a: AddressView) -> HostValueView {
    match a {
        AddressView::IPv4(x) => HostValueView::Ipv4(x.octets),
        AddressView::IPv6(x) => HostValueView::Ipv6(x.segments),
        AddressView::Domain(d) => HostValueView::Domain(d),
    }
}

/// The URL parser's components `u` are those of host `h`: its scheme and
/// address, and nothing else.
pub open spec fn url_reports(u: UrlView, h: HostView) -> bool {
    &&& u.username.len() == 0
    &&& u.password is None
    &&& u.query is None
    &&& u.fragment is None
    &&& u.path == "/"@
    &&& u.scheme == h.protocol.scheme()
    &&& u.host == Some(host_value_of(h.address))
}

/// A host's text starts with its protocol's scheme and "://".
pub proof fn lemma_host_text_protocol(h: HostView)
    ensures
        first_sep(host_text(h)) == Some(h.protocol.scheme().len() as int),
        host_text(h).take(h.protocol.scheme().len() as int) == h.protocol.scheme(),
        spec_protocol(h.protocol.scheme()) == Some(h.protocol),
{
    reveal_strlit("http");
    reveal_strlit("https");
    let sch = h.protocol.scheme();
    let t = host_text(h);
    let n = sch.len() as int;
    assert(t.take(n) =~= sch);
    assert(sep_at(t, n));
    assert forall|j: int| 0 <= j < n implies !sep_at(t, j) by {
        assert(t[j] == sch[j]);
    }
    lemma_first_sep_at(t, n);
}

/// After its "://", a host's text holds something, and no '/'.
pub proof fn lemma_host_text_tail(h: HostView)
    requires
        address_ok(h.address),
    ensures
        avoids(host_text(h).skip(h.protocol.scheme().len() as int + 3), '/'),
        host_text(h).len() > h.protocol.scheme().len() + 3,
{
    let sch = h.protocol.scheme();
    let addr = host_address_text(h.address);
    let tail = match h.port {
        Some(p) => seq![':'] + decimal(p as nat),
        None => Seq::<char>::empty(),
    };
    let t = host_text(h);
    assert(t =~= sch + seq![':', '/', '/'] + addr + tail);
    assert(t.skip(sch.len() as int + 3) =~= addr + tail);
    match h.address {
        AddressView::IPv6(x) => {
            lemma_ipv6_text_avoids(x.segments@, '/');
            lemma_avoids_concat(seq!['['], ipv6_text(x.segments@), '/');
            lemma_avoids_concat(seq!['['] + ipv6_text(x.segments@), seq![']'], '/');
        },
        _ => {
            lemma_address_avoids(h.address, '/');
        },
    }
    if let Some(p) = h.port {
        lemma_decimal_avoids(p as nat, '/');
        lemma_avoids_concat(seq![':'], decimal(p as nat), '/');
    }
    lemma_avoids_concat(addr, tail, '/');
}

/// Reading a host's text back gives the same host, whenever the URL parser
/// reports for that text the host's own scheme and address and nothing else.
pub proof fn lemma_host_text_parse(h: HostView, u: UrlView)
    requires
        address_ok(h.address),
        url_parse(host_text(h)) == Ok::<UrlView, Seq<char>>(u),
        url_reports(u, h),
    ensures
        spec_parse_host(host_text(h)) == Ok::<HostView, Seq<char>>(h),
{
    lemma_host_text_protocol(h);
    lemma_host_text_port(h);
}

impl Host {
    /// The host with the given components.
    pub closed spec fn spec_new(protocol: Protocol, address: Address, port: Option<Port>) -> Host {
        Host { protocol, address, port }
    }

    /// The view of a host built from components is made of their views.
    pub broadcast proof fn lemma_spec_new(protocol: Protocol, address: Address, port: Option<Port>)
        ensures
            #[trigger] Host::spec_new(protocol, address, port)@ == (HostView { protocol, address: address@, port }),
    {
    }

    /// A host with the given components.
    pub fn new(protocol: Protocol, address: Address, port: Option<Port>) -> (r: Self)
        ensures
            r == Host::spec_new(protocol, address, port),
            r@ == (HostView { protocol, address: address@, port }),
    {
        Host { protocol, address, port }
    }

    /// Check if the address of this [`Host`] is the local host.
    pub fn is_localhost(&self) -> (r: bool)
        ensures
            r == host_is_localhost(self@),
    {
        self.address.is_localhost()
    }

    /// Check if this [`Host`] matches the host and port of the given `public_addr` or localhost.
    pub fn is_loopback(&self, public_addr: Option<&Host>) -> (r: bool)
        ensures
            r == host_is_loopback(
                self@,
                match public_addr {
                    Some(a) => Some(a@),
                    None => None::<HostView>,
                },
            ),
    {
        match public_addr {
            Some(addr) => self.same(addr) || (self.is_localhost() && self.port == addr.port),
            None => self.is_localhost(),
        }
    }

    /// Whether two hosts have the same protocol, address and port.
    pub fn same(&self, other: &Host) -> (r: bool)
        ensures
            r == (self@ == other@),
    {
        self.protocol == other.protocol && self.port == other.port && same_address(
            &self.address,
            &other.address,
        )
    }

    /// Return the [`Protocol`] to use with this [`Host`].
    pub fn protocol(&self) -> (r: Protocol)
        ensures
            r == self@.protocol,
    {
        self.protocol
    }

    /// Return the [`Address`] of this [`Host`].
    pub fn address(&self) -> (r: &Address)
        ensures
            r@ == self@.address,
    {
        &self.address
    }

    /// Return the [`Port`] which this [`Host`] is listening on.
    pub fn port(&self) -> (r: Option<Port>)
        ensures
            r == self@.port,
    {
        self.port
    }

    /// This host as text, e.g. "https://[::1]:443".
    pub fn to_string(&self) -> (r: String)
        ensures
            r@ == host_text(self@),
            address_ok(self@.address),
            spec_explicit_port(r@) == Ok::<Option<u16>, Seq<char>>(self@.port),
    {
        let mut out = self.protocol.to_string();
        push_char(&mut out, ':');
        push_char(&mut out, '/');
        push_char(&mut out, '/');
        let addr = self.address.to_string();
        match &self.address {
            Address::IPv6(_) => {
                push_char(&mut out, '[');
                out.append(addr.as_str());
                push_char(&mut out, ']');
            },
            _ => {
                out.append(addr.as_str());
            },
        }
        match self.port {
            Some(p) => {
                push_char(&mut out, ':');
                push_decimal(&mut out, p as u64);
            },
            None => {},
        }
        assert(out@ =~= host_text(self@));
        proof {
            lemma_host_text_port(self@);
        }
        out
    }

    /// Parse a host string such as "https://example.com:443".
    pub fn parse(s: &str) -> (r: Result<Host, ParseError>)
        ensures
            match r {
                Ok(h) => spec_parse_host(s@) == Ok::<HostView, Seq<char>>(h@),
                Err(e) => spec_parse_host(s@) == Err::<HostView, Seq<char>>(e@),
            },
            r matches Ok(h) ==> host_domain_lowercase(h@),
    {
        let v = chars_of(s);
        let i = match find_sep(&v) {
            Some(i) => i,
            None => return Err(ParseError::with_detail("invalid protocol: ", s)),
        };
        let head = slice_chars(&v, 0, i);
        assert(head@ == s@.take(i as int));
        let head_text = string_of(&head);
        let protocol = Protocol::parse(head_text.as_str())?;
        let u = parse_url(s);
        let ghost reported = parsed_view(u);
        proof {
            if let Ok(v) = reported {
                assert(domain_host_lowercase(v));
            }
        }
        Host::from_url(s, protocol, u)
    }

    /// The host that the host string `s`, whose protocol is `protocol`,
    /// gives, where `u` is what the URL parser made of `s`.
    pub fn from_url(s: &str, protocol: Protocol, u: Result<UrlParts, String>) -> (r: Result<Host, ParseError>)
        ensures
            match r {
                Ok(h) => spec_host_from_url(s@, protocol, parsed_view(u)) == Ok::<HostView, Seq<char>>(h@),
                Err(e) => spec_host_from_url(s@, protocol, parsed_view(u)) == Err::<HostView, Seq<char>>(e@),
            },
    {
        let u = match u {
            Ok(u) => u,
            Err(cause) => return Err(ParseError::with_detail("invalid host: ", cause.as_str())),
        };
        if !u.username.as_str().is_empty() || u.password.is_some() {
            return Err(ParseError::with_detail("invalid host (userinfo not allowed): ", s));
        }
        if u.query.is_some() || u.fragment.is_some() || !str_eq(u.path.as_str(), "/") {
            return Err(ParseError::with_detail("invalid host (unexpected URL components): ", s));
        }
        if !str_eq(u.scheme.as_str(), protocol.as_str()) {
            return Err(ParseError::with_detail("invalid protocol: ", s));
        }
        let address = match u.host {
            None => return Err(ParseError::with_detail("invalid host (missing address): ", s)),
            Some(HostValue::Ipv4(a)) => Address::IPv4(Ipv4Addr { octets: a }),
            Some(HostValue::Ipv6(a)) => Address::IPv6(Ipv6Addr { segments: a }),
            Some(HostValue::Domain(d)) => Address::Domain(Domain::from_normalized(d.as_str())?),
        };
        let port = explicit_port(s)?;
        Ok(Host { protocol, address, port })
    }
}

impl std::str::FromStr for Host {
    type Err = ParseError;

    fn from_str(s: &str) -> (r: Result<Host, ParseError>)
        ensures
            match r {
                Ok(h) => spec_parse_host(s@) == Ok::<HostView, Seq<char>>(h@),
                Err(e) => spec_parse_host(s@) == Err::<HostView, Seq<char>>(e@),
            },
            r matches Ok(h) ==> host_domain_lowercase(h@),
    {
        Host::parse(s)
    }
}

impl From<(Protocol, Address)> for Host {
    fn from(components: (Protocol, Address)) -> Self {
        let (protocol, address) = components;
        Host::new(protocol, address, None)
    }
}

impl FromSpecImpl<(Protocol, Address)> for Host {
    open spec fn obeys_from_spec() -> bool {
        true
    }

    open spec fn from_spec(components: (Protocol, Address)) -> Host {
        Host::spec_new(components.0, components.1, None)
    }
}

impl From<(Address, Port)> for Host {
    fn from(components: (Address, Port)) -> Self {
        let (address, port) = components;
        Host::new(Protocol::default(), address, Some(port))
    }
}

impl FromSpecImpl<(Address, Port)> for Host {
    open spec fn obeys_from_spec() -> bool {
        true
    }

    open spec fn from_spec(components: (Address, Port)) -> Host {
        Host::spec_new(Protocol::HTTP, components.0, Some(components.1))
    }
}

impl From<(Protocol, Address, Port)> for Host {
    fn from(components: (Protocol, Address, Port)) -> Self {
        let (protocol, address, port) = components;
        Host::new(protocol, address, Some(port))
    }
}

impl FromSpecImpl<(Protocol, Address, Port)> for Host {
    open spec fn obeys_from_spec() -> bool {
        true
    }

    open spec fn from_spec(components: (Protocol, Address, Port)) -> Host {
        Host::spec_new(components.0, components.1, Some(components.2))
    }
}

impl From<(Protocol, Address, Option<Port>)> for Host {
    fn from(components: (Protocol, Address, Option<Port>)) -> Self {
        let (protocol, address, port) = components;
        Host::new(protocol, address, port)
    }
}

impl FromSpecImpl<(Protocol, Address, Option<Port>)> for Host {
    open spec fn obeys_from_spec() -> bool {
        true
    }

    open spec fn from_spec(components: (Protocol, Address, Option<Port>)) -> Host {
        Host::spec_new(components.0, components.1, components.2)
    }
}

impl Clone for Host {
    fn clone(&self) -> (r: Self)
        ensures
            r@ == self@,
    {
        Host { protocol: self.protocol, address: self.address.clone(), port: self.port }
    }
}

} // verus!
