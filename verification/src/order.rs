//! The order of protocols, addresses, hosts, paths and links.

use vstd::prelude::*;

use crate::address::{Address, AddressView};
use crate::domain::Domain;
use crate::host::{Host, HostView};
use crate::link::{Link, LinkView};
use crate::path::{segment_views, PathBuf, PathSegment};
use crate::protocol::Protocol;
use crate::text::chars_of;

verus! {

/// The result of comparing two values.
#[derive(Copy, Clone, Debug, PartialEq, Eq, Structural)]
pub enum Order {
    Less,
    Equal,
    Greater,
}

/// The order with its sides swapped.
pub open spec fn reverse(o: Order) -> Order {
    match o {
        Order::Less => Order::Greater,
        Order::Equal => Order::Equal,
        Order::Greater => Order::Less,
    }
}

/// `first`, unless it is `Equal`, in which case `second`.
pub open spec fn then(first: Order, second: Order) -> Order {
    if first == Order::Equal {
        second
    } else {
        first
    }
}

/// The order of two integers.
pub open spec fn int_order(x: int, y: int) -> Order {
    if x < y {
        Order::Less
    } else if x > y {
        Order::Greater
    } else {
        Order::Equal
    }
}

/// Lexicographic order of `a` and `b` from index `i` on: the first differing
/// element decides, and a sequence that ends first is less.
pub open spec fn lex_from(a: Seq<int>, b: Seq<int>, i: int) -> Order
    decreases a.len() + b.len() - i,
{
    if i < 0 {
        Order::Equal
    } else if i >= a.len() && i >= b.len() {
        Order::Equal
    } else if i >= a.len() {
        Order::Less
    } else if i >= b.len() {
        Order::Greater
    } else if a[i] != b[i] {
        int_order(a[i], b[i])
    } else {
        lex_from(a, b, i + 1)
    }
}

/// Lexicographic order of two integer sequences.
pub open spec fn lex(a: Seq<int>, b: Seq<int>) -> Order {
    lex_from(a, b, 0)
}

/// The code points of a text.
pub open spec fn char_codes(s: Seq<char>) -> Seq<int> {
    Seq::new(s.len(), |i: int| s[i] as int)
}

/// The values of a sequence of bytes.
pub open spec fn byte_values(s: Seq<u8>) -> Seq<int> {
    Seq::new(s.len(), |i: int| s[i] as int)
}

/// The values of a sequence of 16-bit segments.
pub open spec fn segment_values(s: Seq<u16>) -> Seq<int> {
    Seq::new(s.len(), |i: int| s[i] as int)
}

/// The order of two texts: lexicographic by code point, which is also the
/// byte order of their UTF-8 encodings.
pub open spec fn text_order(a: Seq<char>, b: Seq<char>) -> Order {
    lex(char_codes(a), char_codes(b))
}

/// Lexicographic order of two paths from segment `i` on, segments compared
/// as texts.
pub open spec fn path_order_from(a: Seq<Seq<char>>, b: Seq<Seq<char>>, i: int) -> Order
    decreases a.len() + b.len() - i,
{
    if i < 0 {
        Order::Equal
    } else if i >= a.len() && i >= b.len() {
        Order::Equal
    } else if i >= a.len() {
        Order::Less
    } else if i >= b.len() {
        Order::Greater
    } else if text_order(a[i], b[i]) != Order::Equal {
        text_order(a[i], b[i])
    } else {
        path_order_from(a, b, i + 1)
    }
}

/// Lexicographic order of two paths.
pub open spec fn path_order(a: Seq<Seq<char>>, b: Seq<Seq<char>>) -> Order {
    path_order_from(a, b, 0)
}

/// HTTP comes before HTTPS.
pub open spec fn protocol_order(a: Protocol, b: Protocol) -> Order {
    match (a, b) {
        (Protocol::HTTP, Protocol::HTTPS) => Order::Less,
        (Protocol::HTTPS, Protocol::HTTP) => Order::Greater,
        _ => Order::Equal,
    }
}

/// The rank of an address's kind: IPv4, then IPv6, then domains.
pub open spec fn address_rank(a: AddressView) -> int {
    match a {
        AddressView::IPv4(_) => 0,
        AddressView::IPv6(_) => 1,
        AddressView::Domain(_) => 2,
    }
}

/// Addresses of different kinds are ordered IPv4, IPv6, domain; IP addresses
/// of one kind by their octets or segments; domains by name.
pub open spec fn address_order(a: AddressView, b: AddressView) -> Order {
    match (a, b) {
        (AddressView::IPv4(x), AddressView::IPv4(y)) => lex(byte_values(x.octets@), byte_values(y.octets@)),
        (AddressView::IPv6(x), AddressView::IPv6(y)) => lex(
            segment_values(x.segments@),
            segment_values(y.segments@),
        ),
        (AddressView::Domain(x), AddressView::Domain(y)) => text_order(x, y),
        _ => int_order(address_rank(a), address_rank(b)),
    }
}

/// No port comes before any port; ports are ordered by number.
pub open spec fn port_order(a: Option<u16>, b: Option<u16>) -> Order {
    match (a, b) {
        (None, None) => Order::Equal,
        (None, Some(_)) => Order::Less,
        (Some(_), None) => Order::Greater,
        (Some(x), Some(y)) => int_order(x as int, y as int),
    }
}

/// Hosts are ordered by protocol, then address, then port.
pub open spec fn host_order(a: HostView, b: HostView) -> Order {
    then(protocol_order(a.protocol, b.protocol), then(address_order(a.address, b.address), port_order(a.port, b.port)))
}

/// Links with a host come before links without one; links with hosts are
/// ordered by host, then path; links without, by path.
pub open spec fn link_order(a: LinkView, b: LinkView) -> Order {
    match (a.host, b.host) {
        (None, None) => path_order(a.path, b.path),
        (Some(x), Some(y)) => then(host_order(x, y), path_order(a.path, b.path)),
        (Some(_), None) => Order::Less,
        (None, Some(_)) => Order::Greater,
    }
}

fn int_compare(x: u32, y: u32) -> (r: Order)
    ensures
        r == int_order(x as int, y as int),
{
    if x < y {
        Order::Less
    } else if x > y {
        Order::Greater
    } else {
        Order::Equal
    }
}

fn char_compare(c: char, d: char) -> (r: Order)
    ensures
        r == int_order(c as int, d as int),
{
    if c < d {
        Order::Less
    } else if c > d {
        Order::Greater
    } else {
        Order::Equal
    }
}

/// Compare two texts.
pub fn compare_text(a: &str, b: &str) -> (r: Order)
    ensures
        r == text_order(a@, b@),
{
    let x = chars_of(a);
    let y = chars_of(b);
    let ghost p = char_codes(a@);
    let ghost q = char_codes(b@);
    let mut i: usize = 0;
    while i < x.len() && i < y.len()
        invariant
            x@ == a@,
            y@ == b@,
            p == char_codes(a@),
            q == char_codes(b@),
            i <= x@.len(),
            i <= y@.len(),
            lex(p, q) == lex_from(p, q, i as int),
        decreases x@.len() - i,
    {
        if x[i] != y[i] {
            assert(p[i as int] == x@[i as int] as int);
            assert(q[i as int] == y@[i as int] as int);
            return char_compare(x[i], y[i]);
        }
        assert(p[i as int] == q[i as int]);
        i = i + 1;
    }
    if i < x.len() {
        Order::Greater
    } else if i < y.len() {
        Order::Less
    } else {
        Order::Equal
    }
}

fn compare_octets(a: [u8; 4], b: [u8; 4]) -> (r: Order)
    ensures
        r == lex(byte_values(a@), byte_values(b@)),
{
    let ghost p = byte_values(a@);
    let ghost q = byte_values(b@);
    let mut i: usize = 0;
    while i < 4
        invariant
            p == byte_values(a@),
            q == byte_values(b@),
            i <= 4,
            lex(p, q) == lex_from(p, q, i as int),
        decreases 4 - i,
    {
        if a[i] != b[i] {
            return int_compare(a[i] as u32, b[i] as u32);
        }
        i = i + 1;
    }
    Order::Equal
}

fn compare_segments(a: [u16; 8], b: [u16; 8]) -> (r: Order)
    ensures
        r == lex(segment_values(a@), segment_values(b@)),
{
    let ghost p = segment_values(a@);
    let ghost q = segment_values(b@);
    let mut i: usize = 0;
    while i < 8
        invariant
            p == segment_values(a@),
            q == segment_values(b@),
            i <= 8,
            lex(p, q) == lex_from(p, q, i as int),
        decreases 8 - i,
    {
        if a[i] != b[i] {
            return int_compare(a[i] as u32, b[i] as u32);
        }
        i = i + 1;
    }
    Order::Equal
}

/// Compare two sequences of path segments.
pub fn compare_paths(a: &[PathSegment], b: &[PathSegment]) -> (r: Order)
    ensures
        r == path_order(segment_views(a@), segment_views(b@)),
{
    let ghost p = segment_views(a@);
    let ghost q = segment_views(b@);
    let mut i: usize = 0;
    while i < a.len() && i < b.len()
        invariant
            p == segment_views(a@),
            q == segment_views(b@),
            i <= a@.len(),
            i <= b@.len(),
            path_order(p, q) == path_order_from(p, q, i as int),
        decreases a@.len() - i,
    {
        let o = compare_text(a[i].as_str(), b[i].as_str());
        if o != Order::Equal {
            return o;
        }
        i = i + 1;
    }
    if i < a.len() {
        Order::Greater
    } else if i < b.len() {
        Order::Less
    } else {
        Order::Equal
    }
}

impl Protocol {
    /// Compare two protocols.
    pub fn compare(&self, other: &Protocol) -> (r: Order)
        ensures
            r == protocol_order(*self, *other),
    {
        match (self, other) {
            (Protocol::HTTP, Protocol::HTTPS) => Order::Less,
            (Protocol::HTTPS, Protocol::HTTP) => Order::Greater,
            _ => Order::Equal,
        }
    }
}

impl Domain {
    /// Compare two domain names.
    pub fn compare(&self, other: &Domain) -> (r: Order)
        ensures
            r == text_order(self@, other@),
    {
        compare_text(self.as_str(), other.as_str())
    }
}

impl PathSegment {
    /// Compare two segments.
    pub fn compare(&self, other: &PathSegment) -> (r: Order)
        ensures
            r == text_order(self@, other@),
    {
        compare_text(self.as_str(), other.as_str())
    }
}

impl PathBuf {
    /// Compare two paths.
    pub fn compare(&self, other: &PathBuf) -> (r: Order)
        ensures
            r == path_order(self@, other@),
    {
        compare_paths(self.as_slice(), other.as_slice())
    }
}

impl Address {
    /// Compare two addresses.
    pub fn compare(&self, other: &Address) -> (r: Order)
        ensures
            r == address_order(self@, other@),
    {
        match (self, other) {
            (Address::IPv4(x), Address::IPv4(y)) => compare_octets(x.octets, y.octets),
            (Address::IPv6(x), Address::IPv6(y)) => compare_segments(x.segments, y.segments),
            (Address::Domain(x), Address::Domain(y)) => x.compare(y),
            (Address::IPv4(_), _) => Order::Less,
            (Address::IPv6(_), Address::IPv4(_)) => Order::Greater,
            (Address::IPv6(_), Address::Domain(_)) => Order::Less,
            (Address::Domain(_), _) => Order::Greater,
        }
    }
}

impl Host {
    /// Compare two hosts.
    pub fn compare(&self, other: &Host) -> (r: Order)
        ensures
            r == host_order(self@, other@),
    {
        let p = self.protocol().compare(&other.protocol());
        if p != Order::Equal {
            return p;
        }
        let a = self.address().compare(other.address());
        if a != Order::Equal {
            return a;
        }
        match (self.port(), other.port()) {
            (None, None) => Order::Equal,
            (None, Some(_)) => Order::Less,
            (Some(_), None) => Order::Greater,
            (Some(x), Some(y)) => int_compare(x as u32, y as u32),
        }
    }
}

impl Link {
    /// Compare two links.
    pub fn compare(&self, other: &Link) -> (r: Order)
        ensures
            r == link_order(self@, other@),
    {
        match (self.host(), other.host()) {
            (None, None) => self.path().compare(other.path()),
            (Some(x), Some(y)) => {
                let h = x.compare(y);
                if h != Order::Equal {
                    h
                } else {
                    self.path().compare(other.path())
                }
            },
            (Some(_), None) => Order::Less,
            (None, Some(_)) => Order::Greater,
        }
    }
}


pub proof fn lemma_lex_reverse(a: Seq<int>, b: Seq<int>, i: int)
    ensures
        lex_from(a, b, i) == reverse(lex_from(b, a, i)),
    decreases a.len() + b.len() - i,
{
    if i >= 0 && i < a.len() && i < b.len() && a[i] == b[i] {
        lemma_lex_reverse(a, b, i + 1);
    }
}

pub proof fn lemma_lex_equal(a: Seq<int>, b: Seq<int>, i: int)
    requires
        0 <= i <= a.len(),
        i <= b.len(),
    ensures
        (lex_from(a, b, i) == Order::Equal) <==> (a.len() == b.len() && forall|j: int|
            i <= j < a.len() ==> a[j] == b[j]),
    decreases a.len() + b.len() - i,
{
    if i < a.len() && i < b.len() && a[i] == b[i] {
        lemma_lex_equal(a, b, i + 1);
    }
}

pub proof fn lemma_lex_trans(a: Seq<int>, b: Seq<int>, c: Seq<int>, i: int)
    requires
        lex_from(a, b, i) == Order::Less,
        lex_from(b, c, i) == Order::Less,
    ensures
        lex_from(a, c, i) == Order::Less,
    decreases a.len() + b.len() - i,
{
    if i >= 0 && i < a.len() && i < b.len() && i < c.len() && a[i] == b[i] && b[i] == c[i] {
        lemma_lex_trans(a, b, c, i + 1);
    }
}

/// Texts compare equal exactly when they are equal.
pub proof fn lemma_text_order_equal(a: Seq<char>, b: Seq<char>)
    ensures
        (text_order(a, b) == Order::Equal) <==> a == b,
{
    lemma_lex_equal(char_codes(a), char_codes(b), 0);
    if text_order(a, b) == Order::Equal {
        assert forall|j: int| 0 <= j < a.len() implies a[j] == b[j] by {
            assert(char_codes(a)[j] == char_codes(b)[j]);
        }
        assert(a =~= b);
    }
}

pub proof fn lemma_text_order_reverse(a: Seq<char>, b: Seq<char>)
    ensures
        text_order(a, b) == reverse(text_order(b, a)),
{
    lemma_lex_reverse(char_codes(a), char_codes(b), 0);
}

pub proof fn lemma_text_order_trans(a: Seq<char>, b: Seq<char>, c: Seq<char>)
    requires
        text_order(a, b) == Order::Less,
        text_order(b, c) == Order::Less,
    ensures
        text_order(a, c) == Order::Less,
{
    lemma_lex_trans(char_codes(a), char_codes(b), char_codes(c), 0);
}

pub proof fn lemma_path_reverse(a: Seq<Seq<char>>, b: Seq<Seq<char>>, i: int)
    ensures
        path_order_from(a, b, i) == reverse(path_order_from(b, a, i)),
    decreases a.len() + b.len() - i,
{
    if i >= 0 && i < a.len() && i < b.len() {
        lemma_text_order_reverse(a[i], b[i]);
        lemma_path_reverse(a, b, i + 1);
    }
}

pub proof fn lemma_path_equal(a: Seq<Seq<char>>, b: Seq<Seq<char>>, i: int)
    requires
        0 <= i <= a.len(),
        i <= b.len(),
    ensures
        (path_order_from(a, b, i) == Order::Equal) <==> (a.len() == b.len() && forall|j: int|
            i <= j < a.len() ==> a[j] == b[j]),
    decreases a.len() + b.len() - i,
{
    if i < a.len() && i < b.len() {
        lemma_text_order_equal(a[i], b[i]);
        lemma_path_equal(a, b, i + 1);
    }
}

pub proof fn lemma_path_trans(a: Seq<Seq<char>>, b: Seq<Seq<char>>, c: Seq<Seq<char>>, i: int)
    requires
        path_order_from(a, b, i) == Order::Less,
        path_order_from(b, c, i) == Order::Less,
    ensures
        path_order_from(a, c, i) == Order::Less,
    decreases a.len() + b.len() - i,
{
    if i >= 0 && i < a.len() && i < b.len() && i < c.len() {
        lemma_text_order_equal(a[i], b[i]);
        lemma_text_order_equal(b[i], c[i]);
        lemma_text_order_equal(a[i], c[i]);
        if text_order(a[i], b[i]) == Order::Less && text_order(b[i], c[i]) == Order::Less {
            lemma_text_order_trans(a[i], b[i], c[i]);
        }
        if text_order(a[i], b[i]) == Order::Equal && text_order(b[i], c[i]) == Order::Equal {
            lemma_path_trans(a, b, c, i + 1);
        }
    }
}

pub proof fn lemma_path_order_equal(a: Seq<Seq<char>>, b: Seq<Seq<char>>)
    ensures
        (path_order(a, b) == Order::Equal) <==> a == b,
{
    lemma_path_equal(a, b, 0);
    if path_order(a, b) == Order::Equal {
        assert(a =~= b);
    }
}


proof fn lemma_octets_equal(x: [u8; 4], y: [u8; 4])
    ensures
        (lex(byte_values(x@), byte_values(y@)) == Order::Equal) <==> x == y,
{
    broadcast use vstd::array::group_array_axioms;

    lemma_lex_equal(byte_values(x@), byte_values(y@), 0);
    if lex(byte_values(x@), byte_values(y@)) == Order::Equal {
        assert forall|j: int| 0 <= j < 4 implies x[j] == y[j] by {
            assert(byte_values(x@)[j] == byte_values(y@)[j]);
        }
        assert(x =~= y);
    }
}

proof fn lemma_segments_equal(x: [u16; 8], y: [u16; 8])
    ensures
        (lex(segment_values(x@), segment_values(y@)) == Order::Equal) <==> x == y,
{
    broadcast use vstd::array::group_array_axioms;

    lemma_lex_equal(segment_values(x@), segment_values(y@), 0);
    if lex(segment_values(x@), segment_values(y@)) == Order::Equal {
        assert forall|j: int| 0 <= j < 8 implies x[j] == y[j] by {
            assert(segment_values(x@)[j] == segment_values(y@)[j]);
        }
        assert(x =~= y);
    }
}

pub proof fn lemma_address_order_laws(a: AddressView, b: AddressView, c: AddressView)
    ensures
        address_order(a, b) == reverse(address_order(b, a)),
        (address_order(a, b) == Order::Equal) <==> a == b,
        address_order(a, b) == Order::Less && address_order(b, c) == Order::Less ==> address_order(a, c)
            == Order::Less,
{
    match (a, b) {
        (AddressView::IPv4(x), AddressView::IPv4(y)) => {
            lemma_lex_reverse(byte_values(x.octets@), byte_values(y.octets@), 0);
            lemma_octets_equal(x.octets, y.octets);
        },
        (AddressView::IPv6(x), AddressView::IPv6(y)) => {
            lemma_lex_reverse(segment_values(x.segments@), segment_values(y.segments@), 0);
            lemma_segments_equal(x.segments, y.segments);
        },
        (AddressView::Domain(x), AddressView::Domain(y)) => {
            lemma_text_order_reverse(x, y);
            lemma_text_order_equal(x, y);
        },
        _ => {},
    }
    if address_order(a, b) == Order::Less && address_order(b, c) == Order::Less {
        match (a, b, c) {
            (AddressView::IPv4(x), AddressView::IPv4(y), AddressView::IPv4(z)) => {
                lemma_lex_trans(byte_values(x.octets@), byte_values(y.octets@), byte_values(z.octets@), 0);
            },
            (AddressView::IPv6(x), AddressView::IPv6(y), AddressView::IPv6(z)) => {
                lemma_lex_trans(
                    segment_values(x.segments@),
                    segment_values(y.segments@),
                    segment_values(z.segments@),
                    0,
                );
            },
            (AddressView::Domain(x), AddressView::Domain(y), AddressView::Domain(z)) => {
                lemma_text_order_trans(x, y, z);
            },
            _ => {},
        }
    }
}

/// Lexicographic order from `i` on is decided by the first position `k` at
/// which the sequences differ, or, when one is a proper prefix of the other
/// from `i` on, the shorter one is less.
pub proof fn lemma_lex_first_difference(a: Seq<int>, b: Seq<int>, i: int, k: int)
    requires
        0 <= i <= k,
        forall|j: int| i <= j < k ==> a[j] == b[j],
    ensures
        k < a.len() && k < b.len() && a[k] < b[k] ==> lex_from(a, b, i) == Order::Less,
        k < a.len() && k < b.len() && a[k] > b[k] ==> lex_from(a, b, i) == Order::Greater,
        k == a.len() && k < b.len() ==> lex_from(a, b, i) == Order::Less,
        k < a.len() && k == b.len() ==> lex_from(a, b, i) == Order::Greater,
    decreases k - i,
{
    if i < k {
        lemma_lex_first_difference(a, b, i + 1, k);
    }
}

/// Texts are ordered by the code points of their first difference, and a
/// proper prefix comes first.
pub proof fn lemma_text_order_first_difference(a: Seq<char>, b: Seq<char>, k: int)
    requires
        0 <= k <= a.len(),
        k <= b.len(),
        forall|j: int| 0 <= j < k ==> a[j] == b[j],
    ensures
        k < a.len() && k < b.len() && (a[k] as int) < (b[k] as int) ==> text_order(a, b) == Order::Less,
        k == a.len() && k < b.len() ==> text_order(a, b) == Order::Less,
{
    let x = char_codes(a);
    let y = char_codes(b);
    assert forall|j: int| 0 <= j < k implies x[j] == y[j] by {
        assert(x[j] == a[j] as int);
        assert(y[j] == b[j] as int);
    }
    if k < a.len() && k < b.len() {
        assert(x[k] == a[k] as int);
        assert(y[k] == b[k] as int);
    }
    lemma_lex_first_difference(x, y, 0, k);
}

/// Addresses of different kinds are ordered IPv4, then IPv6, then domain
/// names; two IPv4 or two IPv6 addresses are ordered by the first octet or
/// segment in which they differ, and equal ones are equal.
pub proof fn lemma_address_order_kinds(a: AddressView, b: AddressView, k: int)
    ensures
        a is IPv4 && !(b is IPv4) ==> address_order(a, b) == Order::Less,
        a is IPv6 && b is Domain ==> address_order(a, b) == Order::Less,
        a is Domain && !(b is Domain) ==> address_order(a, b) == Order::Greater,
        (a matches AddressView::IPv4(x) && b matches AddressView::IPv4(y) && 0 <= k < 4
            && (forall|j: int| 0 <= j < k ==> x.octets@[j] == y.octets@[j]) && x.octets@[k]
            < y.octets@[k]) ==> address_order(a, b) == Order::Less,
        (a matches AddressView::IPv6(x) && b matches AddressView::IPv6(y) && 0 <= k < 8
            && (forall|j: int| 0 <= j < k ==> x.segments@[j] == y.segments@[j]) && x.segments@[k]
            < y.segments@[k]) ==> address_order(a, b) == Order::Less,
{
    match (a, b) {
        (AddressView::IPv4(x), AddressView::IPv4(y)) => {
            if 0 <= k < 4 {
                let p = byte_values(x.octets@);
                let q = byte_values(y.octets@);
                if forall|j: int| 0 <= j < k ==> x.octets@[j] == y.octets@[j] {
                    assert forall|j: int| 0 <= j < k implies p[j] == q[j] by {
                        assert(x.octets@[j] == y.octets@[j]);
                    }
                    lemma_lex_first_difference(p, q, 0, k);
                }
            }
        },
        (AddressView::IPv6(x), AddressView::IPv6(y)) => {
            if 0 <= k < 8 {
                let p = segment_values(x.segments@);
                let q = segment_values(y.segments@);
                if forall|j: int| 0 <= j < k ==> x.segments@[j] == y.segments@[j] {
                    assert forall|j: int| 0 <= j < k implies p[j] == q[j] by {
                        assert(x.segments@[j] == y.segments@[j]);
                    }
                    lemma_lex_first_difference(p, q, 0, k);
                }
            }
        },
        _ => {},
    }
}

/// Links with a host come before links without one; links with equal hosts,
/// and links without hosts, are ordered by their paths; a path is ordered by
/// the first segment in which it differs, and a proper prefix comes first.
pub proof fn lemma_link_order_shape(a: LinkView, b: LinkView, k: int)
    ensures
        a.host is Some && b.host is None ==> link_order(a, b) == Order::Less,
        a.host == b.host ==> link_order(a, b) == path_order(a.path, b.path),
        0 <= k && (forall|j: int| 0 <= j < k ==> a.path[j] == b.path[j]) ==> {
            &&& k < a.path.len() && k < b.path.len() && text_order(a.path[k], b.path[k]) == Order::Less
                ==> path_order(a.path, b.path) == Order::Less
            &&& k == a.path.len() && k < b.path.len() ==> path_order(a.path, b.path) == Order::Less
        },
{
    if let Some(h) = a.host {
        lemma_host_order_laws(h, h, h);
    }
    if 0 <= k && (forall|j: int| 0 <= j < k ==> a.path[j] == b.path[j]) {
        lemma_path_first_difference(a.path, b.path, 0, k);
    }
}

proof fn lemma_path_first_difference(a: Seq<Seq<char>>, b: Seq<Seq<char>>, i: int, k: int)
    requires
        0 <= i <= k,
        forall|j: int| i <= j < k ==> a[j] == b[j],
    ensures
        k < a.len() && k < b.len() && text_order(a[k], b[k]) == Order::Less ==> path_order_from(a, b, i)
            == Order::Less,
        k == a.len() && k < b.len() ==> path_order_from(a, b, i) == Order::Less,
    decreases k - i,
{
    if i < k {
        if i < a.len() && i < b.len() {
            lemma_text_order_equal(a[i], b[i]);
        }
        lemma_path_first_difference(a, b, i + 1, k);
    }
}

/// Hosts that differ only in their ports are ordered as `Option<u16>` is
/// ordered: no port first, then ports by number. A host with HTTP comes
/// before one with HTTPS whatever their addresses and ports.
pub proof fn lemma_host_order_by_port(a: HostView, b: HostView)
    ensures
        a.protocol == b.protocol && a.address == b.address ==> {
            &&& (host_order(a, b) == Order::Less <==> match (a.port, b.port) {
                (None, Some(_)) => true,
                (Some(x), Some(y)) => x < y,
                _ => false,
            })
            &&& (host_order(a, b) == Order::Equal <==> a.port == b.port)
        },
        a.protocol == Protocol::HTTP && b.protocol == Protocol::HTTPS ==> host_order(a, b) == Order::Less,
{
    lemma_address_order_laws(a.address, b.address, a.address);
}

pub proof fn lemma_host_order_laws(a: HostView, b: HostView, c: HostView)
    ensures
        host_order(a, b) == reverse(host_order(b, a)),
        (host_order(a, b) == Order::Equal) <==> a == b,
        host_order(a, b) == Order::Less && host_order(b, c) == Order::Less ==> host_order(a, c)
            == Order::Less,
{
    lemma_address_order_laws(a.address, b.address, c.address);
    lemma_address_order_laws(b.address, a.address, c.address);
    lemma_address_order_laws(a.address, c.address, b.address);
    lemma_address_order_laws(b.address, c.address, a.address);
}

/// The order of links is a strict total order on their views, whose
/// equality is equality of views: swapping the sides reverses it, it is
/// `Equal` exactly for equal links, and `Less` is transitive.
pub proof fn lemma_link_order_laws(a: LinkView, b: LinkView, c: LinkView)
    ensures
        link_order(a, b) == reverse(link_order(b, a)),
        (link_order(a, b) == Order::Equal) <==> a == b,
        link_order(a, b) == Order::Less && link_order(b, c) == Order::Less ==> link_order(a, c)
            == Order::Less,
{
    lemma_path_reverse(a.path, b.path, 0);
    lemma_path_order_equal(a.path, b.path);
    lemma_path_order_equal(b.path, c.path);
    lemma_path_order_equal(a.path, c.path);
    if path_order(a.path, b.path) == Order::Less && path_order(b.path, c.path) == Order::Less {
        lemma_path_trans(a.path, b.path, c.path, 0);
    }
    match (a.host, b.host, c.host) {
        (Some(x), Some(y), Some(z)) => {
            lemma_host_order_laws(x, y, z);
            lemma_host_order_laws(y, z, x);
            lemma_host_order_laws(x, z, y);
        },
        (Some(x), Some(y), None) => {
            lemma_host_order_laws(x, y, x);
        },
        (None, Some(y), Some(z)) => {
            lemma_host_order_laws(y, z, y);
        },
        (Some(x), None, Some(z)) => {
            lemma_host_order_laws(x, z, x);
        },
        _ => {},
    }
}

} // verus!
