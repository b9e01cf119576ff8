//! Network addresses: IPv4, IPv6 and domain names.

use vstd::prelude::*;
use vstd::std_specs::cmp::PartialEqSpecImpl;
use vstd::std_specs::convert::FromSpecImpl;

use crate::domain::{domain_name_ok, Domain};
use crate::text::{
    avoids, decimal, eq_ignore_ascii_case, hex, is_digit, is_hex_char, lemma_avoids_concat,
    lemma_decimal_avoids, lemma_hex_avoids, push_char, push_decimal, push_hex,
    str_eq_ignore_ascii_case,
};

verus! {

/// An IPv4 address, as its four octets.
#[derive(Clone, Copy, Debug, PartialEq, Eq, Hash, PartialOrd, Ord)]
pub struct Ipv4Addr {
    pub octets: [u8; 4],
}

/// An IPv6 address, as its eight 16-bit segments.
#[derive(Clone, Copy, Debug, PartialEq, Eq, Hash, PartialOrd, Ord)]
pub struct Ipv6Addr {
    pub segments: [u16; 8],
}

/// An IP address of either version.
#[derive(Clone, Copy, Debug, PartialEq, Eq, Hash, PartialOrd, Ord)]
pub enum IpAddr {
    V4(Ipv4Addr),
    V6(Ipv6Addr),
}

/// The four octets written in decimal, separated by '.'.
pub open spec fn ipv4_text(o: Seq<u8>) -> Seq<char> {
    decimal(o[0] as nat) + seq!['.'] + decimal(o[1] as nat) + seq!['.'] + decimal(o[2] as nat)
        + seq!['.'] + decimal(o[3] as nat)
}

/// The number of consecutive zero segments starting at `i`.
pub open spec fn zero_run(s: Seq<u16>, i: int) -> nat
    decreases s.len() - i,
{
    if 0 <= i < s.len() && s[i] == 0 {
        1 + zero_run(s, i + 1)
    } else {
        0
    }
}

/// Among the positions before `n`, the first one that starts a longest run of
/// zero segments, and that run's length (`(0, 0)` when there is none).
pub open spec fn longest_zero_run(s: Seq<u16>, n: int) -> (int, nat)
    decreases n,
{
    if n <= 0 {
        (0, 0)
    } else {
        let best = longest_zero_run(s, n - 1);
        if zero_run(s, n - 1) > best.1 {
            (n - 1, zero_run(s, n - 1))
        } else {
            best
        }
    }
}

/// Segments in lowercase hexadecimal, separated by ':'.
pub open spec fn hex_join(s: Seq<u16>) -> Seq<char>
    decreases s.len(),
{
    if s.len() == 0 {
        Seq::<char>::empty()
    } else if s.len() == 1 {
        hex(s[0] as nat)
    } else {
        hex_join(s.drop_last()) + seq![':'] + hex(s.last() as nat)
    }
}

/// The address is an IPv4-mapped IPv6 address (`::ffff:a.b.c.d`).
pub open spec fn ipv4_mapped(s: Seq<u16>) -> bool {
    s[0] == 0 && s[1] == 0 && s[2] == 0 && s[3] == 0 && s[4] == 0 && s[5] == 0xffff
}

/// The text of an IPv6 address: an IPv4-mapped address as `::ffff:` and its
/// IPv4 text; otherwise the segments in lowercase hexadecimal, where the first
/// longest run of two or more zero segments is written as `::`.
pub open spec fn ipv6_text(s: Seq<u16>) -> Seq<char> {
    if ipv4_mapped(s) {
        seq![':', ':', 'f', 'f', 'f', 'f', ':'] + ipv4_text(
            seq![(s[6] / 256) as u8, (s[6] % 256) as u8, (s[7] / 256) as u8, (s[7] % 256) as u8],
        )
    } else {
        let (start, len) = longest_zero_run(s, 8);
        if len > 1 {
            hex_join(s.take(start)) + seq![':', ':'] + hex_join(s.skip(start + len))
        } else {
            hex_join(s)
        }
    }
}

pub proof fn lemma_ipv4_text_avoids(o: Seq<u8>, c: char)
    requires
        !is_digit(c),
        c != '.',
    ensures
        avoids(ipv4_text(o), c),
{
    let dot = seq!['.'];
    lemma_decimal_avoids(o[0] as nat, c);
    lemma_decimal_avoids(o[1] as nat, c);
    lemma_decimal_avoids(o[2] as nat, c);
    lemma_decimal_avoids(o[3] as nat, c);
    let p1 = decimal(o[0] as nat) + dot;
    lemma_avoids_concat(decimal(o[0] as nat), dot, c);
    lemma_avoids_concat(p1, decimal(o[1] as nat), c);
    let p2 = p1 + decimal(o[1] as nat) + dot;
    lemma_avoids_concat(p1 + decimal(o[1] as nat), dot, c);
    lemma_avoids_concat(p2, decimal(o[2] as nat), c);
    let p3 = p2 + decimal(o[2] as nat) + dot;
    lemma_avoids_concat(p2 + decimal(o[2] as nat), dot, c);
    lemma_avoids_concat(p3, decimal(o[3] as nat), c);
}

pub proof fn lemma_hex_join_avoids(s: Seq<u16>, c: char)
    requires
        !is_hex_char(c),
        c != ':',
    ensures
        avoids(hex_join(s), c),
    decreases s.len(),
{
    if s.len() == 1 {
        lemma_hex_avoids(s[0] as nat, c);
    } else if s.len() > 1 {
        lemma_hex_join_avoids(s.drop_last(), c);
        lemma_hex_avoids(s.last() as nat, c);
        lemma_avoids_concat(hex_join(s.drop_last()), seq![':'], c);
        lemma_avoids_concat(hex_join(s.drop_last()) + seq![':'], hex(s.last() as nat), c);
    }
}

/// The text of an IPv6 address holds no ']' and no '/'.
pub proof fn lemma_ipv6_text_avoids(s: Seq<u16>, c: char)
    requires
        s.len() == 8,
        c == ']' || c == '/',
    ensures
        avoids(ipv6_text(s), c),
{
    if ipv4_mapped(s) {
        let o = seq![(s[6] / 256) as u8, (s[6] % 256) as u8, (s[7] / 256) as u8, (s[7] % 256) as u8];
        lemma_ipv4_text_avoids(o, c);
        lemma_avoids_concat(seq![':', ':', 'f', 'f', 'f', 'f', ':'], ipv4_text(o), c);
    } else {
        let (start, len) = longest_zero_run(s, 8);
        lemma_hex_join_avoids(s, c);
        lemma_hex_join_avoids(s.take(start), c);
        lemma_hex_join_avoids(s.skip(start + len), c);
        lemma_avoids_concat(hex_join(s.take(start)), seq![':', ':'], c);
        lemma_avoids_concat(hex_join(s.take(start)) + seq![':', ':'], hex_join(s.skip(start + len)), c);
    }
}

pub proof fn lemma_zero_run_bound(s: Seq<u16>, i: int)
    requires
        0 <= i,
    ensures
        i + zero_run(s, i) <= if i <= s.len() { s.len() as int } else { i },
    decreases s.len() - i,
{
    if 0 <= i < s.len() && s[i] == 0 {
        lemma_zero_run_bound(s, i + 1);
    }
}

pub proof fn lemma_longest_zero_run_bound(s: Seq<u16>, n: int)
    requires
        0 <= n <= s.len(),
    ensures
        0 <= longest_zero_run(s, n).0,
        longest_zero_run(s, n).0 + longest_zero_run(s, n).1 <= s.len(),
    decreases n,
{
    if n > 0 {
        lemma_longest_zero_run_bound(s, n - 1);
        lemma_zero_run_bound(s, n - 1);
    }
}

/// Among the positions before `n`, the chosen run is a longest run of zero
/// segments, the first of the longest ones, and it starts where it says.
pub proof fn lemma_longest_zero_run_is_longest(s: Seq<u16>, n: int)
    requires
        0 <= n <= s.len(),
    ensures
        forall|i: int| 0 <= i < n ==> #[trigger] zero_run(s, i) <= longest_zero_run(s, n).1,
        forall|i: int| 0 <= i < longest_zero_run(s, n).0 ==> #[trigger] zero_run(s, i) < longest_zero_run(s, n).1,
        longest_zero_run(s, n).1 > 0 ==> 0 <= longest_zero_run(s, n).0 < n
            && zero_run(s, longest_zero_run(s, n).0) == longest_zero_run(s, n).1,
        longest_zero_run(s, n).1 == 0 ==> longest_zero_run(s, n).0 == 0,
    decreases n,
{
    if n > 0 {
        lemma_longest_zero_run_is_longest(s, n - 1);
    }
}

/// The text of an IPv6 address that is not IPv4-mapped writes as "::" a run
/// of two or more zero segments that is at least as long as every run of
/// zero segments in the address, and the first of the longest ones; the
/// segments before and after it are written in hexadecimal, separated by
/// ':'. When no run of two or more zero segments exists, every segment is
/// written.
pub proof fn lemma_ipv6_text_compresses_longest_zero_run(s: Seq<u16>)
    requires
        s.len() == 8,
        !ipv4_mapped(s),
    ensures
        ({
            let (start, len) = longest_zero_run(s, 8);
            &&& forall|i: int| 0 <= i < 8 ==> #[trigger] zero_run(s, i) <= len
            &&& forall|i: int| 0 <= i < start ==> #[trigger] zero_run(s, i) < len
            &&& len > 1 ==> {
                &&& 0 <= start && start + len <= 8
                &&& forall|k: int| start <= k < start + len ==> #[trigger] s[k] == 0
                &&& ipv6_text(s) == hex_join(s.take(start)) + seq![':', ':'] + hex_join(s.skip(start + len))
            }
            &&& len <= 1 ==> ipv6_text(s) == hex_join(s)
        }),
{
    lemma_longest_zero_run_is_longest(s, 8);
    lemma_longest_zero_run_bound(s, 8);
    let (start, len) = longest_zero_run(s, 8);
    if len > 1 {
        lemma_zero_run_zeros(s, start);
    }
}

/// The segments in a run of zero segments are zero.
proof fn lemma_zero_run_zeros(s: Seq<u16>, i: int)
    requires
        0 <= i,
    ensures
        forall|k: int| i <= k < i + zero_run(s, i) ==> #[trigger] s[k] == 0,
    decreases s.len() - i,
{
    if 0 <= i < s.len() && s[i] == 0 {
        lemma_zero_run_zeros(s, i + 1);
        assert forall|k: int| i <= k < i + zero_run(s, i) implies #[trigger] s[k] == 0 by {
            if k > i {
                assert(i + 1 <= k < i + 1 + zero_run(s, i + 1));
            }
        }
    }
}

fn push_ipv4(out: &mut String, o: [u8; 4])
    ensures
        final(out)@ == old(out)@ + ipv4_text(o@),
{
    push_decimal(out, o[0] as u64);
    push_char(out, '.');
    push_decimal(out, o[1] as u64);
    push_char(out, '.');
    push_decimal(out, o[2] as u64);
    push_char(out, '.');
    push_decimal(out, o[3] as u64);
    assert(out@ =~= old(out)@ + ipv4_text(o@));
}

fn push_hex_join(out: &mut String, s: &[u16; 8], lo: usize, hi: usize)
    requires
        lo <= hi <= 8,
    ensures
        final(out)@ == old(out)@ + hex_join(s@.subrange(lo as int, hi as int)),
{
    let ghost start = out@;
    let mut i: usize = lo;
    assert(s@.subrange(lo as int, lo as int).len() == 0);
    while i < hi
        invariant
            lo <= i <= hi <= 8,
            s@.len() == 8,
            out@ == start + hex_join(s@.subrange(lo as int, i as int)),
        decreases hi - i,
    {
        let ghost before = out@;
        let ghost t = s@.subrange(lo as int, i + 1);
        assert(t.drop_last() == s@.subrange(lo as int, i as int));
        if i > lo {
            push_char(out, ':');
        }
        push_hex(out, s[i]);
        i = i + 1;
        assert(out@ =~= start + hex_join(s@.subrange(lo as int, i as int)));
    }
}

fn zero_run_at(s: &[u16; 8], i: usize) -> (r: usize)
    requires
        i <= 8,
    ensures
        r == zero_run(s@, i as int),
{
    let mut j: usize = i;
    while j < 8 && s[j] == 0
        invariant
            i <= j <= 8,
            s@.len() == 8,
            zero_run(s@, i as int) == (j - i) + zero_run(s@, j as int),
        decreases 8 - j,
    {
        j = j + 1;
    }
    j - i
}

fn push_ipv6(out: &mut String, seg: [u16; 8])
    ensures
        final(out)@ == old(out)@ + ipv6_text(seg@),
{
    if seg[0] == 0 && seg[1] == 0 && seg[2] == 0 && seg[3] == 0 && seg[4] == 0 && seg[5] == 0xffff {
        push_char(out, ':');
        push_char(out, ':');
        push_char(out, 'f');
        push_char(out, 'f');
        push_char(out, 'f');
        push_char(out, 'f');
        push_char(out, ':');
        let o: [u8; 4] = [(seg[6] / 256) as u8, (seg[6] % 256) as u8, (seg[7] / 256) as u8, (seg[7] % 256) as u8];
        push_ipv4(out, o);
        assert(out@ =~= old(out)@ + ipv6_text(seg@));
    } else {
        let mut start: usize = 0;
        let mut len: usize = 0;
        let mut n: usize = 0;
        while n < 8
            invariant
                n <= 8,
                seg@.len() == 8,
                (start as int, len as nat) == longest_zero_run(seg@, n as int),
            decreases 8 - n,
        {
            let r = zero_run_at(&seg, n);
            if r > len {
                start = n;
                len = r;
            }
            n = n + 1;
        }
        proof {
            lemma_longest_zero_run_bound(seg@, 8);
        }
        if len > 1 {
            push_hex_join(out, &seg, 0, start);
            push_char(out, ':');
            push_char(out, ':');
            push_hex_join(out, &seg, start + len, 8);
            assert(seg@.subrange(0, start as int) == seg@.take(start as int));
            assert(seg@.subrange(start + len, 8) == seg@.skip(start + len));
            assert(out@ =~= old(out)@ + ipv6_text(seg@));
        } else {
            push_hex_join(out, &seg, 0, 8);
            assert(seg@.subrange(0, 8) == seg@);
        }
    }
}

impl Ipv4Addr {
    /// The address with the given octets.
    pub fn new(a: u8, b: u8, c: u8, d: u8) -> (r: Self)
        ensures
            r.octets@ == seq![a, b, c, d],
    {
        let r = Ipv4Addr { octets: [a, b, c, d] };
        assert(r.octets@ =~= seq![a, b, c, d]);
        r
    }

    /// The loopback address 127.0.0.1.
    pub fn localhost() -> (r: Self)
        ensures
            r.octets@ == seq![127u8, 0u8, 0u8, 1u8],
    {
        Ipv4Addr::new(127, 0, 0, 1)
    }

    /// The four octets of this address.
    pub fn octets(&self) -> (r: [u8; 4])
        ensures
            r == self.octets,
    {
        self.octets
    }

    /// Whether this is a loopback address (127.0.0.0/8).
    pub fn is_loopback(&self) -> (r: bool)
        ensures
            r == (self.octets@[0] == 127),
    {
        self.octets[0] == 127
    }

    /// This address in dotted decimal notation.
    pub fn to_string(&self) -> (r: String)
        ensures
            r@ == ipv4_text(self.octets@),
    {
        let mut out = String::new();
        push_ipv4(&mut out, self.octets);
        out
    }
}

impl Ipv6Addr {
    /// The address with the given segments.
    pub fn new(a: u16, b: u16, c: u16, d: u16, e: u16, f: u16, g: u16, h: u16) -> (r: Self)
        ensures
            r.segments@ == seq![a, b, c, d, e, f, g, h],
    {
        let r = Ipv6Addr { segments: [a, b, c, d, e, f, g, h] };
        assert(r.segments@ =~= seq![a, b, c, d, e, f, g, h]);
        r
    }

    /// The loopback address `::1`.
    pub fn localhost() -> (r: Self)
        ensures
            r.segments@ == seq![0u16, 0u16, 0u16, 0u16, 0u16, 0u16, 0u16, 1u16],
    {
        Ipv6Addr::new(0, 0, 0, 0, 0, 0, 0, 1)
    }

    /// The eight segments of this address.
    pub fn segments(&self) -> (r: [u16; 8])
        ensures
            r == self.segments,
    {
        self.segments
    }

    /// Whether this is the loopback address `::1`.
    pub fn is_loopback(&self) -> (r: bool)
        ensures
            r == (self.segments@ == seq![0u16, 0u16, 0u16, 0u16, 0u16, 0u16, 0u16, 1u16]),
    {
        let s = self.segments;
        let r = s[0] == 0 && s[1] == 0 && s[2] == 0 && s[3] == 0 && s[4] == 0 && s[5] == 0 && s[6] == 0
            && s[7] == 1;
        assert(r == (s@ =~= seq![0u16, 0u16, 0u16, 0u16, 0u16, 0u16, 0u16, 1u16]));
        r
    }

    /// This address in the text form that std gives IPv6 addresses.
    pub fn to_string(&self) -> (r: String)
        ensures
            r@ == ipv6_text(self.segments@),
    {
        let mut out = String::new();
        push_ipv6(&mut out, self.segments);
        out
    }
}

/// A network address
#[derive(Debug, Eq, PartialEq, Hash, Ord)]
pub enum Address {
    IPv4(Ipv4Addr),
    IPv6(Ipv6Addr),
    Domain(Domain),
}

/// The view of an [`Address`].
pub enum AddressView {
    IPv4(Ipv4Addr),
    IPv6(Ipv6Addr),
    Domain(Seq<char>),
}

impl View for Address {
    type V = AddressView;

    open spec fn view(&self) -> AddressView {
        match self {
            Address::IPv4(a) => AddressView::IPv4(*a),
            Address::IPv6(a) => AddressView::IPv6(*a),
            Address::Domain(d) => AddressView::Domain(d@),
        }
    }
}

/// A domain address holds an accepted name.
pub open spec fn address_ok(a: AddressView) -> bool {
    match a {
        AddressView::Domain(d) => domain_name_ok(d),
        _ => true,
    }
}

/// The text of an address: dotted decimal, IPv6 text (without brackets), or
/// the domain name.
pub open spec fn address_text(a: AddressView) -> Seq<char> {
    match a {
        AddressView::IPv4(x) => ipv4_text(x.octets@),
        AddressView::IPv6(x) => ipv6_text(x.segments@),
        AddressView::Domain(d) => d,
    }
}

/// The address of the local host: a loopback IPv4 or IPv6 address, or the
/// domain "localhost" in any ASCII case.
pub open spec fn address_is_localhost(a: AddressView) -> bool {
    match a {
        AddressView::IPv4(x) => x.octets@[0] == 127,
        AddressView::IPv6(x) => x.segments@ == seq![0u16, 0u16, 0u16, 0u16, 0u16, 0u16, 0u16, 1u16],
        AddressView::Domain(d) => eq_ignore_ascii_case(d, "localhost"@),
    }
}

/// The size reported for an address: 4 or 16 bytes for IP addresses, the
/// length of the name for domains.
pub open spec fn address_size(a: AddressView) -> nat {
    match a {
        AddressView::IPv4(_) => 4,
        AddressView::IPv6(_) => 16,
        AddressView::Domain(d) => d.len(),
    }
}

/// The two addresses are equal as views.
pub fn same_address(a: &Address, b: &Address) -> (r: bool)
    ensures
        r == (a@ == b@),
{
    broadcast use vstd::array::group_array_axioms, vstd::array::lemma_array_index;

    match (a, b) {
        (Address::IPv4(x), Address::IPv4(y)) => {
            let r = x.octets[0] == y.octets[0] && x.octets[1] == y.octets[1] && x.octets[2] == y.octets[2]
                && x.octets[3] == y.octets[3];
            proof {
                if r {
                    assert(x.octets =~= y.octets);
                } else {
                    assert(x.octets != y.octets);
                }
            }
            r
        },
        (Address::IPv6(x), Address::IPv6(y)) => {
            let mut i: usize = 0;
            while i < 8
                invariant
                    i <= 8,
                    a@ == AddressView::IPv6(*x),
                    b@ == AddressView::IPv6(*y),
                    forall|j: int| 0 <= j < i ==> x.segments@[j] == y.segments@[j],
                decreases 8 - i,
            {
                if x.segments[i] != y.segments[i] {
                    assert(x.segments@[i as int] != y.segments@[i as int]);
                    assert(x.segments != y.segments);
                    return false;
                }
                i = i + 1;
            }
            assert(x.segments =~= y.segments);
            true
        },
        (Address::Domain(x), Address::Domain(y)) => crate::text::str_eq(x.as_str(), y.as_str()),
        _ => false,
    }
}

impl Clone for Address {
    fn clone(&self) -> (r: Self)
        ensures
            r@ == self@,
    {
        match self {
            Address::IPv4(a) => Address::IPv4(*a),
            Address::IPv6(a) => Address::IPv6(*a),
            Address::Domain(d) => Address::Domain(d.clone()),
        }
    }
}

impl Default for Address {
    fn default() -> (r: Self)
        ensures
            r@ == AddressView::IPv4(Ipv4Addr { octets: [127u8, 0u8, 0u8, 1u8] }),
    {
        Address::localhost()
    }
}

impl Address {
    /// The IPv4 address of the local host, 127.0.0.1.
    pub fn localhost() -> (r: Self)
        ensures
            r@ == AddressView::IPv4(Ipv4Addr { octets: [127u8, 0u8, 0u8, 1u8] }),
    {
        Address::IPv4(Ipv4Addr { octets: [127u8, 0u8, 0u8, 1u8] })
    }

    /// Return this [`Address`] as an [`IpAddr`], if it is an IP address.
    pub fn as_ip(&self) -> (r: Option<IpAddr>)
        ensures
            r == (match self@ {
                AddressView::IPv4(a) => Some(IpAddr::V4(a)),
                AddressView::IPv6(a) => Some(IpAddr::V6(a)),
                AddressView::Domain(_) => None::<IpAddr>,
            }),
    {
        match self {
            Address::IPv4(a) => Some(IpAddr::V4(*a)),
            Address::IPv6(a) => Some(IpAddr::V6(*a)),
            Address::Domain(_) => None,
        }
    }

    /// Return `true` if this is the [`Address`] of the local host.
    pub fn is_localhost(&self) -> (r: bool)
        ensures
            r == address_is_localhost(self@),
    {
        match self {
            Address::IPv4(a) => a.is_loopback(),
            Address::IPv6(a) => a.is_loopback(),
            Address::Domain(d) => str_eq_ignore_ascii_case(d.as_str(), "localhost"),
        }
    }

    /// The size of this address: 4 or 16 bytes for IP addresses, the length of
    /// the name for domains.
    pub fn get_size(&self) -> (r: usize)
        ensures
            r == address_size(self@),
    {
        match self {
            Address::IPv4(_) => 4,
            Address::IPv6(_) => 16,
            Address::Domain(d) => d.as_str().unicode_len(),
        }
    }

    /// This address as text: dotted decimal, IPv6 text without brackets, or
    /// the domain name.
    pub fn to_string(&self) -> (r: String)
        ensures
            r@ == address_text(self@),
            address_ok(self@),
    {
        match self {
            Address::IPv4(a) => a.to_string(),
            Address::IPv6(a) => a.to_string(),
            Address::Domain(d) => d.to_string(),
        }
    }
}

impl PartialEq<Ipv4Addr> for Address {
    fn eq(&self, other: &Ipv4Addr) -> (r: bool) {
        match self {
            Address::IPv4(a) => {
                let r = a.octets[0] == other.octets[0] && a.octets[1] == other.octets[1] && a.octets[2]
                    == other.octets[2] && a.octets[3] == other.octets[3];
                proof {
                    broadcast use vstd::array::group_array_axioms;

                    if r {
                        assert(a.octets =~= other.octets);
                    }
                }
                r
            },
            _ => false,
        }
    }
}

impl PartialEqSpecImpl<Ipv4Addr> for Address {
    open spec fn obeys_eq_spec() -> bool {
        true
    }

    open spec fn eq_spec(&self, other: &Ipv4Addr) -> bool {
        self@ == AddressView::IPv4(*other)
    }
}

impl PartialEq<Ipv6Addr> for Address {
    fn eq(&self, other: &Ipv6Addr) -> (r: bool) {
        match self {
            Address::IPv6(a) => {
                let mut i: usize = 0;
                while i < 8
                    invariant
                        i <= 8,
                        self@ == AddressView::IPv6(*a),
                        forall|j: int| 0 <= j < i ==> a.segments@[j] == other.segments@[j],
                    decreases 8 - i,
                {
                    if a.segments[i] != other.segments[i] {
                        proof {
                            broadcast use vstd::array::group_array_axioms;

                            assert(a.segments@[i as int] != other.segments@[i as int]);
                        }
                        return false;
                    }
                    i = i + 1;
                }
                proof {
                    broadcast use vstd::array::group_array_axioms;

                    assert(a.segments =~= other.segments);
                }
                true
            },
            _ => false,
        }
    }
}

impl PartialEqSpecImpl<Ipv6Addr> for Address {
    open spec fn obeys_eq_spec() -> bool {
        true
    }

    open spec fn eq_spec(&self, other: &Ipv6Addr) -> bool {
        self@ == AddressView::IPv6(*other)
    }
}

impl PartialEq<IpAddr> for Address {
    fn eq(&self, other: &IpAddr) -> (r: bool) {
        match other {
            IpAddr::V4(addr) => self == addr,
            IpAddr::V6(addr) => self == addr,
        }
    }
}

impl PartialEqSpecImpl<IpAddr> for Address {
    open spec fn obeys_eq_spec() -> bool {
        true
    }

    open spec fn eq_spec(&self, other: &IpAddr) -> bool {
        match other {
            IpAddr::V4(addr) => self@ == AddressView::IPv4(*addr),
            IpAddr::V6(addr) => self@ == AddressView::IPv6(*addr),
        }
    }
}

impl From<Ipv4Addr> for Address {
    fn from(addr: Ipv4Addr) -> Address {
        Address::IPv4(addr)
    }
}

impl FromSpecImpl<Ipv4Addr> for Address {
    open spec fn obeys_from_spec() -> bool {
        true
    }

    open spec fn from_spec(addr: Ipv4Addr) -> Address {
        Address::IPv4(addr)
    }
}

impl From<Ipv6Addr> for Address {
    fn from(addr: Ipv6Addr) -> Address {
        Address::IPv6(addr)
    }
}

impl FromSpecImpl<Ipv6Addr> for Address {
    open spec fn obeys_from_spec() -> bool {
        true
    }

    open spec fn from_spec(addr: Ipv6Addr) -> Address {
        Address::IPv6(addr)
    }
}

impl From<IpAddr> for Address {
    fn from(addr: IpAddr) -> Address {
        match addr {
            IpAddr::V4(a) => Address::IPv4(a),
            IpAddr::V6(a) => Address::IPv6(a),
        }
    }
}

impl FromSpecImpl<IpAddr> for Address {
    open spec fn obeys_from_spec() -> bool {
        true
    }

    open spec fn from_spec(addr: IpAddr) -> Address {
        match addr {
            IpAddr::V4(a) => Address::IPv4(a),
            IpAddr::V6(a) => Address::IPv6(a),
        }
    }
}

} // verus!
