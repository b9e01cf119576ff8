//! Reading the port that a host string names explicitly.

use vstd::prelude::*;
use vstd::string::StringExecFns;

use crate::error::ParseError;
use crate::text::{
    avoids, chars_of, decimal, decimal_u16, find_first, find_last, find_sep, first_index,
    first_sep, is_digit, last_index, lemma_decimal_avoids, lemma_decimal_digits,
    lemma_decimal_u16, lemma_first_index_at, lemma_first_sep, lemma_first_sep_at,
    lemma_last_index_at, lemma_last_index_none, sep_at, slice_chars, strip_last, string_of,
};

verus! {

/// A port number
pub type Port = u16;

/// The message of the error that `u16::from_str` reports for `s`.
pub uninterp spec fn int_error_text(s: Seq<char>) -> Seq<char>;

/// `str::parse::<u16>`: as std documents it, it accepts an optional `+`
/// followed by one or more ASCII digits whose value fits in a `u16`, and
/// nothing else. The error's message is std's `ParseIntError` text, which is
/// only named here.
#[verifier::external_body]
fn parse_u16(s: &str) -> (r: Result<u16, String>)
    ensures
        match r {
            Ok(v) => decimal_u16(s@) == Some(v),
            Err(e) => decimal_u16(s@) is None && e@ == int_error_text(s@),
        },
{
    s.parse::<u16>().map_err(|e| e.to_string())
}

/// The message of the error for a malformed host string `s`.
pub open spec fn invalid_host(s: Seq<char>) -> Seq<char> {
    "invalid host: "@ + s
}

/// What reading `port` as the port of host string `s` gives.
pub open spec fn spec_parse_port(port: Seq<char>, s: Seq<char>) -> Result<Option<u16>, Seq<char>> {
    match decimal_u16(port) {
        Some(v) => Ok(Some(v)),
        None => Err("invalid port in "@ + s + ": "@ + int_error_text(port)),
    }
}

/// The port that the host string `s` ("scheme://authority") names
/// explicitly, if any: after a bracketed IPv6 address it follows "]:", and
/// otherwise it follows the last ':' of the authority. A trailing '/' is
/// ignored. `Err` holds the message of the error.
pub open spec fn spec_explicit_port(s: Seq<char>) -> Result<Option<u16>, Seq<char>> {
    match first_sep(s) {
        None => Err(invalid_host(s)),
        Some(i) => {
            let a = strip_last(s.skip(i + 3), '/');
            if a.len() > 0 && a[0] == '[' {
                let r = a.skip(1);
                match first_index(r, ']') {
                    None => Err(invalid_host(s)),
                    Some(j) => {
                        let suffix = r.skip(j + 1);
                        if suffix.len() == 0 {
                            Ok(None)
                        } else if suffix[0] == ':' {
                            spec_parse_port(suffix.skip(1), s)
                        } else {
                            Err(invalid_host(s))
                        }
                    },
                }
            } else {
                match last_index(a, ':') {
                    None => Ok(None),
                    Some(k) => {
                        let port = a.skip(k + 1);
                        if port.len() == 0 {
                            Err(invalid_host(s))
                        } else {
                            spec_parse_port(port, s)
                        }
                    },
                }
            }
        },
    }
}

fn parse_port(port: &[char], s: &str) -> (r: Result<Option<Port>, ParseError>)
    ensures
        match r {
            Ok(p) => spec_parse_port(port@, s@) == Ok::<Option<u16>, Seq<char>>(p),
            Err(e) => spec_parse_port(port@, s@) == Err::<Option<u16>, Seq<char>>(e@),
        },
{
    let text = string_of(port);
    match parse_u16(text.as_str()) {
        Ok(v) => Ok(Some(v)),
        Err(cause) => {
            let mut message = String::from_str("invalid port in ");
            message.append(s);
            message.append(": ");
            message.append(cause.as_str());
            Err(ParseError::new(message))
        },
    }
}

/// Read the port that the host string `s` names explicitly, if any.
pub fn explicit_port(s: &str) -> (r: Result<Option<Port>, ParseError>)
    ensures
        match r {
            Ok(p) => spec_explicit_port(s@) == Ok::<Option<u16>, Seq<char>>(p),
            Err(e) => spec_explicit_port(s@) == Err::<Option<u16>, Seq<char>>(e@),
        },
{
    let v = chars_of(s);
    let i = match find_sep(&v) {
        Some(i) => i,
        None => return Err(ParseError::with_detail("invalid host: ", s)),
    };
    assert(i + 3 <= v.len());
    let mut a = slice_chars(&v, i + 3, v.len());
    if a.len() > 0 && a[a.len() - 1] == '/' {
        a = slice_chars(&a, 0, a.len() - 1);
    }
    assert(a@ == strip_last(v@.skip(i + 3), '/'));
    if a.len() > 0 && a[0] == '[' {
        let r = slice_chars(&a, 1, a.len());
        assert(r@ == a@.skip(1));
        match find_first(&r, ']') {
            None => Err(ParseError::with_detail("invalid host: ", s)),
            Some(j) => {
                let suffix = slice_chars(&r, j + 1, r.len());
                assert(suffix@ == r@.skip(j + 1));
                if suffix.len() == 0 {
                    Ok(None)
                } else if suffix[0] == ':' {
                    let port = slice_chars(&suffix, 1, suffix.len());
                    assert(port@ == suffix@.skip(1));
                    parse_port(&port, s)
                } else {
                    Err(ParseError::with_detail("invalid host: ", s))
                }
            },
        }
    } else {
        match find_last(&a, ':') {
            None => Ok(None),
            Some(k) => {
                let port = slice_chars(&a, k + 1, a.len());
                assert(port@ == a@.skip(k + 1));
                if port.len() == 0 {
                    Err(ParseError::with_detail("invalid host: ", s))
                } else {
                    parse_port(&port, s)
                }
            },
        }
    }
}

/// After a prefix that holds no "://", the first "://" of
/// `pr + "://" + rest` is the one that follows the prefix.
pub proof fn lemma_first_sep_after(pr: Seq<char>, rest: Seq<char>)
    requires
        first_sep(pr) is None,
    ensures
        first_sep(pr + seq![':', '/', '/'] + rest) == Some(pr.len() as int),
        (pr + seq![':', '/', '/'] + rest).skip(pr.len() as int + 3) == rest,
{
    let s = pr + seq![':', '/', '/'] + rest;
    let n = pr.len() as int;
    lemma_first_sep(pr);
    assert(sep_at(s, n));
    assert forall|j: int| 0 <= j < n implies !sep_at(s, j) by {
        if j + 3 <= n {
            assert(!sep_at(pr, j));
            assert(s[j] == pr[j] && s[j + 1] == pr[j + 1] && s[j + 2] == pr[j + 2]);
        } else if j == n - 1 {
            assert(s[j + 1] == ':');
        } else {
            assert(s[j + 2] == ':');
        }
    }
    lemma_first_sep_at(s, n);
    assert(s.skip(n + 3) =~= rest);
}

/// The port that "{pr}://{h}:{p}" names, with or without a trailing '/', is
/// `p`, and "{pr}://{h}" names none, for any prefix `pr` without "://" and
/// any non-empty `h` without ':', '/' or '['.
pub proof fn lemma_explicit_port_named(pr: Seq<char>, h: Seq<char>, p: u16)
    requires
        first_sep(pr) is None,
        h.len() > 0,
        avoids(h, ':'),
        avoids(h, '/'),
        avoids(h, '['),
    ensures
        spec_explicit_port(pr + seq![':', '/', '/'] + h + seq![':'] + decimal(p as nat))
            == Ok::<Option<u16>, Seq<char>>(Some(p)),
        spec_explicit_port(pr + seq![':', '/', '/'] + h + seq![':'] + decimal(p as nat) + seq!['/'])
            == Ok::<Option<u16>, Seq<char>>(Some(p)),
        spec_explicit_port(pr + seq![':', '/', '/'] + h) == Ok::<Option<u16>, Seq<char>>(None),
{
    let sep = seq![':', '/', '/'];
    let dec = decimal(p as nat);
    let a = h + seq![':'] + dec;
    let k = h.len() as int;
    lemma_decimal_u16(p);
    lemma_decimal_digits(p as nat);
    lemma_decimal_avoids(p as nat, ':');
    assert(h[0] != '[');
    assert(a[0] == h[0]);
    assert(a.last() == dec.last());
    assert(is_digit(dec[dec.len() - 1]));
    assert(strip_last(a, '/') == a);
    assert forall|j: int| k < j < a.len() implies a[j] != ':' by {
        assert(a[j] == dec[j - k - 1]);
    }
    lemma_last_index_at(a, ':', k);
    assert(a.skip(k + 1) =~= dec);
    lemma_first_sep_after(pr, a);
    assert(pr + sep + h + seq![':'] + dec == pr + sep + a) by {
        assert(pr + sep + h + seq![':'] + dec =~= pr + sep + a);
    }
    let b = a + seq!['/'];
    lemma_first_sep_after(pr, b);
    assert(strip_last(b, '/') =~= a);
    assert(pr + sep + h + seq![':'] + dec + seq!['/'] == pr + sep + b) by {
        assert(pr + sep + h + seq![':'] + dec + seq!['/'] =~= pr + sep + b);
    }
    lemma_first_sep_after(pr, h);
    assert(h.last() != '/');
    assert(strip_last(h, '/') == h);
    lemma_last_index_none(h, ':');
}

/// The port that "{pr}://[{x}]:{p}" names is `p`, and "{pr}://[{x}]" names
/// none, for any prefix `pr` without "://" and any `x` without ']'.
#[verifier::spinoff_prover]
#[verifier::rlimit(60)]
pub proof fn lemma_explicit_port_bracketed(pr: Seq<char>, x: Seq<char>, p: u16)
    requires
        first_sep(pr) is None,
        avoids(x, ']'),
    ensures
        spec_explicit_port(pr + seq![':', '/', '/', '['] + x + seq![']', ':'] + decimal(p as nat))
            == Ok::<Option<u16>, Seq<char>>(Some(p)),
        spec_explicit_port(pr + seq![':', '/', '/', '['] + x + seq![']'])
            == Ok::<Option<u16>, Seq<char>>(None),
{
    let sep = seq![':', '/', '/'];
    let dec = decimal(p as nat);
    lemma_decimal_u16(p);
    lemma_decimal_digits(p as nat);
    let a = seq!['['] + x + seq![']', ':'] + dec;
    assert(a.last() == dec.last());
    assert(is_digit(dec[dec.len() - 1]));
    assert(strip_last(a, '/') == a);
    let r = a.skip(1);
    assert(r =~= x + seq![']', ':'] + dec);
    assert forall|j: int| 0 <= j < x.len() implies r[j] != ']' by {
        assert(r[j] == x[j]);
    }
    lemma_first_index_at(r, ']', x.len() as int);
    assert(r.skip(x.len() as int + 1) =~= seq![':'] + dec);
    assert((seq![':'] + dec).skip(1) =~= dec);
    lemma_first_sep_after(pr, a);
    assert(pr + seq![':', '/', '/', '['] + x + seq![']', ':'] + dec == pr + sep + a) by {
        assert(pr + seq![':', '/', '/', '['] + x + seq![']', ':'] + dec =~= pr + sep + a);
    }
    let c = seq!['['] + x + seq![']'];
    assert(strip_last(c, '/') == c);
    let rc = c.skip(1);
    assert(rc =~= x + seq![']']);
    assert forall|j: int| 0 <= j < x.len() implies rc[j] != ']' by {
        assert(rc[j] == x[j]);
    }
    lemma_first_index_at(rc, ']', x.len() as int);
    assert(rc.skip(x.len() as int + 1).len() == 0);
    lemma_first_sep_after(pr, c);
    assert(pr + seq![':', '/', '/', '['] + x + seq![']'] == pr + sep + c) by {
        assert(pr + seq![':', '/', '/', '['] + x + seq![']'] =~= pr + sep + c);
    }
}

} // verus!
