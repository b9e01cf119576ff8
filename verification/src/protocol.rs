//! The protocol of a link.

use vstd::prelude::*;

use vstd::string::StringExecFns;

use crate::error::ParseError;
use crate::text::{ascii_lower_code, eq_ignore_ascii_case, str_eq_ignore_ascii_case};

verus! {

/// The protocol portion of a link (e.g. "http" or "https").
#[derive(Copy, Clone, Debug, Hash, PartialEq, Eq, Structural, Ord)]
pub enum Protocol {
    HTTP,
    HTTPS,
}

impl Protocol {
    /// The URL scheme that this protocol is written as.
    pub open spec fn scheme(self) -> Seq<char> {
        match self {
            Protocol::HTTP => "http"@,
            Protocol::HTTPS => "https"@,
        }
    }

    /// Return this [`Protocol`] as a URL scheme.
    pub fn as_str(self) -> (r: &'static str)
        ensures
            r@ == self.scheme(),
    {
        match self {
            Protocol::HTTP => "http",
            Protocol::HTTPS => "https",
        }
    }
}

/// The protocol that `s` names, "http" or "https" in any ASCII case.
pub open spec fn spec_protocol(s: Seq<char>) -> Option<Protocol> {
    if eq_ignore_ascii_case(s, "http"@) {
        Some(Protocol::HTTP)
    } else if eq_ignore_ascii_case(s, "https"@) {
        Some(Protocol::HTTPS)
    } else {
        None
    }
}

/// Protocol names are read without regard to ASCII case: texts that are
/// equal ignoring ASCII case name the same protocol, or none; and the
/// scheme of each protocol names it.
pub proof fn lemma_protocol_ignores_case(s: Seq<char>, t: Seq<char>, p: Protocol)
    requires
        eq_ignore_ascii_case(s, t),
    ensures
        spec_protocol(s) == spec_protocol(t),
        spec_protocol(p.scheme()) == Some(p),
{
    reveal_strlit("http");
    reveal_strlit("https");
    assert(eq_ignore_ascii_case(s, "http"@) == eq_ignore_ascii_case(t, "http"@)) by {
        if eq_ignore_ascii_case(s, "http"@) {
            assert forall|i: int| 0 <= i < t.len() implies #[trigger] ascii_lower_code(t[i])
                == ascii_lower_code("http"@[i]) by {
                assert(ascii_lower_code(s[i]) == ascii_lower_code(t[i]));
            }
        }
        if eq_ignore_ascii_case(t, "http"@) {
            assert forall|i: int| 0 <= i < s.len() implies #[trigger] ascii_lower_code(s[i])
                == ascii_lower_code("http"@[i]) by {
                assert(ascii_lower_code(s[i]) == ascii_lower_code(t[i]));
            }
        }
    }
    assert(eq_ignore_ascii_case(s, "https"@) == eq_ignore_ascii_case(t, "https"@)) by {
        if eq_ignore_ascii_case(s, "https"@) {
            assert forall|i: int| 0 <= i < t.len() implies #[trigger] ascii_lower_code(t[i])
                == ascii_lower_code("https"@[i]) by {
                assert(ascii_lower_code(s[i]) == ascii_lower_code(t[i]));
            }
        }
        if eq_ignore_ascii_case(t, "https"@) {
            assert forall|i: int| 0 <= i < s.len() implies #[trigger] ascii_lower_code(s[i])
                == ascii_lower_code("https"@[i]) by {
                assert(ascii_lower_code(s[i]) == ascii_lower_code(t[i]));
            }
        }
    }
    assert(eq_ignore_ascii_case("http"@, "http"@));
    assert(eq_ignore_ascii_case("https"@, "https"@));
    assert(!eq_ignore_ascii_case("https"@, "http"@));
}

/// The message of the error for a protocol (or host string) `s`.
pub open spec fn invalid_protocol(s: Seq<char>) -> Seq<char> {
    "invalid protocol: "@ + s
}

impl Protocol {
    /// Parse a protocol name, ignoring ASCII case.
    pub fn parse(s: &str) -> (r: Result<Protocol, ParseError>)
        ensures
            match r {
                Ok(p) => spec_protocol(s@) == Some(p),
                Err(e) => spec_protocol(s@) is None && e@ == invalid_protocol(s@),
            },
    {
        if str_eq_ignore_ascii_case(s, "http") {
            Ok(Protocol::HTTP)
        } else if str_eq_ignore_ascii_case(s, "https") {
            Ok(Protocol::HTTPS)
        } else {
            Err(ParseError::with_detail("invalid protocol: ", s))
        }
    }

    /// This protocol's scheme as a new `String`.
    pub fn to_string(self) -> (r: String)
        ensures
            r@ == self.scheme(),
    {
        String::from_str(self.as_str())
    }
}

impl std::str::FromStr for Protocol {
    type Err = ParseError;

    fn from_str(s: &str) -> (r: Result<Protocol, ParseError>)
        ensures
            match r {
                Ok(p) => spec_protocol(s@) == Some(p),
                Err(e) => spec_protocol(s@) is None && e@ == invalid_protocol(s@),
            },
    {
        Protocol::parse(s)
    }
}

impl Default for Protocol {
    fn default() -> (r: Self)
        ensures
            r == Protocol::HTTP,
    {
        Protocol::HTTP
    }
}

} // verus!
