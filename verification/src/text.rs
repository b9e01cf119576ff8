//! Character-sequence helpers shared by the parsers and formatters.

use vstd::prelude::*;

verus! {

/// The code of `c` after ASCII lower-casing (other characters are unchanged).
pub open spec fn ascii_lower_code(c: char) -> u32 {
    if 'A' <= c && c <= 'Z' {
        (c as u32 + 32) as u32
    } else {
        c as u32
    }
}

/// `a` and `b` are equal when ASCII letters are compared without regard to case.
pub open spec fn eq_ignore_ascii_case(a: Seq<char>, b: Seq<char>) -> bool {
    &&& a.len() == b.len()
    &&& forall|i: int| 0 <= i < a.len() ==> #[trigger] ascii_lower_code(a[i]) == ascii_lower_code(b[i])
}

/// Two characters are equal ignoring ASCII case exactly when they are equal,
/// or are the upper-case and the lower-case form of one ASCII letter.
pub proof fn lemma_ascii_case_chars(a: char, b: char)
    ensures
        (ascii_lower_code(a) == ascii_lower_code(b)) <==> (a == b || (0x41 <= a as u32 && a as u32
            <= 0x5a && b as u32 == a as u32 + 32) || (0x41 <= b as u32 && b as u32 <= 0x5a && a as u32
            == b as u32 + 32)),
{
}

fn lower_code(c: char) -> (r: u32)
    ensures
        r == ascii_lower_code(c),
{
    let x: u32 = c as u32;
    if 65 <= x && x <= 90 {
        x + 32
    } else {
        x
    }
}

/// Compare two strings, ignoring the case of ASCII letters.
pub fn str_eq_ignore_ascii_case(a: &str, b: &str) -> (r: bool)
    ensures
        r == eq_ignore_ascii_case(a@, b@),
{
    let x = chars_of(a);
    let y = chars_of(b);
    if x.len() != y.len() {
        return false;
    }
    let mut i: usize = 0;
    while i < x.len()
        invariant
            x@ == a@,
            y@ == b@,
            x@.len() == y@.len(),
            i <= x@.len(),
            forall|j: int| 0 <= j < i ==> #[trigger] ascii_lower_code(a@[j]) == ascii_lower_code(b@[j]),
        decreases x@.len() - i,
    {
        if lower_code(x[i]) != lower_code(y[i]) {
            return false;
        }
        i = i + 1;
    }
    true
}

/// Appends `c` to `s`, through `String::push`.
#[verifier::external_body]
pub(crate) fn push_char(s: &mut String, c: char)
    ensures
        final(s)@ == old(s)@.push(c),
{
    s.push(c);
}

/// The string made of the characters of `v`.
pub fn string_of(v: &[char]) -> (r: String)
    ensures
        r@ == v@,
{
    let mut r = String::new();
    let mut i: usize = 0;
    while i < v.len()
        invariant
            i <= v@.len(),
            r@ == v@.take(i as int),
        decreases v@.len() - i,
    {
        push_char(&mut r, v[i]);
        i = i + 1;
        assert(v@.take(i as int) == v@.take(i - 1).push(v@[i - 1]));
    }
    assert(v@.take(v@.len() as int) == v@);
    r
}

/// The characters of `s`, in order.
pub fn chars_of(s: &str) -> (v: Vec<char>)
    ensures
        v@ == s@,
{
    broadcast use vstd::string::group_string_axioms;
    let mut v: Vec<char> = Vec::new();
    for c in it: s.chars()
        invariant
            v@ == it.seq().take(it.index() as int),
    {
        v.push(c);
    }
    v
}


/// The index of the first occurrence of `c` in `s`, if any.
pub open spec fn first_index(s: Seq<char>, c: char) -> Option<int>
    decreases s.len(),
{
    if s.len() == 0 {
        None
    } else {
        match first_index(s.drop_last(), c) {
            Some(i) => Some(i),
            None => if s.last() == c {
                Some(s.len() - 1)
            } else {
                None
            },
        }
    }
}

/// The index of the last occurrence of `c` in `s`, if any.
pub open spec fn last_index(s: Seq<char>, c: char) -> Option<int>
    decreases s.len(),
{
    if s.len() == 0 {
        None
    } else if s.last() == c {
        Some(s.len() - 1)
    } else {
        last_index(s.drop_last(), c)
    }
}

/// `"://"` starts at index `i` of `s`.
pub open spec fn sep_at(s: Seq<char>, i: int) -> bool {
    0 <= i && i + 3 <= s.len() && s[i] == ':' && s[i + 1] == '/' && s[i + 2] == '/'
}

/// The index of the first occurrence of `"://"` in `s`, if any.
pub open spec fn first_sep(s: Seq<char>) -> Option<int>
    decreases s.len(),
{
    if s.len() < 3 {
        None
    } else {
        match first_sep(s.drop_last()) {
            Some(i) => Some(i),
            None => if sep_at(s, s.len() - 3) {
                Some(s.len() - 3)
            } else {
                None
            },
        }
    }
}

/// `s` split at every occurrence of `c` (an empty `s` gives one empty piece).
pub open spec fn split_char(s: Seq<char>, c: char) -> Seq<Seq<char>>
    decreases s.len(),
{
    if s.len() == 0 {
        seq![Seq::<char>::empty()]
    } else {
        let p = split_char(s.drop_last(), c);
        if s.last() == c {
            p.push(Seq::<char>::empty())
        } else {
            p.update(p.len() - 1, p.last().push(s.last()))
        }
    }
}

/// `s` without one trailing `c`, if it ends with `c`.
pub open spec fn strip_last(s: Seq<char>, c: char) -> Seq<char> {
    if s.len() > 0 && s.last() == c {
        s.drop_last()
    } else {
        s
    }
}

pub proof fn lemma_first_index(s: Seq<char>, c: char)
    ensures
        match first_index(s, c) {
            Some(i) => 0 <= i < s.len() && s[i] == c && forall|j: int| 0 <= j < i ==> s[j] != c,
            None => forall|j: int| 0 <= j < s.len() ==> s[j] != c,
        },
    decreases s.len(),
{
    if s.len() > 0 {
        let t = s.drop_last();
        lemma_first_index(t, c);
        assert forall|j: int| 0 <= j < t.len() implies t[j] == s[j] by {}
    }
}

pub proof fn lemma_last_index(s: Seq<char>, c: char)
    ensures
        match last_index(s, c) {
            Some(i) => 0 <= i < s.len() && s[i] == c && forall|j: int| i < j < s.len() ==> s[j] != c,
            None => forall|j: int| 0 <= j < s.len() ==> s[j] != c,
        },
    decreases s.len(),
{
    if s.len() > 0 {
        let t = s.drop_last();
        lemma_last_index(t, c);
        assert forall|j: int| 0 <= j < t.len() implies t[j] == s[j] by {}
    }
}

pub proof fn lemma_first_sep(s: Seq<char>)
    ensures
        match first_sep(s) {
            Some(i) => sep_at(s, i) && forall|j: int| 0 <= j < i ==> !sep_at(s, j),
            None => forall|j: int| !sep_at(s, j),
        },
    decreases s.len(),
{
    if s.len() >= 3 {
        lemma_first_sep(s.drop_last());
        let t = s.drop_last();
        assert forall|j: int| 0 <= j && j + 3 <= t.len() implies (sep_at(t, j) <==> sep_at(s, j)) by {}
    }
}

/// The first index of `c` in `v`.
pub fn find_first(v: &[char], c: char) -> (r: Option<usize>)
    ensures
        r matches Some(i) ==> first_index(v@, c) == Some(i as int),
        r is None ==> first_index(v@, c) is None,
        r matches Some(i) ==> i < v@.len(),
{
    proof {
        lemma_first_index(v@, c);
    }
    let mut i: usize = 0;
    while i < v.len()
        invariant
            i <= v@.len(),
            forall|j: int| 0 <= j < i ==> v@[j] != c,
        decreases v@.len() - i,
    {
        if v[i] == c {
            proof {
                lemma_first_index(v@, c);
                if let Some(k) = first_index(v@, c) {
                    if k < i {
                        assert(v@[k] != c);
                    } else if k > i {
                        assert(v@[i as int] != c);
                    }
                }
            }
            return Some(i);
        }
        i = i + 1;
    }
    None
}

/// The last index of `c` in `v`.
pub fn find_last(v: &[char], c: char) -> (r: Option<usize>)
    ensures
        r matches Some(i) ==> last_index(v@, c) == Some(i as int),
        r is None ==> last_index(v@, c) is None,
        r matches Some(i) ==> i < v@.len(),
{
    proof {
        lemma_last_index(v@, c);
    }
    let mut i: usize = v.len();
    while i > 0
        invariant
            i <= v@.len(),
            forall|j: int| i <= j < v@.len() ==> v@[j] != c,
        decreases i,
    {
        if v[i - 1] == c {
            proof {
                lemma_last_index(v@, c);
                if let Some(k) = last_index(v@, c) {
                    if k > i - 1 {
                        assert(v@[k] != c);
                    } else if k < i - 1 {
                        assert(v@[i - 1] != c);
                    }
                }
            }
            return Some(i - 1);
        }
        i = i - 1;
    }
    None
}

/// The first index of `"://"` in `v`.
pub fn find_sep(v: &[char]) -> (r: Option<usize>)
    ensures
        r matches Some(i) ==> first_sep(v@) == Some(i as int),
        r is None ==> first_sep(v@) is None,
        r matches Some(i) ==> i + 3 <= v@.len(),
{
    proof {
        lemma_first_sep(v@);
    }
    if v.len() < 3 {
        return None;
    }
    let mut i: usize = 0;
    while i <= v.len() - 3
        invariant
            3 <= v@.len(),
            i <= v@.len() - 2,
            forall|j: int| 0 <= j < i ==> !sep_at(v@, j),
        decreases v@.len() - i,
    {
        if v[i] == ':' && v[i + 1] == '/' && v[i + 2] == '/' {
            proof {
                lemma_first_sep(v@);
                assert(sep_at(v@, i as int));
                if let Some(k) = first_sep(v@) {
                    if k < i {
                        assert(!sep_at(v@, k));
                    }
                }
            }
            return Some(i);
        }
        i = i + 1;
    }
    None
}

/// The characters of `v` from `lo` up to `hi`.
pub fn slice_chars(v: &[char], lo: usize, hi: usize) -> (r: Vec<char>)
    requires
        lo <= hi <= v@.len(),
    ensures
        r@ == v@.subrange(lo as int, hi as int),
{
    let mut r: Vec<char> = Vec::new();
    let mut i: usize = lo;
    while i < hi
        invariant
            lo <= i <= hi <= v@.len(),
            r@ == v@.subrange(lo as int, i as int),
        decreases hi - i,
    {
        r.push(v[i]);
        i = i + 1;
    }
    r
}

/// `v` split at every occurrence of `c`.
pub fn split(v: &[char], c: char) -> (r: Vec<Vec<char>>)
    ensures
        r@.len() == split_char(v@, c).len(),
        forall|k: int| 0 <= k < r@.len() ==> #[trigger] r@[k]@ == split_char(v@, c)[k],
{
    let mut parts: Vec<Vec<char>> = Vec::new();
    let mut cur: Vec<char> = Vec::new();
    let mut i: usize = 0;
    while i < v.len()
        invariant
            i <= v@.len(),
            parts@.len() + 1 == split_char(v@.take(i as int), c).len(),
            forall|k: int| 0 <= k < parts@.len() ==> #[trigger] parts@[k]@ == split_char(v@.take(i as int), c)[k],
            cur@ == split_char(v@.take(i as int), c).last(),
        decreases v@.len() - i,
    {
        let ghost t = v@.take(i + 1);
        assert(t.drop_last() == v@.take(i as int));
        if v[i] == c {
            parts.push(cur);
            cur = Vec::new();
        } else {
            cur.push(v[i]);
        }
        i = i + 1;
    }
    assert(v@.take(v@.len() as int) == v@);
    parts.push(cur);
    parts
}


/// The decimal digit character for `d < 10`.
pub open spec fn digit_char(d: nat) -> char {
    (d + 48) as char
}

/// The lowercase hexadecimal digit character for `d < 16`.
pub open spec fn hex_digit_char(d: nat) -> char {
    if d < 10 {
        (d + 48) as char
    } else {
        (d + 87) as char
    }
}

/// `n` written in decimal, without leading zeros.
pub open spec fn decimal(n: nat) -> Seq<char>
    decreases n,
{
    if n < 10 {
        seq![digit_char(n)]
    } else {
        decimal(n / 10).push(digit_char(n % 10))
    }
}

/// `n` written in lowercase hexadecimal, without leading zeros.
pub open spec fn hex(n: nat) -> Seq<char>
    decreases n,
{
    if n < 16 {
        seq![hex_digit_char(n)]
    } else {
        hex(n / 16).push(hex_digit_char(n % 16))
    }
}

/// `c` is an ASCII decimal digit.
pub open spec fn is_digit(c: char) -> bool {
    '0' <= c && c <= '9'
}

/// Every character of `s` is an ASCII decimal digit.
pub open spec fn all_digits(s: Seq<char>) -> bool {
    forall|i: int| 0 <= i < s.len() ==> #[trigger] is_digit(s[i])
}

/// The value of the decimal numeral `s`.
pub open spec fn digits_value(s: Seq<char>) -> nat
    decreases s.len(),
{
    if s.len() == 0 {
        0
    } else {
        digits_value(s.drop_last()) * 10 + (s.last() as nat - 48) as nat
    }
}

/// The value of `s` read as a `u16` in decimal: an optional `+` sign, then at
/// least one digit, and nothing else; `None` if that is not the form of `s`
/// or the value does not fit.
pub open spec fn decimal_u16(s: Seq<char>) -> Option<u16> {
    let t = if s.len() > 0 && s[0] == '+' {
        s.skip(1)
    } else {
        s
    };
    if t.len() > 0 && all_digits(t) && digits_value(t) <= u16::MAX {
        Some(digits_value(t) as u16)
    } else {
        None
    }
}

/// Appends `n` in decimal to `out`.
pub fn push_decimal(out: &mut String, n: u64)
    ensures
        final(out)@ == old(out)@ + decimal(n as nat),
    decreases n,
{
    if n >= 10 {
        push_decimal(out, n / 10);
    }
    let d: u8 = (n % 10) as u8;
    let ch: char = (48u8 + d) as char;
    push_char(out, ch);
}

/// Appends `n` in lowercase hexadecimal to `out`.
pub fn push_hex(out: &mut String, n: u16)
    ensures
        final(out)@ == old(out)@ + hex(n as nat),
    decreases n,
{
    if n >= 16 {
        push_hex(out, n / 16);
    }
    let d: u8 = (n % 16) as u8;
    let ch: char = if d < 10 {
        (48u8 + d) as char
    } else {
        (87u8 + d) as char
    };
    push_char(out, ch);
}

pub proof fn lemma_decimal_digits(n: nat)
    ensures
        decimal(n).len() > 0,
        all_digits(decimal(n)),
        digits_value(decimal(n)) == n,
    decreases n,
{
    let d = n % 10;
    assert(digit_char(d) as nat == d + 48);
    if n >= 10 {
        lemma_decimal_digits(n / 10);
        let s = decimal(n);
        assert(s.drop_last() == decimal(n / 10));
        assert(s.last() == digit_char(d));
        assert(n == (n / 10) * 10 + n % 10) by (nonlinear_arith);
    } else {
        let s = decimal(n);
        assert(s.drop_last().len() == 0);
        assert(digits_value(s.drop_last()) == 0);
    }
}

/// A `u16` written in decimal reads back as the same `u16`.
pub proof fn lemma_decimal_u16(n: u16)
    ensures
        decimal_u16(decimal(n as nat)) == Some(n),
{
    lemma_decimal_digits(n as nat);
    assert(is_digit(decimal(n as nat)[0]));
}


/// Whether `a` and `b` hold the same characters.
pub fn str_eq(a: &str, b: &str) -> (r: bool)
    ensures
        r == (a@ == b@),
{
    let x = chars_of(a);
    let y = chars_of(b);
    if x.len() != y.len() {
        return false;
    }
    let mut i: usize = 0;
    while i < x.len()
        invariant
            x@ == a@,
            y@ == b@,
            x@.len() == y@.len(),
            i <= x@.len(),
            forall|j: int| 0 <= j < i ==> x@[j] == y@[j],
        decreases x@.len() - i,
    {
        if x[i] != y[i] {
            return false;
        }
        i = i + 1;
    }
    assert(x@ =~= y@);
    true
}


/// No character of `s` is `c`.
pub open spec fn avoids(s: Seq<char>, c: char) -> bool {
    forall|i: int| 0 <= i < s.len() ==> #[trigger] s[i] != c
}

/// No character of `s` is an ASCII upper-case letter.
pub open spec fn no_ascii_upper(s: Seq<char>) -> bool {
    forall|i: int| 0 <= i < s.len() ==> !('A' <= #[trigger] s[i] && s[i] <= 'Z')
}

/// `c` is an ASCII decimal digit or a lowercase hexadecimal letter.
pub open spec fn is_hex_char(c: char) -> bool {
    ('0' <= c && c <= '9') || ('a' <= c && c <= 'f')
}

pub proof fn lemma_first_index_at(s: Seq<char>, c: char, k: int)
    requires
        0 <= k < s.len(),
        s[k] == c,
        forall|j: int| 0 <= j < k ==> s[j] != c,
    ensures
        first_index(s, c) == Some(k),
{
    lemma_first_index(s, c);
    if let Some(i) = first_index(s, c) {
        if i < k {
            assert(s[i] != c);
        } else if i > k {
            assert(s[k] != c);
        }
    }
}

pub proof fn lemma_first_index_none(s: Seq<char>, c: char)
    requires
        avoids(s, c),
    ensures
        first_index(s, c) is None,
{
    lemma_first_index(s, c);
    if let Some(i) = first_index(s, c) {
        assert(s[i] != c);
    }
}

pub proof fn lemma_last_index_at(s: Seq<char>, c: char, k: int)
    requires
        0 <= k < s.len(),
        s[k] == c,
        forall|j: int| k < j < s.len() ==> s[j] != c,
    ensures
        last_index(s, c) == Some(k),
{
    lemma_last_index(s, c);
    if let Some(i) = last_index(s, c) {
        if i < k {
            assert(s[k] != c);
        } else if i > k {
            assert(s[i] != c);
        }
    }
}

pub proof fn lemma_last_index_none(s: Seq<char>, c: char)
    requires
        avoids(s, c),
    ensures
        last_index(s, c) is None,
{
    lemma_last_index(s, c);
    if let Some(i) = last_index(s, c) {
        assert(s[i] != c);
    }
}

pub proof fn lemma_first_sep_at(s: Seq<char>, k: int)
    requires
        sep_at(s, k),
        forall|j: int| 0 <= j < k ==> !sep_at(s, j),
    ensures
        first_sep(s) == Some(k),
{
    lemma_first_sep(s);
    if let Some(i) = first_sep(s) {
        if i < k {
            assert(!sep_at(s, i));
        } else if i > k {
            assert(!sep_at(s, k));
        }
    } else {
        assert(!sep_at(s, k));
    }
}

/// The value of a hexadecimal digit: '0'..'9' are 0..9 and 'a'..'f' are
/// 10..15.
pub open spec fn hex_digit_value(c: char) -> nat {
    if '0' <= c && c <= '9' {
        (c as nat - 48) as nat
    } else {
        (c as nat - 87) as nat
    }
}

/// The value of the hexadecimal numeral `s`.
pub open spec fn hex_value(s: Seq<char>) -> nat
    decreases s.len(),
{
    if s.len() == 0 {
        0
    } else {
        hex_value(s.drop_last()) * 16 + hex_digit_value(s.last())
    }
}

/// `n` written in hexadecimal reads back as `n`, and has no leading zero.
pub proof fn lemma_hex_value(n: nat)
    ensures
        hex_value(hex(n)) == n,
        hex(n).len() > 1 ==> hex(n)[0] != '0',
    decreases n,
{
    let d = n % 16;
    if n >= 16 {
        lemma_hex_value(n / 16);
        let s = hex(n);
        assert(s.drop_last() == hex(n / 16));
        assert(hex_digit_value(hex_digit_char(d)) == d);
        assert(n == (n / 16) * 16 + n % 16) by (nonlinear_arith);
        if n / 16 < 16 {
            assert(hex(n / 16)[0] == hex_digit_char(n / 16));
        } else {
            lemma_hex_chars(n / 256);
            assert(n / 16 / 16 == n / 256);
            assert(hex(n / 16).len() > 1);
        }
        assert(s[0] == hex(n / 16)[0]);
    } else {
        let s = hex(n);
        assert(s.drop_last().len() == 0);
        assert(hex_value(s.drop_last()) == 0);
    }
}

pub proof fn lemma_hex_chars(n: nat)
    ensures
        hex(n).len() > 0,
        forall|i: int| 0 <= i < hex(n).len() ==> #[trigger] is_hex_char(hex(n)[i]),
    decreases n,
{
    let d = n % 16;
    assert(is_hex_char(hex_digit_char(d)));
    if n >= 16 {
        lemma_hex_chars(n / 16);
        let s = hex(n);
        assert(s.drop_last() == hex(n / 16));
        assert forall|i: int| 0 <= i < s.len() implies #[trigger] is_hex_char(s[i]) by {
            if i < s.len() - 1 {
                assert(s[i] == hex(n / 16)[i]);
            }
        }
    }
}


pub proof fn lemma_avoids_concat(a: Seq<char>, b: Seq<char>, c: char)
    requires
        avoids(a, c),
        avoids(b, c),
    ensures
        avoids(a + b, c),
{
    assert forall|i: int| 0 <= i < (a + b).len() implies #[trigger] (a + b)[i] != c by {
        if i < a.len() {
            assert((a + b)[i] == a[i]);
        } else {
            assert((a + b)[i] == b[i - a.len()]);
        }
    }
}

pub proof fn lemma_decimal_avoids(n: nat, c: char)
    requires
        !is_digit(c),
    ensures
        avoids(decimal(n), c),
{
    lemma_decimal_digits(n);
    assert forall|i: int| 0 <= i < decimal(n).len() implies #[trigger] decimal(n)[i] != c by {
        assert(is_digit(decimal(n)[i]));
    }
}

pub proof fn lemma_hex_avoids(n: nat, c: char)
    requires
        !is_hex_char(c),
    ensures
        avoids(hex(n), c),
{
    lemma_hex_chars(n);
    assert forall|i: int| 0 <= i < hex(n).len() implies #[trigger] hex(n)[i] != c by {
        assert(is_hex_char(hex(n)[i]));
    }
}

} // verus!
