//! Paths made of validated segments.

use vstd::prelude::*;
use vstd::string::StringExecFns;

use crate::error::ParseError;
use crate::text::{avoids, chars_of, decimal, push_char, slice_chars, split, split_char, string_of};

verus! {

/// `c` is a Unicode white-space character (the `White_Space` property).
pub open spec fn is_unicode_whitespace(c: char) -> bool {
    let x = c as u32;
    ||| (0x09 <= x && x <= 0x0d)
    ||| x == 0x20
    ||| x == 0x85
    ||| x == 0xa0
    ||| x == 0x1680
    ||| (0x2000 <= x && x <= 0x200a)
    ||| x == 0x2028
    ||| x == 0x2029
    ||| x == 0x202f
    ||| x == 0x205f
    ||| x == 0x3000
}

/// `c` is one of the single characters that a path segment may not hold.
pub open spec fn is_reserved_char(c: char) -> bool {
    ||| c == '/'
    ||| c == '~'
    ||| c == '$'
    ||| c == '`'
    ||| c == '&'
    ||| c == '|'
    ||| c == '='
    ||| c == '^'
    ||| c == '{'
    ||| c == '}'
    ||| c == '<'
    ||| c == '>'
    ||| c == '\''
    ||| c == '"'
    ||| c == '?'
    ||| c == ':'
    ||| c == '@'
    ||| c == '#'
    ||| c == '('
    ||| c == ')'
}

/// The character at `i` of `s` is allowed in a path segment.
pub open spec fn segment_char_ok(s: Seq<char>, i: int) -> bool {
    &&& s[i] as u32 >= 0x20
    &&& !is_reserved_char(s[i])
    &&& !is_unicode_whitespace(s[i])
    &&& !(i + 1 < s.len() && s[i] == '.' && s[i + 1] == '.')
}

/// `s` is a valid path segment: non-empty, with no ASCII control character,
/// no reserved character, no "..", and no white space.
pub open spec fn valid_segment(s: Seq<char>) -> bool {
    &&& s.len() > 0
    &&& forall|i: int| 0 <= i < s.len() ==> #[trigger] segment_char_ok(s, i)
}

/// The number of bytes that `c` takes in UTF-8.
pub open spec fn utf8_len(c: char) -> nat {
    let x = c as u32;
    if x < 0x80 {
        1
    } else if x < 0x800 {
        2
    } else if x < 0x10000 {
        3
    } else {
        4
    }
}

/// The number of bytes that `s` takes in UTF-8.
pub open spec fn utf8_size(s: Seq<char>) -> nat
    decreases s.len(),
{
    if s.len() == 0 {
        0
    } else {
        utf8_size(s.drop_last()) + utf8_len(s.last())
    }
}

/// The index of the first character of `s` that `p` holds of, if any.
pub open spec fn first_such(s: Seq<char>, p: spec_fn(char) -> bool) -> Option<int>
    decreases s.len(),
{
    if s.len() == 0 {
        None
    } else {
        match first_such(s.drop_last(), p) {
            Some(i) => Some(i),
            None => if p(s.last()) {
                Some(s.len() - 1)
            } else {
                None
            },
        }
    }
}

/// The patterns that a path segment may not hold, in the order in which
/// they are looked for.
pub open spec fn reserved_patterns() -> Seq<Seq<char>> {
    seq![
        seq!['/'], seq!['.', '.'], seq!['~'], seq!['$'], seq!['`'], seq!['&'], seq!['|'],
        seq!['='], seq!['^'], seq!['{'], seq!['}'], seq!['<'], seq!['>'], seq!['\''],
        seq!['"'], seq!['?'], seq![':'], seq!['@'], seq!['#'], seq!['('], seq![')'],
    ]
}

/// `pat` occurs somewhere in `s`.
pub open spec fn holds_pattern(s: Seq<char>, pat: Seq<char>) -> bool {
    exists|i: int| 0 <= i && i + pat.len() <= s.len() && #[trigger] s.subrange(i, i + pat.len()) == pat
}

/// The first of `pats` that occurs in `s`, if any.
pub open spec fn first_pattern(s: Seq<char>, pats: Seq<Seq<char>>) -> Option<Seq<char>>
    decreases pats.len(),
{
    if pats.len() == 0 {
        None
    } else if holds_pattern(s, pats[0]) {
        Some(pats[0])
    } else {
        first_pattern(s, pats.skip(1))
    }
}

/// The message of the error for an invalid path segment `s`: it is empty;
/// or it holds an ASCII control character (the first one is given by its
/// code); or it holds a reserved pattern (the first in the order of
/// [`reserved_patterns`]); or it holds white space (the first one is given
/// by its byte offset in UTF-8).
pub open spec fn segment_error_text(s: Seq<char>) -> Seq<char> {
    let id = seq!['I', 'd', ' '] + s;
    if s.len() == 0 {
        "cannot construct an empty Id"@
    } else {
        match first_such(s, |c: char| (c as u32) < 0x20) {
            Some(i) => id + " contains an ASCII control character "@ + decimal(s[i] as nat),
            None => match first_pattern(s, reserved_patterns()) {
                Some(p) => id + " contains disallowed pattern "@ + p,
                None => match first_such(s, |c: char| is_unicode_whitespace(c)) {
                    Some(i) => id + " is not allowed to contain whitespace at byte "@ + decimal(
                        utf8_size(s.take(i)),
                    ),
                    None => Seq::<char>::empty(),
                },
            },
        }
    }
}

/// `hr_id::Id::from_str`. As its source shows (`validate_id`), it accepts
/// exactly the non-empty strings with no character below U+0020, none of its
/// reserved patterns ("/", "..", "~", "$", "`", "&", "|", "=", "^", "{", "}",
/// "<", ">", "'", "\"", "?", ":", "@", "#", "(", ")") and no white space
/// (`char::is_whitespace`), and its error's message is the one that
/// [`segment_error_text`] gives, for the first of those checks that fails.
#[verifier::external_body]
fn check_segment(s: &str) -> (r: Result<(), String>)
    ensures
        r is Ok <==> valid_segment(s@),
        r matches Err(e) ==> e@ == segment_error_text(s@),
{
    s.parse::<hr_id::Id>().map(|_| ()).map_err(|e| e.to_string())
}

/// A segment of a [`PathBuf`]: a human-readable identifier that is safe to
/// use in a URL path or a file path.
#[derive(Debug, Eq, Hash, PartialEq, Ord)]
pub struct PathSegment {
    id: String,
}

impl View for PathSegment {
    type V = Seq<char>;

    closed spec fn view(&self) -> Seq<char> {
        self.id@
    }
}

impl PathSegment {
    #[verifier::type_invariant]
    spec fn well_formed(self) -> bool {
        valid_segment(self.id@)
    }

    /// Parse a path segment.
    pub fn parse(s: &str) -> (r: Result<PathSegment, ParseError>)
        ensures
            match r {
                Ok(p) => valid_segment(s@) && p@ == s@,
                Err(e) => !valid_segment(s@) && e@ == segment_error_text(s@),
            },
    {
        match check_segment(s) {
            Ok(()) => Ok(PathSegment { id: s.to_owned() }),
            Err(message) => Err(ParseError::new(message)),
        }
    }

    /// Borrow the text of this segment.
    pub fn as_str(&self) -> (r: &str)
        ensures
            r@ == self@,
            valid_segment(self@),
    {
        proof {
            use_type_invariant(self);
        }
        self.id.as_str()
    }

    /// The text of this segment as a new `String`.
    pub fn to_string(&self) -> (r: String)
        ensures
            r@ == self@,
            valid_segment(self@),
    {
        String::from_str(self.as_str())
    }
}

impl Clone for PathSegment {
    fn clone(&self) -> (r: Self)
        ensures
            r@ == self@,
    {
        proof {
            use_type_invariant(self);
        }
        PathSegment { id: self.id.clone() }
    }
}

impl std::str::FromStr for PathSegment {
    type Err = ParseError;

    fn from_str(s: &str) -> (r: Result<PathSegment, ParseError>)
        ensures
            match r {
                Ok(p) => valid_segment(s@) && p@ == s@,
                Err(e) => !valid_segment(s@) && e@ == segment_error_text(s@),
            },
    {
        PathSegment::parse(s)
    }
}

/// The segments joined by '/', each preceded by a '/'.
pub open spec fn segments_text(v: Seq<Seq<char>>) -> Seq<char>
    decreases v.len(),
{
    if v.len() == 0 {
        Seq::<char>::empty()
    } else {
        segments_text(v.drop_last()) + seq!['/'] + v.last()
    }
}

/// The text of a path: "/" when it is empty, else each segment after a '/'.
pub open spec fn path_text(v: Seq<Seq<char>>) -> Seq<char> {
    if v.len() == 0 {
        seq!['/']
    } else {
        segments_text(v)
    }
}

/// What parsing the pieces as segments gives: all of them, or the message
/// of the error for the first one that is not a valid segment.
pub open spec fn spec_parse_segments(p: Seq<Seq<char>>) -> Result<Seq<Seq<char>>, Seq<char>>
    decreases p.len(),
{
    if p.len() == 0 {
        Ok(Seq::<Seq<char>>::empty())
    } else {
        match spec_parse_segments(p.drop_last()) {
            Err(e) => Err(e),
            Ok(v) => if valid_segment(p.last()) {
                Ok(v.push(p.last()))
            } else {
                Err(segment_error_text(p.last()))
            },
        }
    }
}

/// What parsing `s` as a path gives: "/" is the empty path; otherwise `s`
/// must start and must not end with '/', and the pieces between the '/'s
/// must be valid segments. `Err` holds the message of the error.
pub open spec fn spec_parse_path(s: Seq<char>) -> Result<Seq<Seq<char>>, Seq<char>> {
    if s.len() == 1 && s[0] == '/' {
        Ok(Seq::<Seq<char>>::empty())
    } else if s.len() == 0 || s[0] != '/' {
        Err("cannot parse "@ + s + " as a path: it must start with '/'"@)
    } else if s.last() == '/' {
        Err("cannot parse "@ + s + " as a path: it must not end with '/'"@)
    } else {
        spec_parse_segments(split_char(s.skip(1), '/'))
    }
}

/// A buffer of segments held in a `smallvec::SmallVec`, which keeps its
/// first eight items inline.
#[verifier::external_body]
pub struct SegmentBuffer {
    items: smallvec::SmallVec<[PathSegment; 8]>,
}

/// The texts of the segments that a buffer holds, in order.
pub uninterp spec fn buffered_segments(v: SegmentBuffer) -> Seq<Seq<char>>;

/// `SmallVec::new`: an empty vector.
#[verifier::external_body]
fn segment_buffer() -> (r: SegmentBuffer)
    ensures
        buffered_segments(r) == Seq::<Seq<char>>::empty(),
{
    SegmentBuffer { items: smallvec::SmallVec::new() }
}

/// `SmallVec::push`: appends `segment` after the items already held (it
/// panics only when the length would overflow `usize`).
#[verifier::external_body]
fn buffer_push(v: &mut SegmentBuffer, segment: PathSegment)
    requires
        buffered_segments(*old(v)).len() < usize::MAX,
    ensures
        buffered_segments(*final(v)) == buffered_segments(*old(v)).push(segment@),
{
    v.items.push(segment)
}

/// `SmallVec::into_vec`: a `Vec` of the same items in the same order.
#[verifier::external_body]
fn buffer_into_vec(v: SegmentBuffer) -> (r: Vec<PathSegment>)
    ensures
        segment_views(r@) == buffered_segments(v),
{
    v.items.into_vec()
}

/// The texts of the segments.
pub open spec fn segment_views(v: Seq<PathSegment>) -> Seq<Seq<char>> {
    Seq::new(v.len(), |i: int| v[i]@)
}

/// The characters of each piece.
pub open spec fn piece_views(v: Seq<Vec<char>>) -> Seq<Seq<char>> {
    Seq::new(v.len(), |i: int| v[i]@)
}

/// Parse each piece as a segment, in order.
pub fn parse_segments(pieces: &Vec<Vec<char>>) -> (r: Result<Vec<PathSegment>, ParseError>)
    ensures
        match r {
            Ok(v) => spec_parse_segments(piece_views(pieces@)) == Ok::<Seq<Seq<char>>, Seq<char>>(
                segment_views(v@),
            ),
            Err(e) => spec_parse_segments(piece_views(pieces@)) == Err::<Seq<Seq<char>>, Seq<char>>(e@),
        },
{
    let ghost all = piece_views(pieces@);
    let mut out = segment_buffer();
    let mut k: usize = 0;
    assert(all.take(0) =~= Seq::<Seq<char>>::empty());
    while k < pieces.len()
        invariant
            k <= pieces@.len(),
            all == piece_views(pieces@),
            buffered_segments(out) == all.take(k as int),
            spec_parse_segments(all.take(k as int)) == Ok::<Seq<Seq<char>>, Seq<char>>(all.take(k as int)),
        decreases pieces@.len() - k,
    {
        let text = string_of(&pieces[k]);
        assert(all.take(k + 1).drop_last() == all.take(k as int));
        assert(all.take(k + 1).last() == pieces@[k as int]@);
        match PathSegment::parse(text.as_str()) {
            Ok(seg) => {
                buffer_push(&mut out, seg);
                assert(all.take(k as int).push(all[k as int]) =~= all.take(k + 1));
            },
            Err(e) => {
                proof {
                    lemma_parse_segments_err(all, k as int + 1, e@);
                }
                return Err(e);
            },
        }
        k = k + 1;
    }
    assert(all.take(pieces@.len() as int) == all);
    Ok(buffer_into_vec(out))
}

/// An error for a prefix of the pieces is the error for all of them.
proof fn lemma_parse_segments_err(all: Seq<Seq<char>>, n: int, e: Seq<char>)
    requires
        0 <= n <= all.len(),
        spec_parse_segments(all.take(n)) == Err::<Seq<Seq<char>>, Seq<char>>(e),
    ensures
        spec_parse_segments(all) == Err::<Seq<Seq<char>>, Seq<char>>(e),
    decreases all.len() - n,
{
    if n < all.len() {
        assert(all.take(n + 1).drop_last() == all.take(n));
        lemma_parse_segments_err(all, n + 1, e);
    } else {
        assert(all.take(n) == all);
    }
}

/// Splitting at `c` a text that ends with `c` and a piece free of `c` gives
/// the pieces of the text before, then that piece.
pub proof fn lemma_split_append(x: Seq<char>, y: Seq<char>, c: char)
    requires
        avoids(y, c),
    ensures
        split_char(x + seq![c] + y, c) == split_char(x, c).push(y),
    decreases y.len(),
{
    let z = x + seq![c] + y;
    if y.len() == 0 {
        assert(z.drop_last() =~= x);
        assert(z.last() == c);
        assert(y =~= Seq::<char>::empty());
    } else {
        let y0 = y.drop_last();
        assert(avoids(y0, c)) by {
            assert forall|i: int| 0 <= i < y0.len() implies #[trigger] y0[i] != c by {
                assert(y0[i] == y[i]);
            }
        }
        lemma_split_append(x, y0, c);
        assert(z.drop_last() =~= x + seq![c] + y0);
        assert(z.last() == y.last());
        assert(y.last() != c);
        assert(y0.push(y.last()) =~= y);
        assert(split_char(z, c) =~= split_char(x, c).push(y));
    }
}

/// A text free of `c` splits into itself alone.
pub proof fn lemma_split_single(y: Seq<char>, c: char)
    requires
        avoids(y, c),
    ensures
        split_char(y, c) == seq![y],
    decreases y.len(),
{
    if y.len() > 0 {
        let y0 = y.drop_last();
        assert(avoids(y0, c)) by {
            assert forall|i: int| 0 <= i < y0.len() implies #[trigger] y0[i] != c by {
                assert(y0[i] == y[i]);
            }
        }
        lemma_split_single(y0, c);
        assert(y0.push(y.last()) =~= y);
        assert(split_char(y, c) =~= seq![y]);
    } else {
        assert(y =~= Seq::<char>::empty());
    }
}

/// A valid segment holds no '/'.
pub proof fn lemma_segment_avoids_slash(s: Seq<char>)
    requires
        valid_segment(s),
    ensures
        avoids(s, '/'),
{
    assert forall|i: int| 0 <= i < s.len() implies #[trigger] s[i] != '/' by {
        assert(segment_char_ok(s, i));
    }
}

pub proof fn lemma_segments_text_split(v: Seq<Seq<char>>)
    requires
        v.len() > 0,
        forall|i: int| 0 <= i < v.len() ==> #[trigger] valid_segment(v[i]),
    ensures
        segments_text(v).len() > 0,
        segments_text(v)[0] == '/',
        split_char(segments_text(v).skip(1), '/') == v,
    decreases v.len(),
{
    let d = v.drop_last();
    lemma_segment_avoids_slash(v.last());
    assert(valid_segment(v[v.len() - 1]));
    if v.len() == 1 {
        assert(d.len() == 0);
        assert(segments_text(d) == Seq::<char>::empty());
        assert(segments_text(v).skip(1) =~= v.last());
        lemma_split_single(v.last(), '/');
        assert(v =~= seq![v.last()]);
    } else {
        assert forall|i: int| 0 <= i < d.len() implies #[trigger] valid_segment(d[i]) by {
            assert(d[i] == v[i]);
        }
        lemma_segments_text_split(d);
        let t = segments_text(d);
        assert(segments_text(v).skip(1) =~= t.skip(1) + seq!['/'] + v.last());
        lemma_split_append(t.skip(1), v.last(), '/');
        assert(d.push(v.last()) =~= v);
    }
}

pub proof fn lemma_parse_valid_segments(v: Seq<Seq<char>>)
    requires
        forall|i: int| 0 <= i < v.len() ==> #[trigger] valid_segment(v[i]),
    ensures
        spec_parse_segments(v) == Ok::<Seq<Seq<char>>, Seq<char>>(v),
    decreases v.len(),
{
    if v.len() > 0 {
        let d = v.drop_last();
        assert forall|i: int| 0 <= i < d.len() implies #[trigger] valid_segment(d[i]) by {
            assert(d[i] == v[i]);
        }
        lemma_parse_valid_segments(d);
        assert(valid_segment(v[v.len() - 1]));
        assert(d.push(v.last()) =~= v);
    } else {
        assert(v =~= Seq::<Seq<char>>::empty());
    }
}

/// The text of a path made of valid segments parses back to that path.
pub proof fn lemma_path_text_parse(v: Seq<Seq<char>>)
    requires
        forall|i: int| 0 <= i < v.len() ==> #[trigger] valid_segment(v[i]),
    ensures
        spec_parse_path(path_text(v)) == Ok::<Seq<Seq<char>>, Seq<char>>(v),
{
    if v.len() > 0 {
        lemma_segments_text_split(v);
        lemma_parse_valid_segments(v);
        let t = segments_text(v);
        let l = v.last();
        assert(valid_segment(v[v.len() - 1]));
        assert(t.last() == l.last());
        assert(segment_char_ok(l, l.len() - 1));
        assert(t.len() == segments_text(v.drop_last()).len() + 1 + l.len());
    } else {
        assert(path_text(v) =~= seq!['/']);
        assert(v =~= Seq::<Seq<char>>::empty());
    }
}

pub proof fn lemma_parse_segments_ok(p: Seq<Seq<char>>)
    ensures
        spec_parse_segments(p) is Ok ==> spec_parse_segments(p) == Ok::<Seq<Seq<char>>, Seq<char>>(p)
            && valid_path(p),
    decreases p.len(),
{
    if p.len() > 0 {
        let d = p.drop_last();
        lemma_parse_segments_ok(d);
        if spec_parse_segments(p) is Ok {
            assert(d.push(p.last()) =~= p);
            assert forall|i: int| 0 <= i < p.len() implies #[trigger] valid_segment(p[i]) by {
                if i < d.len() {
                    assert(p[i] == d[i]);
                }
            }
        }
    } else {
        assert(p =~= Seq::<Seq<char>>::empty());
    }
}

/// Every segment of the path is valid.
pub open spec fn valid_path(v: Seq<Seq<char>>) -> bool {
    forall|i: int| 0 <= i < v.len() ==> #[trigger] valid_segment(v[i])
}

/// A path made of validated segments.
#[derive(Debug, Eq, Hash, PartialEq, Ord)]
pub struct PathBuf {
    segments: Vec<PathSegment>,
}

impl View for PathBuf {
    type V = Seq<Seq<char>>;

    closed spec fn view(&self) -> Seq<Seq<char>> {
        segment_views(self.segments@)
    }
}

impl PathBuf {
    #[verifier::type_invariant]
    spec fn well_formed(self) -> bool {
        valid_path(segment_views(self.segments@))
    }

    /// The empty path.
    pub fn new() -> (r: Self)
        ensures
            r@ == Seq::<Seq<char>>::empty(),
    {
        let r = PathBuf { segments: Vec::new() };
        assert(r@ =~= Seq::<Seq<char>>::empty());
        r
    }

    /// A path with the given segments.
    pub fn from_slice(segments: &[PathSegment]) -> (r: Self)
        ensures
            r@ == segment_views(segments@),
    {
        let mut out: Vec<PathSegment> = Vec::new();
        let mut i: usize = 0;
        while i < segments.len()
            invariant
                i <= segments@.len(),
                out@.len() == i,
                forall|j: int| 0 <= j < i ==> #[trigger] out@[j]@ == segments@[j]@,
                forall|j: int| 0 <= j < i ==> #[trigger] valid_segment(out@[j]@),
            decreases segments@.len() - i,
        {
            let seg = segments[i].clone();
            proof {
                use_type_invariant(&seg);
            }
            out.push(seg);
            i = i + 1;
        }
        assert(segment_views(out@) =~= segment_views(segments@));
        PathBuf { segments: out }
    }

    /// A path made of the given segments.
    pub fn from_segments(segments: Vec<PathSegment>) -> (r: Self)
        ensures
            r@ == segment_views(segments@),
    {
        let mut out: Vec<PathSegment> = Vec::new();
        let mut rest = segments;
        let ghost all = rest@;
        let n = rest.len();
        let mut reversed: Vec<PathSegment> = Vec::new();
        while rest.len() > 0
            invariant
                reversed@.len() + rest@.len() == n,
                n == all.len(),
                rest@ == all.take(rest@.len() as int),
                forall|j: int| 0 <= j < reversed@.len() ==> #[trigger] reversed@[j]@ == all[n - 1 - j]@,
                forall|j: int| 0 <= j < reversed@.len() ==> #[trigger] valid_segment(reversed@[j]@),
            decreases rest@.len(),
        {
            let seg = rest.pop().unwrap();
            proof {
                use_type_invariant(&seg);
            }
            reversed.push(seg);
        }
        while reversed.len() > 0
            invariant
                reversed@.len() + out@.len() == n,
                n == all.len(),
                forall|j: int| 0 <= j < reversed@.len() ==> #[trigger] reversed@[j]@ == all[n - 1 - j]@,
                forall|j: int| 0 <= j < reversed@.len() ==> #[trigger] valid_segment(reversed@[j]@),
                forall|j: int| 0 <= j < out@.len() ==> #[trigger] out@[j]@ == all[j]@,
                forall|j: int| 0 <= j < out@.len() ==> #[trigger] valid_segment(out@[j]@),
            decreases reversed@.len(),
        {
            let seg = reversed.pop().unwrap();
            out.push(seg);
        }
        assert(segment_views(out@) =~= segment_views(all));
        PathBuf { segments: out }
    }

    /// The number of segments in this path.
    pub fn len(&self) -> (r: usize)
        ensures
            r == self@.len(),
    {
        self.segments.len()
    }

    /// Whether this path has no segments.
    pub fn is_empty(&self) -> (r: bool)
        ensures
            r == (self@.len() == 0),
    {
        self.segments.len() == 0
    }

    /// Borrow the segments of this path.
    pub fn as_slice(&self) -> (r: &[PathSegment])
        ensures
            segment_views(r@) == self@,
            valid_path(self@),
    {
        proof {
            use_type_invariant(self);
        }
        self.segments.as_slice()
    }

    /// This path with `segment` appended.
    pub fn append(self, segment: PathSegment) -> (r: Self)
        ensures
            r@ == self@.push(segment@),
    {
        proof {
            use_type_invariant(&self);
            use_type_invariant(&segment);
        }
        let ghost before = self@;
        let mut segments = self.segments;
        segments.push(segment);
        assert(segment_views(segments@) =~= before.push(segment@));
        PathBuf { segments }
    }

    /// Append `segment` to this path.
    pub fn push(&mut self, segment: PathSegment)
        ensures
            final(self)@ == old(self)@.push(segment@),
    {
        proof {
            use_type_invariant(&*self);
            use_type_invariant(&segment);
        }
        let mut segments: Vec<PathSegment> = Vec::new();
        std::mem::swap(&mut segments, &mut self.segments);
        let ghost before = segments@;
        segments.push(segment);
        assert(segment_views(segments@) =~= segment_views(before).push(segment@));
        self.segments = segments;
    }

    /// Append each of `segments` to this path, in order.
    pub fn extend(&mut self, segments: Vec<PathSegment>)
        ensures
            final(self)@ == old(self)@ + segment_views(segments@),
    {
        let tail = PathBuf::from_segments(segments);
        let tail_segments = tail.as_slice();
        let ghost start = self@;
        let mut i: usize = 0;
        while i < tail_segments.len()
            invariant
                i <= tail_segments@.len(),
                self@ == start + segment_views(tail_segments@).take(i as int),
            decreases tail_segments@.len() - i,
        {
            let seg = tail_segments[i].clone();
            self.push(seg);
            i = i + 1;
            assert(segment_views(tail_segments@).take(i as int) =~= segment_views(tail_segments@).take(
                i - 1,
            ).push(tail_segments@[i - 1]@));
        }
        assert(segment_views(tail_segments@).take(tail_segments@.len() as int) == segment_views(
            tail_segments@,
        ));
    }

    /// Whether this path has exactly the given segments.
    pub fn same_segments(&self, other: &[PathSegment]) -> (r: bool)
        ensures
            r == (self@ == segment_views(other@)),
    {
        if self.segments.len() != other.len() {
            assert(self@.len() != segment_views(other@).len());
            return false;
        }
        let mut i: usize = 0;
        while i < other.len()
            invariant
                self.segments@.len() == other@.len(),
                i <= other@.len(),
                forall|j: int| 0 <= j < i ==> #[trigger] self.segments@[j]@ == other@[j]@,
            decreases other@.len() - i,
        {
            if !crate::text::str_eq(self.segments[i].as_str(), other[i].as_str()) {
                assert(self@[i as int] != segment_views(other@)[i as int]);
                return false;
            }
            i = i + 1;
        }
        assert(self@ =~= segment_views(other@));
        true
    }

    /// Parse a path such as "/a/b".
    pub fn parse(s: &str) -> (r: Result<PathBuf, ParseError>)
        ensures
            match r {
                Ok(p) => spec_parse_path(s@) == Ok::<Seq<Seq<char>>, Seq<char>>(p@),
                Err(e) => spec_parse_path(s@) == Err::<Seq<Seq<char>>, Seq<char>>(e@),
            },
    {
        let v = chars_of(s);
        let n = v.len();
        if n == 1 && v[0] == '/' {
            return Ok(PathBuf::new());
        }
        if n == 0 || v[0] != '/' {
            let mut message = String::from_str("cannot parse ");
            message.append(s);
            message.append(" as a path: it must start with '/'");
            return Err(ParseError::new(message));
        }
        if v[n - 1] == '/' {
            let mut message = String::from_str("cannot parse ");
            message.append(s);
            message.append(" as a path: it must not end with '/'");
            return Err(ParseError::new(message));
        }
        let rest = slice_chars(&v, 1, n);
        assert(rest@ == s@.skip(1));
        let pieces = split(&rest, '/');
        assert(piece_views(pieces@) =~= split_char(s@.skip(1), '/'));
        let segments = parse_segments(&pieces)?;
        proof {
            lemma_parse_segments_ok(piece_views(pieces@));
        }
        Ok(PathBuf { segments })
    }

    /// This path as text: "/" when empty, else "/" before each segment.
    pub fn to_string(&self) -> (r: String)
        ensures
            r@ == path_text(self@),
            spec_parse_path(r@) == Ok::<Seq<Seq<char>>, Seq<char>>(self@),
    {
        proof {
            use_type_invariant(self);
        }
        let mut out = String::new();
        let n = self.segments.len();
        if n == 0 {
            push_char(&mut out, '/');
            assert(out@ =~= path_text(self@));
        } else {
            let mut i: usize = 0;
            assert(self@.take(0) =~= Seq::<Seq<char>>::empty());
            while i < n
                invariant
                    n == self@.len(),
                    self@ == segment_views(self.segments@),
                    i <= n,
                    out@ == segments_text(self@.take(i as int)),
                decreases n - i,
            {
                let ghost before = self@.take(i as int);
                push_char(&mut out, '/');
                out.append(self.segments[i].as_str());
                i = i + 1;
                assert(self@.take(i as int).drop_last() =~= before);
                assert(out@ =~= segments_text(self@.take(i as int)));
            }
            assert(self@.take(n as int) =~= self@);
        }
        proof {
            lemma_path_text_parse(self@);
        }
        out
    }
}

impl Default for PathBuf {
    fn default() -> (r: Self)
        ensures
            r@ == Seq::<Seq<char>>::empty(),
    {
        PathBuf::new()
    }
}

impl Clone for PathBuf {
    fn clone(&self) -> (r: Self)
        ensures
            r@ == self@,
    {
        PathBuf::from_slice(self.as_slice())
    }
}

impl std::str::FromStr for PathBuf {
    type Err = ParseError;

    fn from_str(s: &str) -> (r: Result<PathBuf, ParseError>)
        ensures
            match r {
                Ok(p) => spec_parse_path(s@) == Ok::<Seq<Seq<char>>, Seq<char>>(p@),
                Err(e) => spec_parse_path(s@) == Err::<Seq<Seq<char>>, Seq<char>>(e@),
            },
    {
        PathBuf::parse(s)
    }
}

} // verus!
