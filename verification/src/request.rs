//! The parts of a request that routing and response logic read: its path and its headers.
use vstd::prelude::*;

use vstd::string::StringSliceAdditionalSpecFns;

use crate::url_encoded::{
    decode_step, strip_prefix_spec, DecodeStep, StripOutcome, UrlDecodedCharacter, UrlEncodedString,
};

verus! {

/// The lower-case form of an ASCII byte; other bytes are unchanged.
pub open spec fn ascii_lower(b: u8) -> u8 {
    if 65 <= b <= 90 {
        (b + 32) as u8
    } else {
        b
    }
}

/// Whether two byte strings are equal ignoring ASCII case.
pub open spec fn eq_ignore_ascii_case(a: Seq<u8>, b: Seq<u8>) -> bool {
    a.len() == b.len() && forall|i: int| 0 <= i < a.len() ==> #[trigger] ascii_lower(a[i]) == ascii_lower(b[i])
}

/// Whether `b` is ASCII whitespace (space, tab, line feed, form feed, carriage return).
pub open spec fn is_ascii_whitespace(b: u8) -> bool {
    b == 0x20 || b == 0x09 || b == 0x0A || b == 0x0C || b == 0x0D
}

/// The lower-case form of an ASCII byte.
pub fn to_ascii_lower(b: u8) -> (r: u8)
    ensures
        r == ascii_lower(b),
{
    if 65 <= b && b <= 90 {
        b + 32
    } else {
        b
    }
}

/// Whether `b` is ASCII whitespace.
pub fn ascii_whitespace(b: u8) -> (r: bool)
    ensures
        r == is_ascii_whitespace(b),
{
    b == 0x20 || b == 0x09 || b == 0x0A || b == 0x0C || b == 0x0D
}

/// Whether two byte strings are equal ignoring ASCII case.
pub fn bytes_eq_ignore_ascii_case(a: &[u8], b: &[u8]) -> (r: bool)
    ensures
        r == eq_ignore_ascii_case(a@, b@),
{
    if a.len() != b.len() {
        return false;
    }
    let mut i: usize = 0;
    while i < a.len()
        invariant
            a@.len() == b@.len(),
            i <= a@.len(),
            forall|k: int| 0 <= k < i ==> #[trigger] ascii_lower(a@[k]) == ascii_lower(b@[k]),
        decreases a.len() - i,
    {
        if to_ascii_lower(a[i]) != to_ascii_lower(b[i]) {
            return false;
        }
        i = i + 1;
    }
    true
}

/// `s` without leading and trailing ASCII whitespace.
pub open spec fn trim_ascii(s: Seq<u8>) -> Seq<u8>
    decreases s.len(),
{
    if s.len() > 0 && is_ascii_whitespace(s[0]) {
        trim_ascii(s.drop_first())
    } else if s.len() > 0 && is_ascii_whitespace(s.last()) {
        trim_ascii(s.drop_last())
    } else {
        s
    }
}

/// The pieces of `s` between the separator byte `sep`, in order.
pub open spec fn split_bytes(s: Seq<u8>, sep: u8) -> Seq<Seq<u8>>
    decreases s.len(),
{
    if s.len() == 0 {
        seq![Seq::empty()]
    } else {
        let r = split_bytes(s.drop_last(), sep);
        if s.last() == sep {
            r.push(Seq::empty())
        } else {
            r.update(r.len() - 1, r.last().push(s.last()))
        }
    }
}

/// Text holding no separator is a single piece.
pub proof fn lemma_split_bytes_without_separator(s: Seq<u8>, sep: u8)
    requires
        forall|i: int| 0 <= i < s.len() ==> s[i] != sep,
    ensures
        split_bytes(s, sep) == seq![s],
    decreases s.len(),
{
    if s.len() > 0 {
        let init = s.drop_last();
        assert forall|i: int| 0 <= i < init.len() implies init[i] != sep by {
            assert(init[i] == s[i]);
        }
        lemma_split_bytes_without_separator(init, sep);
        assert(s.last() == s[s.len() - 1]);
        assert(init.push(s.last()) =~= s);
        let r = split_bytes(init, sep);
        assert(s[s.len() - 1] != sep);
        assert(r.update(r.len() - 1, r.last().push(s.last())) =~= seq![s]);
    } else {
        assert(s =~= Seq::<u8>::empty());
    }
}

/// The pieces of a text are never none.
pub proof fn lemma_split_bytes_nonempty(s: Seq<u8>, sep: u8)
    ensures
        split_bytes(s, sep).len() >= 1,
    decreases s.len(),
{
    if s.len() > 0 {
        lemma_split_bytes_nonempty(s.drop_last(), sep);
    }
}

/// A header value.
pub struct HeaderValue {
    value: Vec<u8>,
}

impl View for HeaderValue {
    type V = Seq<u8>;

    closed spec fn view(&self) -> Seq<u8> {
        self.value@
    }
}

fn copy_range(s: &[u8], start: usize, end: usize) -> (r: Vec<u8>)
    requires
        start <= end <= s@.len(),
    ensures
        r@ == s@.subrange(start as int, end as int),
{
    let mut out: Vec<u8> = Vec::new();
    let mut i = start;
    while i < end
        invariant
            start <= i <= end,
            end <= s@.len(),
            out@ == s@.subrange(start as int, i as int),
        decreases end - i,
    {
        out.push(s[i]);
        i = i + 1;
        assert(out@ =~= s@.subrange(start as int, i as int));
    }
    out
}

impl HeaderValue {
    /// A header value holding `value`.
    pub fn new(value: &[u8]) -> (r: Self)
        ensures
            r@ == value@,
    {
        HeaderValue { value: copy_range(value, 0, value.len()) }
    }

    /// The raw bytes of the value.
    pub fn as_raw(&self) -> (r: &[u8])
        ensures
            r@ == self@,
    {
        self.value.as_slice()
    }

    /// Whether the value equals `other`, ignoring ASCII case.
    pub fn eq_str(&self, other: &str) -> (r: bool)
        ensures
            r == eq_ignore_ascii_case(self@, other.spec_bytes()),
    {
        bytes_eq_ignore_ascii_case(self.value.as_slice(), other.as_bytes())
    }

    /// The value without leading and trailing ASCII whitespace.
    pub fn trim(&self) -> (r: HeaderValue)
        ensures
            r@ == trim_ascii(self@),
    {
        let s = self.value.as_slice();
        let mut start: usize = 0;
        let mut end: usize = s.len();
        assert(s@.subrange(0, s@.len() as int) =~= s@);
        while start < end && ascii_whitespace(s[start])
            invariant
                start <= end <= s@.len(),
                end == s@.len(),
                trim_ascii(s@.subrange(start as int, end as int)) == trim_ascii(s@),
            decreases end - start,
        {
            assert(s@.subrange(start as int, end as int).drop_first() =~= s@.subrange(start + 1, end as int));
            start = start + 1;
        }
        while start < end && ascii_whitespace(s[end - 1])
            invariant
                start <= end <= s@.len(),
                start == end || !is_ascii_whitespace(s@[start as int]),
                trim_ascii(s@.subrange(start as int, end as int)) == trim_ascii(s@),
            decreases end - start,
        {
            assert(s@.subrange(start as int, end as int).drop_last() =~= s@.subrange(start as int, end - 1));
            end = end - 1;
        }
        HeaderValue { value: copy_range(s, start, end) }
    }

    /// The pieces of the value between `,` separators, each without surrounding whitespace.
    pub fn split_commas(&self) -> (r: Vec<HeaderValue>)
        ensures
            r@.len() == split_bytes(self@, 0x2C).len(),
            forall|i: int| 0 <= i < r@.len() ==> #[trigger] r@[i]@ == trim_ascii(split_bytes(self@, 0x2C)[i]),
    {
        let s = self.value.as_slice();
        let mut out: Vec<HeaderValue> = Vec::new();
        let ghost mut raw: Seq<Seq<u8>> = Seq::empty();
        let mut start: usize = 0;
        let mut i: usize = 0;
        assert(s@.take(0) =~= Seq::<u8>::empty());
        assert(raw.push(s@.subrange(0, 0)) =~= seq![Seq::<u8>::empty()]);
        while i < s.len()
            invariant
                start <= i <= s@.len(),
                split_bytes(s@.take(i as int), 0x2C) == raw.push(s@.subrange(start as int, i as int)),
                out@.len() == raw.len(),
                forall|k: int| 0 <= k < raw.len() ==> #[trigger] out@[k]@ == trim_ascii(raw[k]),
            decreases s.len() - i,
        {
            assert(s@.take(i + 1).drop_last() =~= s@.take(i as int));
            if s[i] == 0x2C {
                let piece = HeaderValue { value: copy_range(s, start, i) };
                out.push(piece.trim());
                proof {
                    raw = raw.push(s@.subrange(start as int, i as int));
                }
                start = i + 1;
                assert(s@.subrange(start as int, (i + 1) as int) =~= Seq::<u8>::empty());
            } else {
                assert(s@.subrange(start as int, (i + 1) as int) =~= s@.subrange(start as int, i as int).push(s@[i as int]));
            }
            i = i + 1;
        }
        let last = HeaderValue { value: copy_range(s, start, s.len()) };
        out.push(last.trim());
        proof {
            raw = raw.push(s@.subrange(start as int, i as int));
            assert(s@.take(i as int) =~= s@);
        }
        out
    }
}

/// The headers of a request, in the order they were received.
pub struct Headers {
    entries: Vec<(Vec<u8>, Vec<u8>)>,
}

impl View for Headers {
    type V = Seq<(Seq<u8>, Seq<u8>)>;

    closed spec fn view(&self) -> Seq<(Seq<u8>, Seq<u8>)> {
        Seq::new(self.entries@.len(), |i: int| (self.entries@[i].0@, self.entries@[i].1@))
    }
}

/// The value of the first header in `entries` whose name equals `name` ignoring ASCII case.
pub open spec fn header_lookup(entries: Seq<(Seq<u8>, Seq<u8>)>, name: Seq<u8>) -> Option<Seq<u8>>
    decreases entries.len(),
{
    if entries.len() == 0 {
        None
    } else if eq_ignore_ascii_case(entries[0].0, name) {
        Some(entries[0].1)
    } else {
        header_lookup(entries.drop_first(), name)
    }
}

impl Headers {
    /// No headers.
    pub fn new() -> (r: Self)
        ensures
            r@ == Seq::<(Seq<u8>, Seq<u8>)>::empty(),
    {
        Headers { entries: Vec::new() }
    }

    /// Add a header after the existing ones.
    pub fn push(&mut self, name: &str, value: &[u8])
        ensures
            final(self)@ == old(self)@.push((name.spec_bytes(), value@)),
    {
        let n = name.as_bytes();
        let name_bytes = copy_range(n, 0, n.len());
        let value_bytes = copy_range(value, 0, value.len());
        assert(name_bytes@ =~= name.spec_bytes());
        assert(value_bytes@ =~= value@);
        self.entries.push((name_bytes, value_bytes));
        assert(self@ =~= old(self)@.push((name.spec_bytes(), value@)));
    }

    /// The value of the first header named `name`, ignoring ASCII case.
    pub fn get(&self, name: &str) -> (r: Option<HeaderValue>)
        ensures
            match header_lookup(self@, name.spec_bytes()) {
                None => r is None,
                Some(v) => r matches Some(h) && h@ == v,
            },
    {
        let name_bytes = name.as_bytes();
        let mut i: usize = 0;
        assert(self@.skip(0) =~= self@);
        while i < self.entries.len()
            invariant
                i <= self.entries@.len(),
                name_bytes@ == name.spec_bytes(),
                header_lookup(self@, name_bytes@) == header_lookup(self@.skip(i as int), name_bytes@),
            decreases self.entries.len() - i,
        {
            let ghost rest = self@.skip(i as int);
            assert(rest[0] == (self.entries@[i as int].0@, self.entries@[i as int].1@));
            assert(rest.drop_first() =~= self@.skip(i + 1));
            if bytes_eq_ignore_ascii_case(self.entries[i].0.as_slice(), name_bytes) {
                let v = &self.entries[i].1;
                assert(v@.subrange(0, v@.len() as int) =~= v@);
                assert(header_lookup(rest, name_bytes@) == Some(rest[0].1));
                let h = HeaderValue { value: copy_range(v.as_slice(), 0, v.len()) };
                assert(h@ == rest[0].1);
                return Some(h);
            }
            i = i + 1;
        }
        None
    }
}

/// The outcome of stripping a literal '/' and then a prefix from an encoded path.
pub open spec fn strip_slash_and_prefix_spec(s: Seq<char>, prefix: Seq<char>) -> StripOutcome {
    match decode_step(s) {
        DecodeStep::Item(Ok(UrlDecodedCharacter::Literal(c)), n) => if c == '/' && n <= s.len() {
            strip_prefix_spec(s.skip(n as int), prefix)
        } else {
            StripOutcome::NoMatch
        },
        _ => StripOutcome::NoMatch,
    }
}

/// The index of the first '/' in `s` at or after `i`, or the length of `s` if there is none.
pub open spec fn next_slash(s: Seq<char>, i: int) -> int
    decreases s.len() - i,
{
    if i >= s.len() {
        s.len() as int
    } else if s[i] == '/' {
        i
    } else {
        next_slash(s, i + 1)
    }
}

/// The path of a request, still url-encoded.
pub struct Path(pub UrlEncodedString);

impl Path {
    /// The encoded characters of the path.
    pub open spec fn text(&self) -> Seq<char> {
        self.0@
    }

    /// The path with the prefix removed, as [`UrlEncodedString::strip_prefix`] does.
    pub fn strip_prefix(self, prefix: &str) -> (r: Option<Path>)
        ensures
            match strip_prefix_spec(self.text(), prefix@) {
                StripOutcome::Stripped(rest) => r is Some && r->Some_0.text() == rest,
                _ => r is None,
            },
    {
        match self.0.strip_prefix(prefix) {
            Some(rest) => Some(Path(rest)),
            None => None,
        }
    }

    /// The path with a literal '/' and then `prefix` removed.
    pub fn strip_slash_and_prefix(self, prefix: &str) -> (r: Option<Path>)
        ensures
            match strip_slash_and_prefix_spec(self.text(), prefix@) {
                StripOutcome::Stripped(rest) => r is Some && r->Some_0.text() == rest,
                _ => r is None,
            },
    {
        let mut chars = self.0.chars();
        match chars.next() {
            Some(Ok(UrlDecodedCharacter::Literal(c))) => {
                if c != '/' {
                    return None;
                }
            },
            _ => {
                return None;
            },
        }
        Path(chars.as_str()).strip_prefix(prefix)
    }

    /// Split off the first segment: the path must start with '/', and the segment runs up to
    /// the next '/' (which stays in the rest of the path) or to the end.
    pub fn split_first_segment(self) -> (r: Option<(UrlEncodedString, Path)>)
        ensures
            if self.text().len() > 0 && self.text()[0] == '/' {
                let k = next_slash(self.text(), 1);
                r matches Some((seg, rest)) && seg@ == self.text().subrange(1, k) && rest.text()
                    == self.text().skip(k)
            } else {
                r is None
            },
    {
        let s = &self.0;
        if s.len() == 0 || s.char_at(0) != '/' {
            return None;
        }
        let mut k: usize = 1;
        while k < s.len() && s.char_at(k) != '/'
            invariant
                1 <= k <= s@.len(),
                s@[0] == '/',
                next_slash(s@, 1) == next_slash(s@, k as int),
            decreases s@.len() - k,
        {
            k = k + 1;
        }
        let segment = s.slice(1, k);
        let rest = s.slice(k, s.len());
        assert(s@.subrange(k as int, s@.len() as int) =~= s@.skip(k as int));
        Some((segment, Path(rest)))
    }

    /// Whether nothing of the path is left.
    pub fn is_empty(&self) -> (r: bool)
        ensures
            r == (self.text().len() == 0),
    {
        self.0.is_empty()
    }
}

/// The parts of a request that routing and responses read.
pub struct RequestParts {
    /// The request method, e.g. `GET`.
    pub method: String,
    /// The request path, without the query.
    pub path: UrlEncodedString,
    /// The query string, if any.
    pub query: Option<UrlEncodedString>,
    /// The HTTP version, e.g. `HTTP/1.1`.
    pub http_version: String,
    /// The request headers.
    pub headers: Headers,
}

/// The kind of an I/O error, as `embedded_io_async` names it.
#[verifier::external_type_specification]
#[verifier::external_body]
pub struct ExErrorKind(embedded_io_async::ErrorKind);

/// Errors arising while reading the entire body of a request.
#[derive(Debug, Clone, Copy, PartialEq, Eq)]
pub enum ReadAllBodyError {
    /// The body does not fit into the buffer it is read into.
    BufferIsTooSmall { content_length: usize, buffer_length: usize },
    /// The connection ended before the whole body was read.
    UnexpectedEof,
    /// Reading failed.
    IO(embedded_io_async::ErrorKind),
}

/// Check that a body of `content_length` bytes fits into a buffer of `buffer_length` bytes.
pub fn check_body_fits(content_length: usize, buffer_length: usize) -> (r: Result<(), ReadAllBodyError>)
    ensures
        content_length <= buffer_length ==> r is Ok,
        content_length > buffer_length ==> r == Err::<(), ReadAllBodyError>(
            (ReadAllBodyError::BufferIsTooSmall { content_length, buffer_length }),
        ),
{
    if content_length <= buffer_length {
        Ok(())
    } else {
        Err(ReadAllBodyError::BufferIsTooSmall { content_length, buffer_length })
    }
}

} // verus!
