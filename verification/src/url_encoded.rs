//! [UrlEncodedString] and related types.
use vstd::prelude::*;

use crate::text::{chars_of, push_char, utf8_text};
use vstd::utf8::{
    decode_utf8, is_continuation_byte, is_leading_byte_width_1, is_leading_byte_width_2,
    is_leading_byte_width_3, is_leading_byte_width_4, valid_utf8,
};

verus! {

/// The error returned when attempting to decode a character in a [UrlEncodedString].
#[derive(Debug, Clone, Copy, PartialEq, Eq, Structural)]
pub enum UrlEncodedCharacterDecodeError {
    /// Percent symbol is not followed by two hex digits.
    BadlyFormattedPercentEncoding,
    /// Percent-encoded sequence does not decode into UTF-8 byte sequence.
    Utf8Error,
}

impl UrlEncodedCharacterDecodeError {
    /// The human readable description of the error.
    pub fn message(&self) -> (r: &'static str)
        ensures
            r@ == match self {
                UrlEncodedCharacterDecodeError::BadlyFormattedPercentEncoding =>
                    "Percent symbol is not followed by two hex digits"@,
                UrlEncodedCharacterDecodeError::Utf8Error =>
                    "Percent-encoded sequence does not decode into UTF-8 byte sequence"@,
            },
    {
        match self {
            UrlEncodedCharacterDecodeError::BadlyFormattedPercentEncoding => {
                "Percent symbol is not followed by two hex digits"
            },
            UrlEncodedCharacterDecodeError::Utf8Error => {
                "Percent-encoded sequence does not decode into UTF-8 byte sequence"
            },
        }
    }
}

/// A decoded character.
#[derive(Debug, Clone, Copy, PartialEq, Eq, Structural)]
pub enum UrlDecodedCharacter {
    /// This character was present in the encoded string.
    Literal(char),
    /// This character was percent-encoded.
    Encoded(char),
}

impl UrlDecodedCharacter {
    /// The character, ignoring how it was written.
    pub open spec fn char_of(self) -> char {
        match self {
            UrlDecodedCharacter::Literal(c) => c,
            UrlDecodedCharacter::Encoded(c) => c,
        }
    }

    /// Convert into a [char], ignoring whether the character was present in the encoded string or percent-encoded.
    pub fn into_char(self) -> (r: char)
        ensures
            r == self.char_of(),
    {
        match self {
            UrlDecodedCharacter::Literal(c) => c,
            UrlDecodedCharacter::Encoded(c) => c,
        }
    }
}

/// The value of a hexadecimal digit, if `c` is one.
pub open spec fn hex_value(c: char) -> Option<u8> {
    let u = c as u32;
    if 0x30 <= u <= 0x39 {
        Some((u - 0x30) as u8)
    } else if 0x61 <= u <= 0x66 {
        Some((u - 0x61 + 10) as u8)
    } else if 0x41 <= u <= 0x46 {
        Some((u - 0x41 + 10) as u8)
    } else {
        None
    }
}

/// The number of bytes of the UTF-8 sequence that `b` starts, if `b` can start one.
pub open spec fn utf8_sequence_width(b: u8) -> Option<nat> {
    if is_leading_byte_width_1(b) {
        Some(1)
    } else if is_leading_byte_width_2(b) {
        Some(2)
    } else if is_leading_byte_width_3(b) {
        Some(3)
    } else if is_leading_byte_width_4(b) {
        Some(4)
    } else {
        None
    }
}

/// Reading two hexadecimal digits at index `i` of `s`: the byte they encode (if any)
/// and the index just past the characters that were consumed.
pub open spec fn read_hex_pair(s: Seq<char>, i: int) -> (Option<u8>, int) {
    if i >= s.len() {
        (None, i)
    } else if hex_value(s[i]) is None {
        (None, i + 1)
    } else if i + 1 >= s.len() {
        (None, i + 1)
    } else if hex_value(s[i + 1]) is None {
        (None, i + 2)
    } else {
        (Some((hex_value(s[i])->0 * 16 + hex_value(s[i + 1])->0) as u8), i + 2)
    }
}

/// The outcome of decoding one character from the front of an encoded string.
pub enum DecodeStep {
    /// The string is empty.
    End,
    /// A character (or an error) was decoded, consuming the given number of encoded characters.
    Item(Result<UrlDecodedCharacter, UrlEncodedCharacterDecodeError>, nat),
}

/// Reading `remaining` percent-encoded continuation bytes from index `i` of `s`, after the
/// bytes `bytes` already read: all the bytes and the index just past them, or the error and
/// the index just past the characters that were consumed.
pub open spec fn read_continuations(s: Seq<char>, i: int, remaining: nat, bytes: Seq<u8>) -> Result<
    (Seq<u8>, int),
    (UrlEncodedCharacterDecodeError, int),
>
    decreases remaining,
{
    if remaining == 0 {
        Ok((bytes, i))
    } else if i >= s.len() {
        Err((UrlEncodedCharacterDecodeError::Utf8Error, i))
    } else if s[i] != '%' {
        Err((UrlEncodedCharacterDecodeError::Utf8Error, i + 1))
    } else {
        let (b, j) = read_hex_pair(s, i + 1);
        match b {
            None => Err((UrlEncodedCharacterDecodeError::BadlyFormattedPercentEncoding, j)),
            Some(b) => if is_continuation_byte(b) {
                read_continuations(s, j, (remaining - 1) as nat, bytes.push(b))
            } else {
                Err((UrlEncodedCharacterDecodeError::Utf8Error, j))
            },
        }
    }
}

/// The step that reading the bytes of one percent-encoded sequence ends in: the character
/// they encode when they are valid UTF-8, and otherwise the error, each with the number of
/// encoded characters consumed.
pub open spec fn finish_sequence(read: Result<(Seq<u8>, int), (UrlEncodedCharacterDecodeError, int)>) -> DecodeStep {
    match read {
        Err((e, j)) => DecodeStep::Item(Err(e), j as nat),
        Ok((bytes, j)) => if valid_utf8(bytes) {
            DecodeStep::Item(Ok(UrlDecodedCharacter::Encoded(decode_utf8(bytes)[0])), j as nat)
        } else {
            DecodeStep::Item(Err(UrlEncodedCharacterDecodeError::Utf8Error), j as nat)
        },
    }
}

/// Decoding one character from the front of the url-encoded string `s`. `+` stands for a
/// space; `%` starts a percent-encoded UTF-8 sequence, as many bytes as its first byte
/// announces, which must be valid UTF-8 and gives the character it encodes.
#[verifier::opaque]
pub open spec fn decode_step(s: Seq<char>) -> DecodeStep {
    if s.len() == 0 {
        DecodeStep::End
    } else if s[0] == '+' {
        DecodeStep::Item(Ok(UrlDecodedCharacter::Encoded(' ')), 1)
    } else if s[0] == '%' {
        let (b, i) = read_hex_pair(s, 1);
        match b {
            None => DecodeStep::Item(
                Err(UrlEncodedCharacterDecodeError::BadlyFormattedPercentEncoding),
                i as nat,
            ),
            Some(b) => match utf8_sequence_width(b) {
                None => DecodeStep::Item(Err(UrlEncodedCharacterDecodeError::Utf8Error), i as nat),
                Some(w) => finish_sequence(read_continuations(s, i, (w - 1) as nat, seq![b])),
            },
        }
    } else {
        DecodeStep::Item(Ok(UrlDecodedCharacter::Literal(s[0])), 1)
    }
}

proof fn lemma_read_continuations_bounds(s: Seq<char>, i: int, remaining: nat, bytes: Seq<u8>)
    requires
        1 <= i <= s.len(),
    ensures
        match read_continuations(s, i, remaining, bytes) {
            Ok((all, j)) => i <= j <= s.len() && all.len() == bytes.len() + remaining,
            Err((_, j)) => i <= j <= s.len(),
        },
    decreases remaining,
{
    if remaining > 0 && i < s.len() && s[i] == '%' {
        let (b, j) = read_hex_pair(s, i + 1);
        if b is Some && is_continuation_byte(b->0) {
            lemma_read_continuations_bounds(s, j, (remaining - 1) as nat, bytes.push(b->0));
        }
    }
}

/// One decoding step consumes at least one and at most all of the characters.
pub proof fn lemma_decode_step_bounds(s: Seq<char>)
    ensures
        match decode_step(s) {
            DecodeStep::End => s.len() == 0,
            DecodeStep::Item(_, n) => 1 <= n <= s.len(),
        },
{
    reveal(decode_step);
    if s.len() > 0 && s[0] == '%' {
        let (b, i) = read_hex_pair(s, 1);
        if b is Some {
            if let Some(w) = utf8_sequence_width(b->0) {
                lemma_read_continuations_bounds(s, i, (w - 1) as nat, seq![b->0]);
            }
        }
    }
}

/// The outcome of decoding a whole url-encoded string.
pub enum DecodeAll {
    /// Every character decoded; these are the decoded characters.
    Decoded(Seq<UrlDecodedCharacter>),
    /// Decoding stopped at the first error.
    Failed(UrlEncodedCharacterDecodeError),
}

/// Decoding all of `s`, stopping at the first error.
pub open spec fn decode_all(s: Seq<char>) -> DecodeAll
    decreases s.len(),
{
    match decode_step(s) {
        DecodeStep::End => DecodeAll::Decoded(Seq::empty()),
        DecodeStep::Item(Err(e), _) => DecodeAll::Failed(e),
        DecodeStep::Item(Ok(d), n) => {
            proof {
                lemma_decode_step_bounds(s);
            }
            match decode_all(s.skip(n as int)) {
                DecodeAll::Decoded(rest) => DecodeAll::Decoded(seq![d] + rest),
                other => other,
            }
        },
    }
}

/// The characters of a decoded sequence, ignoring how they were written.
pub open spec fn plain_chars(d: Seq<UrlDecodedCharacter>) -> Seq<char> {
    d.map_values(|x: UrlDecodedCharacter| x.char_of())
}

/// The outcome of stripping a prefix.
pub enum StripOutcome {
    /// The prefix matched; this is what remains of the encoded string.
    Stripped(Seq<char>),
    /// The prefix did not match.
    NoMatch,
}

/// Stripping the plain prefix `p` from the url-encoded string `s`: a '/' in the prefix
/// must match a literal '/', every other character matches literally or percent-encoded.
pub open spec fn strip_prefix_spec(s: Seq<char>, p: Seq<char>) -> StripOutcome
    decreases p.len(),
{
    if p.len() == 0 {
        StripOutcome::Stripped(s)
    } else {
        match decode_step(s) {
            DecodeStep::End => StripOutcome::NoMatch,
            DecodeStep::Item(Err(_), _) => StripOutcome::NoMatch,
            DecodeStep::Item(Ok(d), n) => {
                let matches = if p[0] == '/' {
                    d == UrlDecodedCharacter::Literal('/')
                } else {
                    d.char_of() == p[0]
                };
                if matches && n <= s.len() {
                    strip_prefix_spec(s.skip(n as int), p.drop_first())
                } else {
                    StripOutcome::NoMatch
                }
            },
        }
    }
}

/// Whether `s` holds no `%` and no `+`, so that each of its characters decodes to itself.
pub open spec fn is_plain(s: Seq<char>) -> bool {
    forall|i: int| 0 <= i < s.len() ==> #[trigger] s[i] != '%' && s[i] != '+'
}

/// A plain prefix strips from the front of a string that starts with it, leaving the rest.
pub proof fn lemma_strip_plain_prefix(p: Seq<char>, rest: Seq<char>)
    requires
        is_plain(p),
    ensures
        strip_prefix_spec(p + rest, p) == StripOutcome::Stripped(rest),
    decreases p.len(),
{
    if p.len() == 0 {
        assert(p + rest =~= rest);
    } else {
        let s = p + rest;
        reveal(decode_step);
        assert(s[0] == p[0]);
        assert(p[0] != '%' && p[0] != '+');
        assert(is_plain(p.drop_first())) by {
            assert forall|i: int| 0 <= i < p.drop_first().len() implies #[trigger] p.drop_first()[i]
                != '%' && p.drop_first()[i] != '+' by {
                assert(p.drop_first()[i] == p[i + 1]);
            }
        }
        assert(s.skip(1) =~= p.drop_first() + rest);
        lemma_strip_plain_prefix(p.drop_first(), rest);
    }
}

/// The number of bytes of the UTF-8 encoding of `c`.
pub open spec fn utf8_width(c: char) -> nat {
    let u = c as u32;
    if u < 0x80 {
        1
    } else if u < 0x800 {
        2
    } else if u < 0x10000 {
        3
    } else {
        4
    }
}

/// The number of bytes of the UTF-8 encoding of `s`.
pub open spec fn utf8_len(s: Seq<char>) -> nat
    decreases s.len(),
{
    if s.len() == 0 {
        0
    } else {
        utf8_len(s.drop_last()) + utf8_width(s.last())
    }
}

fn hex_digit(c: char) -> (r: Option<u8>)
    ensures
        r == hex_value(c),
{
    let u = c as u32;
    if 0x30 <= u && u <= 0x39 {
        Some((u - 0x30) as u8)
    } else if 0x61 <= u && u <= 0x66 {
        Some((u - 0x61 + 10) as u8)
    } else if 0x41 <= u && u <= 0x46 {
        Some((u - 0x41 + 10) as u8)
    } else {
        None
    }
}

fn hex_pair_at(s: &Vec<char>, i: usize) -> (r: (Option<u8>, usize))
    requires
        i <= s.len(),
    ensures
        r.0 == read_hex_pair(s@, i as int).0,
        r.1 == read_hex_pair(s@, i as int).1,
        r.1 <= s.len(),
{
    if i >= s.len() {
        return (None, i);
    }
    let hi = match hex_digit(s[i]) {
        Some(h) => h,
        None => {
            return (None, i + 1);
        },
    };
    if i + 1 >= s.len() {
        return (None, i + 1);
    }
    match hex_digit(s[i + 1]) {
        Some(lo) => (Some(hi * 16 + lo), i + 2),
        None => (None, i + 2),
    }
}

fn sequence_width(b: u8) -> (r: Option<usize>)
    ensures
        match utf8_sequence_width(b) {
            Some(w) => r == Some(w as usize),
            None => r is None,
        },
{
    if b <= 0x7F {
        Some(1)
    } else if 0xC0 <= b && b <= 0xDF {
        Some(2)
    } else if 0xE0 <= b && b <= 0xEF {
        Some(3)
    } else if 0xF0 <= b && b <= 0xF7 {
        Some(4)
    } else {
        None
    }
}

proof fn lemma_decode_utf8_nonempty(bytes: Seq<u8>)
    requires
        valid_utf8(bytes),
        bytes.len() > 0,
    ensures
        decode_utf8(bytes).len() > 0,
{
    reveal_with_fuel(decode_utf8, 1);
}

/// Decode the character starting at index `pos` of `s`.
fn decode_at(s: &Vec<char>, pos: usize) -> (r: Option<
    (Result<UrlDecodedCharacter, UrlEncodedCharacterDecodeError>, usize),
>)
    requires
        pos <= s.len(),
    ensures
        match decode_step(s@.skip(pos as int)) {
            DecodeStep::End => r is None,
            DecodeStep::Item(item, n) => r == Some((item, (pos + n) as usize)) && pos < pos + n
                <= s.len(),
        },
{
    reveal(decode_step);
    let ghost t = s@.skip(pos as int);
    if pos >= s.len() {
        return None;
    }
    let c = s[pos];
    assert(t[0] == c);
    if c == '+' {
        return Some((Ok(UrlDecodedCharacter::Encoded(' ')), pos + 1));
    }
    if c != '%' {
        return Some((Ok(UrlDecodedCharacter::Literal(c)), pos + 1));
    }
    proof {
        lemma_read_hex_pair_shift(s@, pos as int, 1);
    }
    let (b, i) = hex_pair_at(s, pos + 1);
    let b = match b {
        Some(b) => b,
        None => {
            return Some((Err(UrlEncodedCharacterDecodeError::BadlyFormattedPercentEncoding), i));
        },
    };
    let w = match sequence_width(b) {
        Some(w) => w,
        None => {
            return Some((Err(UrlEncodedCharacterDecodeError::Utf8Error), i));
        },
    };
    let mut bytes: Vec<u8> = Vec::new();
    bytes.push(b);
    let mut remaining: usize = w - 1;
    let mut j: usize = i;
    assert(bytes@ =~= seq![b]);
    while remaining > 0
        invariant
            pos < j <= s.len(),
            t == s@.skip(pos as int),
            bytes@.len() + remaining == w,
            1 <= w <= 4,
            decode_step(t) == finish_sequence(
                read_continuations(t, (j - pos) as int, remaining as nat, bytes@),
            ),
        decreases remaining,
    {
        if j >= s.len() {
            return Some((Err(UrlEncodedCharacterDecodeError::Utf8Error), j));
        }
        assert(t[(j - pos) as int] == s[j as int]);
        if s[j] != '%' {
            return Some((Err(UrlEncodedCharacterDecodeError::Utf8Error), j + 1));
        }
        proof {
            lemma_read_hex_pair_shift(s@, pos as int, (j - pos + 1) as int);
        }
        let (next, k) = hex_pair_at(s, j + 1);
        let next = match next {
            Some(x) => x,
            None => {
                return Some((Err(UrlEncodedCharacterDecodeError::BadlyFormattedPercentEncoding), k));
            },
        };
        if !(0x80 <= next && next <= 0xBF) {
            return Some((Err(UrlEncodedCharacterDecodeError::Utf8Error), k));
        }
        bytes.push(next);
        remaining = remaining - 1;
        j = k;
    }
    match utf8_text(bytes.as_slice()) {
        Err(_) => Some((Err(UrlEncodedCharacterDecodeError::Utf8Error), j)),
        Ok(text) => {
            proof {
                lemma_decode_utf8_nonempty(bytes@);
            }
            let decoded = chars_of(text.as_str());
            Some((Ok(UrlDecodedCharacter::Encoded(decoded[0])), j))
        },
    }
}

proof fn lemma_read_hex_pair_shift(s: Seq<char>, pos: int, i: int)
    requires
        0 <= pos <= s.len(),
        0 <= i,
    ensures
        read_hex_pair(s.skip(pos), i).0 == read_hex_pair(s, pos + i).0,
        read_hex_pair(s.skip(pos), i).1 == read_hex_pair(s, pos + i).1 - pos,
{
}

/// A url-encoded string.
#[derive(Debug)]
pub struct UrlEncodedString {
    chars: Vec<char>,
}

impl View for UrlEncodedString {
    type V = Seq<char>;

    closed spec fn view(&self) -> Seq<char> {
        self.chars@
    }
}

/// An iterator over the decoded [UrlDecodedCharacter]s of a [UrlEncodedString].
pub struct UrlDecodedCharacters {
    chars: Vec<char>,
    pos: usize,
}

impl View for UrlDecodedCharacters {
    type V = Seq<char>;

    /// The encoded characters that have not been decoded yet.
    closed spec fn view(&self) -> Seq<char> {
        self.chars@.skip(self.pos as int)
    }
}

impl UrlDecodedCharacters {
    /// Internal consistency: the position is within the characters.
    pub closed spec fn wf(&self) -> bool {
        self.pos <= self.chars@.len()
    }

    /// Views the underlying data as a substring of the original string.
    pub fn as_str(&self) -> (r: UrlEncodedString)
        requires
            self.wf(),
        ensures
            r@ == self@,
    {
        let mut v: Vec<char> = Vec::new();
        let mut i = self.pos;
        while i < self.chars.len()
            invariant
                self.pos <= i <= self.chars.len(),
                v@ == self.chars@.subrange(self.pos as int, i as int),
            decreases self.chars.len() - i,
        {
            v.push(self.chars[i]);
            i = i + 1;
        }
        assert(v@ == self.chars@.skip(self.pos as int));
        UrlEncodedString { chars: v }
    }

    /// Decode the next character, or return `None` at the end of the string.
    pub fn next(&mut self) -> (r: Option<Result<UrlDecodedCharacter, UrlEncodedCharacterDecodeError>>)
        requires
            old(self).wf(),
        ensures
            final(self).wf(),
            match decode_step(old(self)@) {
                DecodeStep::End => r is None && final(self)@ == old(self)@,
                DecodeStep::Item(item, n) => r == Some(item) && 1 <= n <= old(self)@.len()
                    && final(self)@ == old(self)@.skip(n as int),
            },
    {
        match decode_at(&self.chars, self.pos) {
            None => None,
            Some((item, next)) => {
                let ghost before = self.chars@.skip(self.pos as int);
                let ghost n = next - self.pos;
                self.pos = next;
                assert(self.chars@.skip(next as int) == before.skip(n as int));
                Some(item)
            },
        }
    }
}

/// The error returned when attempting to decode a [UrlEncodedString] into a string.
#[derive(Debug, Clone, Copy, PartialEq, Eq, Structural)]
pub enum DecodeError {
    /// Error during decoding a character.
    BadUrlEncodedCharacter(UrlEncodedCharacterDecodeError),
    /// The provided buffer does not have enough space to store the string.
    NoSpace,
}

impl DecodeError {
    /// The human readable description of the error.
    pub fn message(&self) -> (r: &'static str)
        ensures
            r@ == match self {
                DecodeError::BadUrlEncodedCharacter(e) => match e {
                    UrlEncodedCharacterDecodeError::BadlyFormattedPercentEncoding =>
                        "Percent symbol is not followed by two hex digits"@,
                    UrlEncodedCharacterDecodeError::Utf8Error =>
                        "Percent-encoded sequence does not decode into UTF-8 byte sequence"@,
                },
                DecodeError::NoSpace => "No space to decode url-encoded string"@,
            },
    {
        match self {
            DecodeError::BadUrlEncodedCharacter(e) => e.message(),
            DecodeError::NoSpace => "No space to decode url-encoded string",
        }
    }
}

/// The most bytes a url-encoded key or value of a query or a form may take once decoded.
pub const DECODED_CAPACITY: usize = 1024;

/// A key or value of a query or a form that failed to decode, with the key it belongs to.
#[derive(Debug)]
pub struct NamedDecodeError {
    /// The key, as written.
    pub key: String,
    /// Why decoding failed.
    pub error: DecodeError,
}

/// The outcome of decoding into a buffer of `capacity` bytes.
pub enum BoundedDecode {
    /// The decoded characters fit.
    Decoded(Seq<char>),
    /// Decoding stopped at the first error.
    Failed(DecodeError),
}

/// Decoding `s` into a buffer which can hold `capacity` bytes of UTF-8, where `used` bytes
/// are already taken, stopping at the first character that fails to decode or does not fit.
pub open spec fn decode_bounded(s: Seq<char>, capacity: nat, used: nat) -> BoundedDecode
    decreases s.len(),
{
    match decode_step(s) {
        DecodeStep::End => BoundedDecode::Decoded(Seq::empty()),
        DecodeStep::Item(Err(e), _) => BoundedDecode::Failed(DecodeError::BadUrlEncodedCharacter(e)),
        DecodeStep::Item(Ok(d), n) => if used + utf8_width(d.char_of()) > capacity {
            BoundedDecode::Failed(DecodeError::NoSpace)
        } else {
            proof {
                lemma_decode_step_bounds(s);
            }
            match decode_bounded(s.skip(n as int), capacity, used + utf8_width(d.char_of())) {
                BoundedDecode::Decoded(rest) => BoundedDecode::Decoded(seq![d.char_of()] + rest),
                other => other,
            }
        },
    }
}

fn char_width(c: char) -> (w: usize)
    ensures
        w == utf8_width(c),
{
    let u = c as u32;
    if u < 0x80 {
        1
    } else if u < 0x800 {
        2
    } else if u < 0x10000 {
        3
    } else {
        4
    }
}

impl UrlEncodedString {
    /// Wrap the encoded text `s`.
    pub fn new(s: &str) -> (r: Self)
        ensures
            r@ == s@,
    {
        UrlEncodedString { chars: chars_of(s) }
    }

    /// The empty encoded string.
    pub fn empty() -> (r: Self)
        ensures
            r@ == Seq::<char>::empty(),
    {
        UrlEncodedString { chars: Vec::new() }
    }

    /// A copy of this string.
    pub fn duplicate(&self) -> (r: Self)
        ensures
            r@ == self@,
    {
        UrlEncodedString { chars: self.chars.clone() }
    }

    /// The encoded characters, as written.
    pub fn encoded_text(&self) -> (r: String)
        ensures
            r@ == self@,
    {
        let mut out = String::new();
        let mut i: usize = 0;
        while i < self.chars.len()
            invariant
                i <= self.chars.len(),
                out@ == self@.take(i as int),
            decreases self.chars.len() - i,
        {
            push_char(&mut out, self.chars[i]);
            assert(self@.take(i + 1) == self@.take(i as int).push(self@[i as int]));
            i = i + 1;
        }
        assert(self@.take(i as int) == self@);
        out
    }

    /// Returns an iterator over the decoded [UrlDecodedCharacter]s of the string.
    pub fn chars(self) -> (r: UrlDecodedCharacters)
        ensures
            r.wf(),
            r@ == self@,
    {
        let r = UrlDecodedCharacters { chars: self.chars, pos: 0 };
        assert(r.chars@.skip(0) == r.chars@);
        r
    }

    /// Try decoding the chars into a std::string::String.
    pub fn try_into_std_string(self) -> (r: Result<String, UrlEncodedCharacterDecodeError>)
        ensures
            match decode_all(self@) {
                DecodeAll::Decoded(d) => r is Ok && r->Ok_0@ == plain_chars(d),
                DecodeAll::Failed(e) => r == Err::<String, UrlEncodedCharacterDecodeError>(e),
            },
    {
        let ghost whole = self@;
        let mut chars = self.chars();
        let mut out = String::new();
        loop
            invariant
                chars.wf(),
                whole == self@,
                match decode_all(chars@) {
                    DecodeAll::Decoded(d) => match decode_all(whole) {
                        DecodeAll::Decoded(dw) => plain_chars(dw) == out@ + plain_chars(d),
                        _ => false,
                    },
                    DecodeAll::Failed(e) => decode_all(whole) == DecodeAll::Failed(e),
                },
            decreases chars@.len(),
        {
            let ghost before = chars@;
            match chars.next() {
                None => {
                    assert(decode_step(before) is End);
                    assert(decode_all(before) == DecodeAll::Decoded(Seq::empty()));
                    assert(plain_chars(Seq::<UrlDecodedCharacter>::empty()) == Seq::<char>::empty());
                    assert(out@ + Seq::<char>::empty() == out@);
                    return Ok(out);
                },
                Some(Err(e)) => {
                    return Err(e);
                },
                Some(Ok(d)) => {
                    let c = d.into_char();
                    let ghost old_out = out@;
                    push_char(&mut out, c);
                    proof {
                        match decode_all(chars@) {
                            DecodeAll::Decoded(rest) => {
                                assert(plain_chars(seq![d] + rest) == seq![c] + plain_chars(rest));
                                assert(old_out + (seq![c] + plain_chars(rest)) == out@ + plain_chars(rest));
                            },
                            _ => {},
                        }
                    }
                },
            }
        }
    }

    /// Decodes the string into at most [DECODED_CAPACITY] bytes and calls `f` on the text;
    /// when decoding fails, `f` is not called and the error names `key`.
    pub fn with_decoded<T, F: FnOnce(&str) -> T>(self, key: &str, f: F) -> (r: Result<T, NamedDecodeError>)
        requires
            forall|s: &str| call_requires(f, (s,)),
        ensures
            r is Ok <==> decode_bounded(self@, DECODED_CAPACITY as nat, 0) is Decoded,
            r matches Ok(v) ==> exists|s: &str|
                #![trigger call_ensures(f, (s,), v)]
                decode_bounded(self@, DECODED_CAPACITY as nat, 0) == BoundedDecode::Decoded(s@)
                    && call_ensures(f, (s,), v),
            r matches Err(n) ==> n.key@ == key@ && decode_bounded(self@, DECODED_CAPACITY as nat, 0)
                == BoundedDecode::Failed(n.error),
    {
        match self.try_into_string(DECODED_CAPACITY) {
            Ok(text) => {
                let s = text.as_str();
                let v = f(s);
                let res: Result<T, NamedDecodeError> = Ok(v);
                assert(res matches Ok(w) && call_ensures(f, (s,), w));
                res
            },
            Err(error) => {
                let name = key.to_owned();
                assert(name@ == key@);
                Err(NamedDecodeError { key: name, error })
            },
        }
    }

    /// Try decoding the chars into a string that holds at most `capacity` bytes of UTF-8.
    pub fn try_into_string(self, capacity: usize) -> (r: Result<String, DecodeError>)
        ensures
            match decode_bounded(self@, capacity as nat, 0) {
                BoundedDecode::Decoded(d) => r is Ok && r->Ok_0@ == d,
                BoundedDecode::Failed(e) => r == Err::<String, DecodeError>(e),
            },
    {
        let ghost whole = self@;
        let mut chars = self.chars();
        let mut out = String::new();
        let mut used: usize = 0;
        loop
            invariant
                chars.wf(),
                whole == self@,
                used <= capacity,
                match decode_bounded(chars@, capacity as nat, used as nat) {
                    BoundedDecode::Decoded(d) => match decode_bounded(whole, capacity as nat, 0) {
                        BoundedDecode::Decoded(dw) => dw == out@ + d,
                        _ => false,
                    },
                    BoundedDecode::Failed(e) => decode_bounded(whole, capacity as nat, 0)
                        == BoundedDecode::Failed(e),
                },
            decreases chars@.len(),
        {
            match chars.next() {
                None => {
                    assert(out@ + Seq::<char>::empty() == out@);
                    return Ok(out);
                },
                Some(Err(e)) => {
                    return Err(DecodeError::BadUrlEncodedCharacter(e));
                },
                Some(Ok(d)) => {
                    let c = d.into_char();
                    let w = char_width(c);
                    if w > capacity - used {
                        return Err(DecodeError::NoSpace);
                    }
                    let ghost old_out = out@;
                    push_char(&mut out, c);
                    used = used + w;
                    proof {
                        match decode_bounded(chars@, capacity as nat, used as nat) {
                            BoundedDecode::Decoded(rest) => {
                                assert(old_out + (seq![c] + rest) == out@ + rest);
                            },
                            _ => {},
                        }
                    }
                },
            }
        }
    }

    /// Returns a substring with the prefix removed. A '/' in the prefix must match a literal '/' in the encoded string,
    /// all other characters ignore whether the character is literal or percent-encoded.
    pub fn strip_prefix(self, prefix: &str) -> (r: Option<Self>)
        ensures
            match strip_prefix_spec(self@, prefix@) {
                StripOutcome::Stripped(rest) => r is Some && r->Some_0@ == rest,
                StripOutcome::NoMatch => r is None,
            },
    {
        let p = chars_of(prefix);
        let mut chars = self.chars();
        let mut i: usize = 0;
        assert(p@.skip(0) == p@);
        while i < p.len()
            invariant
                chars.wf(),
                i <= p.len(),
                strip_prefix_spec(chars@, p@.skip(i as int)) == strip_prefix_spec(self@, prefix@),
                p@ == prefix@,
            decreases p.len() - i,
        {
            let ghost tail = p@.skip(i as int);
            assert(tail.drop_first() == p@.skip(i + 1));
            assert(tail[0] == p[i as int]);
            let d = match chars.next() {
                Some(Ok(d)) => d,
                _ => {
                    return None;
                },
            };
            if p[i] == '/' {
                match d {
                    UrlDecodedCharacter::Literal(c) => {
                        if c != '/' {
                            return None;
                        }
                    },
                    UrlDecodedCharacter::Encoded(_) => {
                        return None;
                    },
                }
            } else if p[i] != d.into_char() {
                return None;
            }
            i = i + 1;
        }
        assert(p@.skip(i as int).len() == 0);
        Some(chars.as_str())
    }

    /// Whether the decoded string equals `other`, matching as [`strip_prefix`](Self::strip_prefix) does
    /// and with nothing left over.
    pub fn eq_str(&self, other: &str) -> (r: bool)
        ensures
            r == (strip_prefix_spec(self@, other@) matches StripOutcome::Stripped(rest) && rest.len()
                == 0),
    {
        match self.duplicate().strip_prefix(other) {
            Some(rest) => rest.is_empty(),
            None => false,
        }
    }

    /// The number of encoded characters.
    pub fn len(&self) -> (r: usize)
        ensures
            r == self@.len(),
    {
        self.chars.len()
    }

    /// The encoded character at index `i`.
    pub fn char_at(&self, i: usize) -> (r: char)
        requires
            i < self@.len(),
        ensures
            r == self@[i as int],
    {
        self.chars[i]
    }

    /// The encoded characters from `start` up to `end`.
    pub fn slice(&self, start: usize, end: usize) -> (r: Self)
        requires
            start <= end <= self@.len(),
        ensures
            r@ == self@.subrange(start as int, end as int),
    {
        let mut v: Vec<char> = Vec::new();
        let mut i = start;
        while i < end
            invariant
                start <= i <= end,
                end <= self.chars@.len(),
                v@ == self.chars@.subrange(start as int, i as int),
            decreases end - i,
        {
            v.push(self.chars[i]);
            i = i + 1;
            assert(v@ =~= self.chars@.subrange(start as int, i as int));
        }
        UrlEncodedString { chars: v }
    }

    /// Returns true if the string has a length of 0.
    pub fn is_empty(&self) -> (r: bool)
        ensures
            r == (self@.len() == 0),
            r == (decode_step(self@) is End),
    {
        proof {
            lemma_decode_step_bounds(self@);
        }
        self.chars.len() == 0
    }
}

} // verus!
