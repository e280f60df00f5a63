//! Extracting data from requests: rejections, upgrade tokens, and url-encoded forms.
use vstd::prelude::*;

use vstd::string::StringSliceAdditionalSpecFns;
use vstd::utf8::{decode_utf8, valid_utf8};

use crate::request::{header_lookup, ReadAllBodyError, RequestParts};
use crate::status::StatusCode;
use crate::text::utf8_text;
use crate::url_encoded::UrlEncodedString;

verus! {

/// Extracting via the request body.
pub struct ViaRequest;

/// Extracting via the request parts only.
pub struct ViaParts;

/// Rejection used for [`Query`](crate::extract): the query did not deserialize.
#[derive(Debug, Clone, Copy, PartialEq, Eq, Structural)]
pub struct QueryRejection;

impl QueryRejection {
    /// The status code this rejection is answered with.
    pub fn status_code(&self) -> (r: StatusCode)
        ensures
            r.0 == 400,
    {
        StatusCode(400)
    }

    /// The human readable description of the rejection.
    pub fn message(&self) -> (r: &'static str)
        ensures
            r@ == "Bad Query"@,
    {
        "Bad Query"
    }
}

/// Rejection used for [`Form`](crate::extract).
#[derive(Debug, Clone, Copy, PartialEq, Eq, Structural)]
pub enum FormRejection {
    /// Error decoding the body as UTF-8
    BodyIsNotUtf8,
    /// Error deserializing Form
    BadForm,
}

impl FormRejection {
    /// The status code this rejection is answered with.
    pub fn status_code(&self) -> (r: StatusCode)
        ensures
            r.0 == 400,
    {
        StatusCode(400)
    }

    /// The human readable description of the rejection.
    pub fn message(&self) -> (r: &'static str)
        ensures
            r@ == match self {
                FormRejection::BodyIsNotUtf8 => "Body is not UTF-8"@,
                FormRejection::BadForm => "Bad Form"@,
            },
    {
        match self {
            FormRejection::BodyIsNotUtf8 => "Body is not UTF-8",
            FormRejection::BadForm => "Bad Form",
        }
    }
}

/// The Connection could not be upgraded because the "Upgrade" headed was missing.
#[derive(Debug, Clone, Copy, PartialEq, Eq, Structural)]
pub struct NoUpgradeHeaderError;

impl NoUpgradeHeaderError {
    /// The status code this rejection is answered with.
    pub fn status_code(&self) -> (r: StatusCode)
        ensures
            r.0 == 400,
    {
        StatusCode(400)
    }

    /// The human readable description of the rejection.
    pub fn message(&self) -> (r: &'static str)
        ensures
            r@ == "Connection header did not include `upgrade`"@,
    {
        "Connection header did not include `upgrade`"
    }
}

/// A token which allows a connection to be upgraded. Verifies that the "Upgrade" header has been set.
#[derive(Debug)]
pub struct UpgradeToken(());

impl UpgradeToken {
    /// Extract the token: the request must have an "Upgrade" header.
    pub fn from_request_parts(request_parts: &RequestParts) -> (r: Result<UpgradeToken, NoUpgradeHeaderError>)
        ensures
            r is Ok <==> header_lookup(request_parts.headers@, "upgrade".spec_bytes()) is Some,
    {
        match request_parts.headers.get("upgrade") {
            Some(_) => Ok(UpgradeToken(())),
            None => Err(NoUpgradeHeaderError),
        }
    }
}

/// Extracts part of the application state.
pub struct State<T>(pub T);

/// Failed to deserialize a URL-Encoded form
#[derive(Debug, Clone, Copy, PartialEq, Eq, Structural)]
pub struct FormDeserializationError;

/// The pieces of `s` between the separator `sep`, in order.
pub open spec fn split_chars(s: Seq<char>, sep: char) -> Seq<Seq<char>>
    decreases s.len(),
{
    if s.len() == 0 {
        seq![Seq::empty()]
    } else {
        let r = split_chars(s.drop_last(), sep);
        if s.last() == sep {
            r.push(Seq::empty())
        } else {
            r.update(r.len() - 1, r.last().push(s.last()))
        }
    }
}

/// The index of the first `c` in `s`, if any.
pub open spec fn first_index_of(s: Seq<char>, c: char) -> Option<int>
    decreases s.len(),
{
    if s.len() == 0 {
        None
    } else if s[0] == c {
        Some(0)
    } else {
        match first_index_of(s.drop_first(), c) {
            Some(i) => Some(i + 1),
            None => None,
        }
    }
}

/// The key-value pairs of the form pieces `pieces`: empty pieces are skipped, and every other
/// piece must hold a `=`, whose first occurrence separates the key from the value.
pub open spec fn form_pairs_of(pieces: Seq<Seq<char>>) -> Option<Seq<(Seq<char>, Seq<char>)>>
    decreases pieces.len(),
{
    if pieces.len() == 0 {
        Some(Seq::empty())
    } else {
        let p = pieces[0];
        let rest = form_pairs_of(pieces.drop_first());
        if p.len() == 0 {
            rest
        } else {
            match (first_index_of(p, '='), rest) {
                (Some(k), Some(r)) => Some(seq![(p.take(k), p.skip(k + 1))] + r),
                _ => None,
            }
        }
    }
}

/// The key-value pairs of the url-encoded form `form`, still encoded.
pub open spec fn form_pairs_spec(form: Seq<char>) -> Option<Seq<(Seq<char>, Seq<char>)>> {
    form_pairs_of(split_chars(form, '&'))
}

proof fn lemma_split_chars_nonempty(s: Seq<char>, sep: char)
    ensures
        split_chars(s, sep).len() >= 1,
    decreases s.len(),
{
    if s.len() > 0 {
        lemma_split_chars_nonempty(s.drop_last(), sep);
    }
}

proof fn lemma_first_index_bounds(s: Seq<char>, c: char)
    ensures
        first_index_of(s, c) matches Some(i) ==> 0 <= i < s.len() && s[i] == c,
    decreases s.len(),
{
    if s.len() > 0 {
        lemma_first_index_bounds(s.drop_first(), c);
    }
}

pub(crate) fn split_on(s: &UrlEncodedString, sep: char) -> (r: Vec<UrlEncodedString>)
    ensures
        r@.len() == split_chars(s@, sep).len(),
        forall|i: int| 0 <= i < r@.len() ==> #[trigger] r@[i]@ == split_chars(s@, sep)[i],
{
    let mut out: Vec<UrlEncodedString> = Vec::new();
    let mut start: usize = 0;
    let mut i: usize = 0;
    assert(s@.take(0) =~= Seq::<char>::empty());
    assert(out@.map_values(|x: UrlEncodedString| x@).push(s@.subrange(0, 0)) =~= seq![Seq::<char>::empty()]);
    while i < s.len()
        invariant
            start <= i <= s@.len(),
            split_chars(s@.take(i as int), sep) == out@.map_values(|x: UrlEncodedString| x@).push(
                s@.subrange(start as int, i as int),
            ),
        decreases s@.len() - i,
    {
        assert(s@.take(i + 1).drop_last() =~= s@.take(i as int));
        let ghost before = out@.map_values(|x: UrlEncodedString| x@);
        if s.char_at(i) == sep {
            let piece = s.slice(start, i);
            out.push(piece);
            assert(out@.map_values(|x: UrlEncodedString| x@) =~= before.push(s@.subrange(start as int, i as int)));
            start = i + 1;
            assert(s@.subrange(start as int, (i + 1) as int) =~= Seq::<char>::empty());
        } else {
            assert(s@.subrange(start as int, (i + 1) as int) =~= s@.subrange(start as int, i as int).push(s@[i as int]));
        }
        i = i + 1;
    }
    let ghost before = out@.map_values(|x: UrlEncodedString| x@);
    out.push(s.slice(start, s.len()));
    assert(out@.map_values(|x: UrlEncodedString| x@) =~= before.push(s@.subrange(start as int, i as int)));
    assert(s@.take(i as int) =~= s@);
    proof {
        assert forall|k: int| 0 <= k < out@.len() implies #[trigger] out@[k]@ == split_chars(s@, sep)[k] by {
            assert(out@.map_values(|x: UrlEncodedString| x@)[k] == out@[k]@);
        }
    }
    out
}

fn find_char(s: &UrlEncodedString, c: char) -> (r: Option<usize>)
    ensures
        match first_index_of(s@, c) {
            Some(i) => r == Some(i as usize),
            None => r is None,
        },
{
    let mut i: usize = 0;
    assert(s@.skip(0) =~= s@);
    while i < s.len()
        invariant
            i <= s@.len(),
            forall|k: int| 0 <= k < i ==> s@[k] != c,
            first_index_of(s@, c) == match first_index_of(s@.skip(i as int), c) {
                Some(j) => Some(j + i),
                None => None,
            },
        decreases s@.len() - i,
    {
        assert(s@.skip(i as int).drop_first() =~= s@.skip(i + 1));
        if s.char_at(i) == c {
            return Some(i);
        }
        i = i + 1;
    }
    None
}

/// The key-value pairs of the url-encoded form `form`, still encoded: the form is split on
/// `&`, empty pieces are skipped, and each other piece is split at its first `=`.
pub fn form_pairs(form: &UrlEncodedString) -> (r: Result<Vec<(UrlEncodedString, UrlEncodedString)>, FormDeserializationError>)
    ensures
        match form_pairs_spec(form@) {
            None => r is Err,
            Some(pairs) => r matches Ok(v) && v@.len() == pairs.len() && forall|i: int|
                0 <= i < pairs.len() ==> (#[trigger] v@[i]).0@ == pairs[i].0 && v@[i].1@ == pairs[i].1,
        },
{
    let pieces = split_on(form, '&');
    let ghost all = split_chars(form@, '&');
    let mut out: Vec<(UrlEncodedString, UrlEncodedString)> = Vec::new();
    let ghost mut done: Seq<(Seq<char>, Seq<char>)> = Seq::empty();
    let mut i: usize = 0;
    assert(all.skip(0) =~= all);
    while i < pieces.len()
        invariant
            i <= pieces@.len(),
            pieces@.len() == all.len(),
            all == split_chars(form@, '&'),
            forall|k: int| 0 <= k < pieces@.len() ==> #[trigger] pieces@[k]@ == all[k],
            out@.len() == done.len(),
            forall|k: int| 0 <= k < done.len() ==> (#[trigger] out@[k]).0@ == done[k].0 && out@[k].1@ == done[k].1,
            form_pairs_spec(form@) == match form_pairs_of(all.skip(i as int)) {
                Some(r) => Some(done + r),
                None => None,
            },
        decreases pieces@.len() - i,
    {
        let ghost tail = all.skip(i as int);
        assert(tail.drop_first() =~= all.skip(i + 1));
        assert(tail[0] == pieces@[i as int]@);
        let piece = &pieces[i];
        if !piece.is_empty() {
            match find_char(piece, '=') {
                None => {
                    return Err(FormDeserializationError);
                },
                Some(k) => {
                    proof {
                        lemma_first_index_bounds(piece@, '=');
                    }
                    let plen = piece.len();
                    let key = piece.slice(0, k);
                    let value = piece.slice(k + 1, plen);
                    assert(piece@.subrange(0, k as int) =~= piece@.take(k as int));
                    assert(piece@.subrange(k + 1, piece@.len() as int) =~= piece@.skip(k + 1));
                    out.push((key, value));
                    proof {
                        let pair = (piece@.take(k as int), piece@.skip(k + 1));
                        match form_pairs_of(all.skip(i + 1)) {
                            Some(r) => {
                                assert(done.push(pair) + r =~= done + (seq![pair] + r));
                            },
                            None => {},
                        }
                        done = done.push(pair);
                    }
                },
            }
        }
        i = i + 1;
    }
    proof {
        assert(all.skip(i as int) =~= Seq::<Seq<char>>::empty());
        assert(done + Seq::<(Seq<char>, Seq<char>)>::empty() =~= done);
    }
    Ok(out)
}

/// Errors arising while reading the entire body as a UTF-8 String.
#[derive(Debug)]
pub enum FailedToExtractEntireBodyAsStringError {
    /// Reading the body failed.
    FailedToExtractEntireBody(ReadAllBodyError),
    /// The body is not UTF-8.
    StringIsNotUtf8(core::str::Utf8Error),
}

impl FailedToExtractEntireBodyAsStringError {
    /// The status code of a body which is not UTF-8: 400 Bad Request; a failure to read the
    /// body is answered as that failure is.
    pub fn status_code(&self) -> (r: Option<StatusCode>)
        ensures
            match self {
                FailedToExtractEntireBodyAsStringError::StringIsNotUtf8(_) => r == Some(StatusCode(400)),
                FailedToExtractEntireBodyAsStringError::FailedToExtractEntireBody(_) => r is None,
            },
    {
        match self {
            FailedToExtractEntireBodyAsStringError::StringIsNotUtf8(_) => Some(StatusCode(400)),
            FailedToExtractEntireBodyAsStringError::FailedToExtractEntireBody(_) => None,
        }
    }
}

/// The body of a request as text: the bytes read, or why reading them failed, must be UTF-8.
pub fn body_as_string(body: Result<&[u8], ReadAllBodyError>) -> (r: Result<
    String,
    FailedToExtractEntireBodyAsStringError,
>)
    ensures
        match body {
            Err(e) => r matches Err(
                FailedToExtractEntireBodyAsStringError::FailedToExtractEntireBody(e2),
            ) && e2 == e,
            Ok(bytes) => if valid_utf8(bytes@) {
                r matches Ok(t) && t@ == decode_utf8(bytes@)
            } else {
                r matches Err(FailedToExtractEntireBodyAsStringError::StringIsNotUtf8(_))
            },
        },
{
    match body {
        Err(e) => Err(FailedToExtractEntireBodyAsStringError::FailedToExtractEntireBody(e)),
        Ok(bytes) => match utf8_text(bytes) {
            Ok(t) => Ok(t),
            Err(e) => Err(FailedToExtractEntireBodyAsStringError::StringIsNotUtf8(e)),
        },
    }
}

/// The pairs of a url-encoded form sent as a request body: the body must be UTF-8, and then
/// split into pairs as [form_pairs] does.
pub fn form_pairs_from_body(body: &[u8]) -> (r: Result<
    Vec<(UrlEncodedString, UrlEncodedString)>,
    FormRejection,
>)
    ensures
        !valid_utf8(body@) ==> r == Err::<Vec<(UrlEncodedString, UrlEncodedString)>, FormRejection>(
            FormRejection::BodyIsNotUtf8,
        ),
        valid_utf8(body@) ==> match form_pairs_spec(decode_utf8(body@)) {
            None => r == Err::<Vec<(UrlEncodedString, UrlEncodedString)>, FormRejection>(
                FormRejection::BadForm,
            ),
            Some(pairs) => r matches Ok(v) && v@.len() == pairs.len() && forall|i: int|
                0 <= i < pairs.len() ==> (#[trigger] v@[i]).0@ == pairs[i].0 && v@[i].1@
                    == pairs[i].1,
        },
{
    match utf8_text(body) {
        Err(_) => Err(FormRejection::BodyIsNotUtf8),
        Ok(text) => match form_pairs(&UrlEncodedString::new(text.as_str())) {
            Ok(pairs) => Ok(pairs),
            Err(_) => Err(FormRejection::BadForm),
        },
    }
}

} // verus!
