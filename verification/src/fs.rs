//! Static files and directories.
use vstd::prelude::*;
use vstd::string::StringSliceAdditionalSpecFns;

use crate::request::{
    bytes_eq_ignore_ascii_case, eq_ignore_ascii_case, header_lookup, lemma_split_bytes_without_separator, split_bytes, strip_slash_and_prefix_spec,
    trim_ascii, Headers, Path,
};
use crate::response::{header_views, Response};
use crate::routing::{method_not_allowed_response, not_found_response};
use crate::status::StatusCode;
use crate::text::{decimal_digits, push_char, push_decimal};
use crate::url_encoded::{StripOutcome, UrlEncodedString};

verus! {

/// The SHA-1 digest of `data`, as `const_sha1` computes it.
pub uninterp spec fn const_sha1_digest(data: Seq<u8>) -> Seq<u8>;

/// Calls `const_sha1::sha1`. The contract claims that the result is the SHA-1 digest of `data`.
#[verifier::external_body]
fn sha1_of(data: &[u8]) -> (r: [u8; 20])
    ensures
        r@ == const_sha1_digest(data@),
{
    const_sha1::sha1(data).as_bytes()
}

/// The lower-case hexadecimal digit for the value `v` (below 16).
pub open spec fn hex_digit_lower(v: u8) -> u8 {
    if v < 10 {
        (48 + v) as u8
    } else {
        (87 + v) as u8
    }
}

/// The value of the hexadecimal digit `c` (either case), if it is one.
pub open spec fn nibble(c: u8) -> Option<int> {
    if 48 <= c <= 57 {
        Some(c - 48)
    } else if 97 <= c <= 102 {
        Some(c - 87)
    } else if 65 <= c <= 70 {
        Some(c - 55)
    } else {
        None
    }
}

/// The text of an entity tag: its bytes in lower-case hexadecimal between double quotes.
pub open spec fn etag_text(tag: Seq<u8>) -> Seq<u8> {
    seq![0x22u8] + Seq::new(2 * tag.len(), |i: int| if i % 2 == 0 {
        hex_digit_lower(tag[i / 2] / 16)
    } else {
        hex_digit_lower(tag[i / 2] % 16)
    }) + seq![0x22u8]
}

/// Whether the header text `other` names the entity tag `tag`: it is the tag's bytes in
/// hexadecimal (either case) between double quotes.
pub open spec fn etag_matches(tag: Seq<u8>, other: Seq<u8>) -> bool {
    &&& other.len() >= 2
    &&& other[0] == 0x22
    &&& other.last() == 0x22
    &&& other.len() - 2 == 2 * tag.len()
    &&& forall|i: int|
        0 <= i < tag.len() ==> {
            &&& #[trigger] nibble(other[1 + 2 * i]) is Some
            &&& nibble(other[2 + 2 * i]) is Some
            &&& nibble(other[1 + 2 * i])->0 * 16 + nibble(other[2 + 2 * i])->0 == tag[i]
        }
}

/// The `ETag` header value of the entity tag `tag`: its header text, as characters.
pub open spec fn etag_header(tag: Seq<u8>) -> Seq<char> {
    etag_text(tag).map_values(|b: u8| b as char)
}

/// The additional headers of a file, as name and value texts.
pub open spec fn extra_headers(headers: Seq<(&'static str, &'static str)>) -> Seq<(Seq<char>, Seq<char>)> {
    headers.map_values(|h: (&'static str, &'static str)| (h.0@, h.1@))
}

/// An entity tag: the SHA-1 digest of a file's content.
#[derive(Debug, Clone, Copy)]
pub struct ETag(pub [u8; 20]);

fn hex_value(c: u8) -> (r: Option<u8>)
    ensures
        match nibble(c) {
            Some(v) => r == Some(v as u8),
            None => r is None,
        },
{
    if 48 <= c && c <= 57 {
        Some(c - 48)
    } else if 97 <= c && c <= 102 {
        Some(c - 87)
    } else if 65 <= c && c <= 70 {
        Some(c - 55)
    } else {
        None
    }
}

impl ETag {
    /// The header text of the tag.
    pub fn text(&self) -> (r: Vec<u8>)
        ensures
            r@ == etag_text(self.0@),
    {
        let mut out: Vec<u8> = Vec::new();
        out.push(0x22);
        let mut i: usize = 0;
        while i < 20
            invariant
                i <= 20,
                self.0@.len() == 20,
                out@.len() == 1 + 2 * i,
                out@[0] == 0x22,
                forall|k: int|
                    0 <= k < 2 * i ==> #[trigger] out@[1 + k] == if k % 2 == 0 {
                        hex_digit_lower(self.0@[k / 2] / 16)
                    } else {
                        hex_digit_lower(self.0@[k / 2] % 16)
                    },
            decreases 20 - i,
        {
            let b = self.0[i];
            let hi = b / 16;
            let lo = b % 16;
            out.push(if hi < 10 {
                48 + hi
            } else {
                87 + hi
            });
            out.push(if lo < 10 {
                48 + lo
            } else {
                87 + lo
            });
            proof {
                assert forall|k: int|
                    0 <= k < 2 * (i + 1) implies #[trigger] out@[1 + k] == if k % 2 == 0 {
                        hex_digit_lower(self.0@[k / 2] / 16)
                    } else {
                        hex_digit_lower(self.0@[k / 2] % 16)
                    } by {
                    if k >= 2 * i {
                        assert(k / 2 == i);
                    }
                }
            }
            i = i + 1;
        }
        out.push(0x22);
        proof {
            let t = etag_text(self.0@);
            assert forall|j: int| 1 <= j < 41 implies out@[j] == t[j] by {
                assert(out@[1 + (j - 1)] == t[j]);
            }
        }
        assert(out@ =~= etag_text(self.0@));
        out
    }

    /// The `ETag` header value of the tag.
    pub fn header_value(&self) -> (r: String)
        ensures
            r@ == etag_header(self.0@),
    {
        let t = self.text();
        let mut out = String::new();
        let mut i: usize = 0;
        while i < t.len()
            invariant
                i <= t@.len(),
                t@ == etag_text(self.0@),
                out@ == t@.take(i as int).map_values(|b: u8| b as char),
            decreases t.len() - i,
        {
            push_char(&mut out, t[i] as char);
            assert(t@.take(i + 1).map_values(|b: u8| b as char) =~= t@.take(i as int).map_values(
                |b: u8| b as char,
            ).push(t@[i as int] as char));
            i = i + 1;
        }
        assert(t@.take(i as int) =~= t@);
        out
    }

    /// Whether the header text `other` names this tag.
    pub fn matches(&self, other: &[u8]) -> (r: bool)
        ensures
            r == etag_matches(self.0@, other@),
    {
        let n = other.len();
        if n < 2 || other[0] != 0x22 || other[n - 1] != 0x22 {
            return false;
        }
        if n - 2 != 40 {
            return false;
        }
        let mut i: usize = 0;
        while i < 20
            invariant
                i <= 20,
                n == other@.len(),
                n == 42,
                self.0@.len() == 20,
                forall|k: int|
                    0 <= k < i ==> {
                        &&& #[trigger] nibble(other@[1 + 2 * k]) is Some
                        &&& nibble(other@[2 + 2 * k]) is Some
                        &&& nibble(other@[1 + 2 * k])->0 * 16 + nibble(other@[2 + 2 * k])->0 == self.0@[k]
                    },
            decreases 20 - i,
        {
            let hi = match hex_value(other[1 + 2 * i]) {
                Some(h) => h,
                None => {
                    return false;
                },
            };
            let lo = match hex_value(other[2 + 2 * i]) {
                Some(l) => l,
                None => {
                    return false;
                },
            };
            if hi * 16 + lo != self.0[i] {
                return false;
            }
            i = i + 1;
        }
        true
    }
}

/// A static file.
#[derive(Debug, Clone, Copy)]
pub struct File {
    /// The MIME type of the content.
    pub content_type: &'static str,
    /// The content.
    pub body: &'static [u8],
    /// The entity tag of the content.
    pub etag: ETag,
    /// Additional headers sent with the content.
    pub headers: &'static [(&'static str, &'static str)],
}

impl File {
    /// Create a file with the given content type but no additional headers.
    pub fn with_content_type(content_type: &'static str, body: &'static [u8]) -> (r: Self)
        ensures
            r.content_type == content_type,
            r.body == body,
            r.etag.0@ == const_sha1_digest(body@),
            r.headers@.len() == 0,
    {
        File { content_type, body, etag: ETag(sha1_of(body)), headers: &[] }
    }

    /// Create a file with the given content type and some additional headers.
    pub fn with_content_type_and_headers(
        content_type: &'static str,
        body: &'static [u8],
        headers: &'static [(&'static str, &'static str)],
    ) -> (r: Self)
        ensures
            r.content_type == content_type,
            r.body == body,
            r.etag.0@ == const_sha1_digest(body@),
            r.headers == headers,
    {
        File { content_type, body, etag: ETag(sha1_of(body)), headers }
    }

    /// A HyperText Markup Language file with a MIME type of "text/html; charset=utf-8"
    pub fn html(body: &'static str) -> (r: Self)
        ensures
            r.content_type@ == "text/html; charset=utf-8"@,
            r.body@ == body.spec_bytes(),
            r.etag.0@ == const_sha1_digest(body.spec_bytes()),
            r.headers@.len() == 0,
    {
        Self::with_content_type("text/html; charset=utf-8", body.as_bytes())
    }

    /// Cascading StyleSheets file with a MIME type of "text/css"
    pub fn css(body: &'static str) -> (r: Self)
        ensures
            r.content_type@ == "text/css"@,
            r.body@ == body.spec_bytes(),
            r.etag.0@ == const_sha1_digest(body.spec_bytes()),
            r.headers@.len() == 0,
    {
        Self::with_content_type("text/css", body.as_bytes())
    }

    /// A Javascript file with a MIME type of "application/javascript; charset=utf-8"
    pub fn javascript(body: &'static str) -> (r: Self)
        ensures
            r.content_type@ == "application/javascript; charset=utf-8"@,
            r.body@ == body.spec_bytes(),
            r.etag.0@ == const_sha1_digest(body.spec_bytes()),
            r.headers@.len() == 0,
    {
        Self::with_content_type("application/javascript; charset=utf-8", body.as_bytes())
    }

    /// Whether the request's `If-None-Match` header names this file's tag, so that the
    /// client's copy is current and the answer is "304 Not Modified".
    pub open spec fn is_cached_by(&self, headers: Seq<(Seq<u8>, Seq<u8>)>) -> bool {
        let found = header_lookup(headers, "If-None-Match".spec_bytes());
        &&& found is Some
        &&& exists|i: int|
            0 <= i < split_bytes(found->0, 0x2C).len() && etag_matches(
                self.etag.0@,
                trim_ascii(#[trigger] split_bytes(found->0, 0x2C)[i]),
            )
    }

    /// The status code of the response to a request with headers `headers`: 304 when the
    /// client's copy is current, 200 otherwise.
    pub fn response_status(&self, headers: &Headers) -> (r: StatusCode)
        ensures
            r.0 == if self.is_cached_by(headers@) {
                304u16
            } else {
                200u16
            },
    {
        match headers.get("If-None-Match") {
            None => StatusCode(200),
            Some(value) => {
                let tags = value.split_commas();
                let mut i: usize = 0;
                while i < tags.len()
                    invariant
                        i <= tags@.len(),
                        header_lookup(headers@, "If-None-Match".spec_bytes()) == Some(value@),
                        tags@.len() == split_bytes(value@, 0x2C).len(),
                        forall|k: int|
                            0 <= k < tags@.len() ==> #[trigger] tags@[k]@ == trim_ascii(split_bytes(value@, 0x2C)[k]),
                        forall|k: int|
                            0 <= k < i ==> !etag_matches(
                                self.etag.0@,
                                trim_ascii(#[trigger] split_bytes(value@, 0x2C)[k]),
                            ),
                    decreases tags@.len() - i,
                {
                    if self.etag.matches(tags[i].as_raw()) {
                        assert(etag_matches(self.etag.0@, trim_ascii(split_bytes(value@, 0x2C)[i as int])));
                        let ghost found = header_lookup(headers@, "If-None-Match".spec_bytes());
                        assert(found->0 == value@);
                        assert(exists|k: int|
                            0 <= k < split_bytes(found->0, 0x2C).len() && etag_matches(
                                self.etag.0@,
                                trim_ascii(#[trigger] split_bytes(found->0, 0x2C)[k]),
                            ));
                        assert(self.is_cached_by(headers@));
                        return StatusCode(304);
                    }
                    i = i + 1;
                }
                StatusCode(200)
            },
        }
    }
}

/// Whether `r` is the response of `file` to a request with headers `headers`: when the
/// client's copy is current, "304 Not Modified" with the `ETag` header and no body; otherwise
/// "200 OK" with `Content-Type`, `Content-Length`, the file's own headers and `ETag`, and the
/// file's content as body.
pub open spec fn file_response(file: File, headers: Seq<(Seq<u8>, Seq<u8>)>, r: Response<&'static [u8]>) -> bool {
    if file.is_cached_by(headers) {
        &&& r.status_code.0 == 304
        &&& header_views(r.headers@) == seq![("ETag"@, etag_header(file.etag.0@))]
        &&& r.body@.len() == 0
    } else {
        &&& r.status_code.0 == 200
        &&& header_views(r.headers@) == seq![
            ("Content-Type"@, file.content_type@),
            ("Content-Length"@, decimal_digits(file.body@.len())),
        ] + extra_headers(file.headers@) + seq![("ETag"@, etag_header(file.etag.0@))]
        &&& r.body == file.body
    }
}

impl File {
    /// The response to a request with headers `headers`.
    pub fn response(&self, headers: &Headers) -> (r: Response<&'static [u8]>)
        ensures
            file_response(*self, headers@, r),
    {
        let status = self.response_status(headers);
        let mut out: Vec<(String, String)> = Vec::new();
        if status.0 == 304 {
            out.push((owned_text("ETag"), self.etag.header_value()));
            assert(header_views(out@) =~= seq![("ETag"@, etag_header(self.etag.0@))]);
            let empty: &'static [u8] = &[];
            return Response { status_code: status, headers: out, body: empty };
        }
        let mut length = String::new();
        push_decimal(&mut length, self.body.len() as u64);
        out.push((owned_text("Content-Type"), owned_text(self.content_type)));
        out.push((owned_text("Content-Length"), length));
        let ghost start = header_views(out@);
        let mut i: usize = 0;
        while i < self.headers.len()
            invariant
                i <= self.headers@.len(),
                header_views(out@) == start + extra_headers(self.headers@.take(i as int)),
            decreases self.headers.len() - i,
        {
            let (name, value) = self.headers[i];
            let ghost old_views = header_views(out@);
            out.push((owned_text(name), owned_text(value)));
            assert(header_views(out@) =~= old_views.push((name@, value@)));
            assert(extra_headers(self.headers@.take(i + 1)) =~= extra_headers(
                self.headers@.take(i as int),
            ).push((name@, value@)));
            assert(header_views(out@) =~= start + extra_headers(self.headers@.take(i + 1)));
            i = i + 1;
        }
        assert(self.headers@.take(i as int) =~= self.headers@);
        let ghost before_etag = header_views(out@);
        out.push((owned_text("ETag"), self.etag.header_value()));
        assert(header_views(out@) =~= before_etag.push(("ETag"@, etag_header(self.etag.0@))));
        assert(header_views(out@) =~= seq![
            ("Content-Type"@, self.content_type@),
            ("Content-Length"@, decimal_digits(self.body@.len())),
        ] + extra_headers(self.headers@) + seq![("ETag"@, etag_header(self.etag.0@))]);
        Response { status_code: status, headers: out, body: self.body }
    }
}

fn owned_text(s: &str) -> (r: String)
    ensures
        r@ == s@,
{
    s.to_owned()
}

/// The header text of a tag names that tag.
pub proof fn lemma_etag_text_matches(tag: Seq<u8>)
    ensures
        etag_matches(tag, etag_text(tag)),
{
    let t = etag_text(tag);
    assert forall|i: int| 0 <= i < tag.len() implies {
        &&& #[trigger] nibble(t[1 + 2 * i]) is Some
        &&& nibble(t[2 + 2 * i]) is Some
        &&& nibble(t[1 + 2 * i])->0 * 16 + nibble(t[2 + 2 * i])->0 == tag[i]
    } by {
        assert((2 * i) / 2 == i);
        assert((2 * i + 1) / 2 == i);
        assert((2 * i) % 2 == 0);
        assert((2 * i + 1) % 2 == 1);
    }
}

/// Sending back the tag a file is served with, as the only tag of `If-None-Match`, makes the
/// file's response "304 Not Modified".
pub proof fn lemma_own_etag_is_cached(file: File, headers: Seq<(Seq<u8>, Seq<u8>)>)
    requires
        header_lookup(headers, "If-None-Match".spec_bytes()) == Some(etag_text(file.etag.0@)),
    ensures
        file.is_cached_by(headers),
{
    let tag = file.etag.0@;
    let v = etag_text(tag);
    assert forall|i: int| 0 <= i < v.len() implies v[i] != 0x2C by {
        if 1 <= i < v.len() - 1 {
            let j = i - 1;
            assert(tag[j / 2] / 16 < 16 && tag[j / 2] % 16 < 16);
        }
    }
    lemma_split_bytes_without_separator(v, 0x2C);
    assert(trim_ascii(v) == v);
    lemma_etag_text_matches(tag);
    assert(split_bytes(v, 0x2C)[0] == v);
    let found = header_lookup(headers, "If-None-Match".spec_bytes());
    assert(found->0 == v);
    assert(etag_matches(tag, trim_ascii(split_bytes(found->0, 0x2C)[0])));
    assert(0 < split_bytes(found->0, 0x2C).len());
}

/// A directory of static files.
pub struct Directory {
    /// The files in the directory.
    pub files: Vec<(&'static str, File)>,
    /// Subdirectories inside this directory.
    pub sub_directories: Vec<(&'static str, Directory)>,
}

/// The outcome of looking a path up in a directory.
pub enum FileLookup {
    /// The file the path names.
    Found(File),
    /// No file matches.
    NotFound,
}

/// Looking `path` up among `files` from index `i` on: the first file whose name, after a
/// '/', is all that remains of the path.
pub open spec fn files_lookup(files: Seq<(&'static str, File)>, i: int, path: Seq<char>) -> FileLookup
    decreases files.len() - i,
{
    if i < 0 || i >= files.len() {
        FileLookup::NotFound
    } else {
        match strip_slash_and_prefix_spec(path, files[i].0@) {
            StripOutcome::Stripped(rest) => if rest.len() == 0 {
                FileLookup::Found(files[i].1)
            } else {
                files_lookup(files, i + 1, path)
            },
            StripOutcome::NoMatch => files_lookup(files, i + 1, path),
        }
    }
}

/// Looking `path` up in directory `d`: its own files first, then its subdirectories in order.
pub open spec fn directory_lookup(d: Directory, path: Seq<char>) -> FileLookup
    decreases d, d.sub_directories@.len() + 1,
{
    match files_lookup(d.files@, 0, path) {
        FileLookup::NotFound => subdirectories_lookup(d, 0, path),
        other => other,
    }
}

/// Looking `path` up in the subdirectories of `d` from index `i` on: the first subdirectory
/// whose name, after a '/', prefixes the path, and which holds the rest of the path.
pub open spec fn subdirectories_lookup(d: Directory, i: int, path: Seq<char>) -> FileLookup
    decreases d, d.sub_directories@.len() - i,
{
    if i < 0 || i >= d.sub_directories@.len() {
        FileLookup::NotFound
    } else {
        let (name, sub) = d.sub_directories@[i];
        match strip_slash_and_prefix_spec(path, name@) {
            StripOutcome::NoMatch => subdirectories_lookup(d, i + 1, path),
            StripOutcome::Stripped(rest) => match directory_lookup(sub, rest) {
                FileLookup::NotFound => subdirectories_lookup(d, i + 1, path),
                other => other,
            },
        }
    }
}

impl Directory {
    /// An empty directory.
    pub fn new() -> (r: Self)
        ensures
            r.files@.len() == 0,
            r.sub_directories@.len() == 0,
    {
        Directory { files: Vec::new(), sub_directories: Vec::new() }
    }

    /// The file that `path` names, if any.
    pub fn matching_file(&self, path: &UrlEncodedString) -> (r: Option<File>)
        ensures
            match directory_lookup(*self, path@) {
                FileLookup::Found(f) => r == Some(f),
                _ => r is None,
            },
        decreases *self,
    {
        let mut i: usize = 0;
        while i < self.files.len()
            invariant
                i <= self.files@.len(),
                files_lookup(self.files@, 0, path@) == files_lookup(self.files@, i as int, path@),
            decreases self.files@.len() - i,
        {
            let (name, file) = self.files[i];
            match Path(path.duplicate()).strip_slash_and_prefix(name) {
                Some(rest) => {
                    if rest.is_empty() {
                        return Some(file);
                    }
                },
                None => {},
            }
            i = i + 1;
        }
        let mut j: usize = 0;
        while j < self.sub_directories.len()
            invariant
                j <= self.sub_directories@.len(),
                directory_lookup(*self, path@) == subdirectories_lookup(*self, j as int, path@),
            decreases self.sub_directories@.len() - j,
        {
            let sub = &self.sub_directories[j];
            match Path(path.duplicate()).strip_slash_and_prefix(sub.0) {
                Some(rest) => {
                    assert(decreases_to!(*self => self.sub_directories@[j as int].1));
                    match sub.1.matching_file(&rest.0) {
                        Some(f) => {
                            return Some(f);
                        },
                        None => {},
                    }
                },
                None => {},
            }
            j = j + 1;
        }
        None
    }
}

impl Directory {
    /// The answer of the directory to a request with method `method`, whole path
    /// `request_path` and headers `headers`, where `path` is what remains of the path below the
    /// directory: "405 Method Not Allowed" unless the method is `GET`; otherwise the response of
    /// the file that `path` names, or "404 Not Found" when there is none.
    pub fn respond(
        &self,
        method: &str,
        request_path: &str,
        path: &UrlEncodedString,
        headers: &Headers,
    ) -> (r: Result<Response<&'static [u8]>, (StatusCode, String)>)
        ensures
            !eq_ignore_ascii_case(method.spec_bytes(), "get".spec_bytes()) ==> (r matches Err((s, b))
                && s.0 == 405 && b@ == "Method "@ + method@ + " not allowed for "@ + request_path@
                + "\r\n"@),
            eq_ignore_ascii_case(method.spec_bytes(), "get".spec_bytes()) ==> match directory_lookup(
                *self,
                path@,
            ) {
                FileLookup::Found(f) => r matches Ok(resp) && file_response(f, headers@, resp),
                FileLookup::NotFound => r matches Err((s, b)) && s.0 == 404 && b@ == request_path@
                    + " not found\r\n"@,
            },
    {
        if !bytes_eq_ignore_ascii_case(method.as_bytes(), "get".as_bytes()) {
            return Err(method_not_allowed_response(method, request_path));
        }
        match self.matching_file(path) {
            Some(file) => Ok(file.response(headers)),
            None => Err(not_found_response(request_path)),
        }
    }
}

} // verus!
