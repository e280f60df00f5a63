//! The head of a response: the status line, the headers, and the `connection` header rules.
use vstd::prelude::*;
use vstd::string::StringSliceAdditionalSpecFns;
use vstd::utf8::encode_utf8;

use crate::request::{ascii_lower, ascii_whitespace, eq_ignore_ascii_case, is_ascii_whitespace, to_ascii_lower};
use crate::server::KeepAlive;
use crate::status::StatusCode;
use crate::text::{decimal_digits, push_decimal, push_str};

verus! {

/// Whether `b` separates tokens in a header value: a comma or ASCII whitespace.
pub open spec fn is_token_delimiter(b: u8) -> bool {
    b == 0x2C || is_ascii_whitespace(b)
}

/// The tokens of `s`: the pieces between delimiters, in order, empty ones included.
pub open spec fn tokens(s: Seq<u8>) -> Seq<Seq<u8>>
    decreases s.len(),
{
    if s.len() == 0 {
        seq![Seq::empty()]
    } else {
        let r = tokens(s.drop_last());
        if is_token_delimiter(s.last()) {
            r.push(Seq::empty())
        } else {
            r.update(r.len() - 1, r.last().push(s.last()))
        }
    }
}

/// Whether the token `t`, lower-cased, equals `target`.
pub open spec fn token_matches(t: Seq<u8>, target: Seq<u8>) -> bool {
    t.len() == target.len() && forall|k: int| 0 <= k < t.len() ==> #[trigger] ascii_lower(t[k]) == target[k]
}

/// Whether `u`, lower-cased, is a prefix of `target`.
pub open spec fn prefix_matches(u: Seq<u8>, target: Seq<u8>) -> bool {
    u.len() <= target.len() && forall|k: int| 0 <= k < u.len() ==> #[trigger] ascii_lower(u[k]) == target[k]
}

/// Whether the text `s` holds `target` as one of its tokens; an empty target is always held.
pub open spec fn contains_token(s: Seq<u8>, target: Seq<u8>) -> bool {
    target.len() == 0 || exists|i: int| 0 <= i < tokens(s).len() && token_matches(#[trigger] tokens(s)[i], target)
}

proof fn lemma_tokens_nonempty(s: Seq<u8>)
    ensures
        tokens(s).len() >= 1,
    decreases s.len(),
{
    if s.len() > 0 {
        lemma_tokens_nonempty(s.drop_last());
    }
}

/// Searches text, fed in pieces, for a token.
pub struct ContainsToken {
    target_token: Vec<u8>,
    token_read_position: usize,
    token_is_too_long: bool,
    found: bool,
    seen: Ghost<Seq<u8>>,
}

impl ContainsToken {
    /// The token searched for.
    pub closed spec fn target(&self) -> Seq<u8> {
        self.target_token@
    }

    /// The text fed so far.
    pub closed spec fn seen_text(&self) -> Seq<u8> {
        self.seen@
    }

    /// The searcher's invariant: its state describes the text seen so far.
    pub closed spec fn wf(&self) -> bool {
        let t = tokens(self.seen@);
        let n = t.len();
        &&& n >= 1
        &&& self.found ==> exists|i: int| 0 <= i < n - 1 && token_matches(#[trigger] t[i], self.target_token@)
        &&& !self.found ==> forall|i: int| 0 <= i < n - 1 ==> !token_matches(#[trigger] t[i], self.target_token@)
        &&& !self.found ==> (self.token_is_too_long <==> !prefix_matches(t[n - 1], self.target_token@))
        &&& !self.found && !self.token_is_too_long ==> self.token_read_position == t[n - 1].len()
    }

    /// A searcher for `target_token` that has seen no text.
    pub fn new(target_token: &[u8]) -> (r: Self)
        ensures
            r.wf(),
            r.target() == target_token@,
            r.seen_text() == Seq::<u8>::empty(),
    {
        let mut v: Vec<u8> = Vec::new();
        let mut i: usize = 0;
        while i < target_token.len()
            invariant
                i <= target_token@.len(),
                v@ == target_token@.take(i as int),
            decreases target_token.len() - i,
        {
            v.push(target_token[i]);
            i = i + 1;
            assert(v@ =~= target_token@.take(i as int));
        }
        assert(target_token@.take(i as int) =~= target_token@);
        let r = ContainsToken {
            target_token: v,
            token_read_position: 0,
            token_is_too_long: false,
            found: false,
            seen: Ghost(Seq::empty()),
        };
        assert(tokens(Seq::<u8>::empty()) == seq![Seq::<u8>::empty()]);
        r
    }

    fn finish_token(&mut self)
        requires
            old(self).wf(),
        ensures
            final(self).target() == old(self).target(),
            final(self).found == (old(self).found || (!old(self).token_is_too_long && old(self).token_read_position == old(self).target_token@.len())),
            final(self).token_read_position == 0,
            !final(self).token_is_too_long,
            final(self).seen == old(self).seen,
    {
        if !self.token_is_too_long && self.token_read_position == self.target_token.len() {
            self.found = true;
        }
        self.token_read_position = 0;
        self.token_is_too_long = false;
    }

    /// Feed the next byte of text.
    pub fn push_byte(&mut self, b: u8)
        requires
            old(self).wf(),
        ensures
            final(self).wf(),
            final(self).target() == old(self).target(),
            final(self).seen_text() == old(self).seen_text().push(b),
    {
        let ghost p = self.seen@;
        let ghost q = p.push(b);
        proof {
            lemma_tokens_nonempty(p);
            assert(q.drop_last() =~= p);
        }
        let ghost t = tokens(p);
        let ghost n = t.len();
        if ascii_whitespace(b) || b == 0x2C {
            let ghost was_found = self.found;
            self.finish_token();
            proof {
                let tq = tokens(q);
                assert(tq == t.push(Seq::empty()));
                if self.found && !was_found {
                    assert(token_matches(tq[n - 1], self.target_token@));
                }
                if self.found && was_found {
                    let i = choose|i: int| 0 <= i < n - 1 && token_matches(#[trigger] t[i], self.target_token@);
                    assert(tq[i] == t[i]);
                }
                if !self.found {
                    assert forall|i: int| 0 <= i < tq.len() - 1 implies !token_matches(#[trigger] tq[i], self.target_token@) by {
                        if i < n - 1 {
                            assert(tq[i] == t[i]);
                        }
                    }
                }
                assert(tq[tq.len() - 1] =~= Seq::<u8>::empty());
            }
            self.seen = Ghost(q);
            assert(self.wf());
        } else {
            proof {
                let tq = tokens(q);
                assert(tq == t.update(n - 1, t[n - 1].push(b)));
                if self.found {
                    let i = choose|i: int| 0 <= i < n - 1 && token_matches(#[trigger] t[i], self.target_token@);
                    assert(tq[i] == t[i]);
                } else {
                    assert forall|i: int| 0 <= i < tq.len() - 1 implies !token_matches(#[trigger] tq[i], self.target_token@) by {
                        assert(tq[i] == t[i]);
                    }
                }
            }
            if !self.found && !self.token_is_too_long {
                if self.token_read_position < self.target_token.len() {
                    if to_ascii_lower(b) == self.target_token[self.token_read_position] {
                        self.token_read_position = self.token_read_position + 1;
                        proof {
                            let last = t[n - 1].push(b);
                            assert forall|k: int| 0 <= k < last.len() implies #[trigger] ascii_lower(last[k]) == self.target_token@[k] by {
                                if k < last.len() - 1 {
                                    assert(last[k] == t[n - 1][k]);
                                }
                            }
                        }
                    } else {
                        self.token_is_too_long = true;
                        proof {
                            let last = t[n - 1].push(b);
                            assert(last[last.len() - 1] == b);
                            assert(ascii_lower(last[last.len() - 1]) != self.target_token@[last.len() - 1]);
                        }
                    }
                } else {
                    self.token_is_too_long = true;
                }
            } else if !self.found {
                proof {
                    let last = t[n - 1].push(b);
                    if prefix_matches(last, self.target_token@) {
                        assert forall|k: int| 0 <= k < t[n - 1].len() implies #[trigger] ascii_lower(t[n - 1][k]) == self.target_token@[k] by {
                            assert(last[k] == t[n - 1][k]);
                        }
                    }
                }
            }
            self.seen = Ghost(q);
            assert(self.wf());
        }
    }

    /// Feed the next piece of text.
    pub fn write_str(&mut self, s: &str)
        requires
            old(self).wf(),
        ensures
            final(self).wf(),
            final(self).target() == old(self).target(),
            final(self).seen_text() == old(self).seen_text() + s.spec_bytes(),
    {
        let bytes = s.as_bytes();
        let mut i: usize = 0;
        while i < bytes.len()
            invariant
                i <= bytes@.len(),
                self.wf(),
                self.target() == old(self).target(),
                self.seen_text() == old(self).seen_text() + bytes@.take(i as int),
            decreases bytes.len() - i,
        {
            self.push_byte(bytes[i]);
            assert(old(self).seen_text() + bytes@.take(i + 1) =~= (old(self).seen_text() + bytes@.take(i as int)).push(bytes@[i as int]));
            i = i + 1;
        }
        assert(bytes@.take(i as int) =~= bytes@);
    }

    /// Whether the text seen holds the target token.
    pub fn finalize(self) -> (r: bool)
        requires
            self.wf(),
        ensures
            r == contains_token(self.seen_text(), self.target()),
    {
        let ghost t = tokens(self.seen@);
        let ghost n = t.len();
        let mut this = self;
        let was_found = this.found;
        this.finish_token();
        proof {
            if this.found {
                if !was_found {
                    assert(token_matches(t[n - 1], this.target_token@));
                } else {
                    let i = choose|i: int| 0 <= i < n - 1 && token_matches(#[trigger] t[i], this.target_token@);
                }
            } else if this.target_token@.len() != 0 {
                assert forall|i: int| 0 <= i < n implies !token_matches(#[trigger] t[i], this.target_token@) by {
                    if i == n - 1 {
                        if token_matches(t[i], this.target_token@) {
                            assert(prefix_matches(t[i], this.target_token@));
                        }
                    }
                }
            }
        }
        this.target_token.len() == 0 || this.found
    }
}

/// Whether the text, given as consecutive pieces, holds `token` as one of its comma or
/// whitespace separated tokens, compared ignoring ASCII case; an empty token is always held.
pub fn display_contains(token: &[u8], pieces: &[&str]) -> (r: bool)
    ensures
        r == contains_token(concat_bytes(pieces@.map_values(|p: &str| p.spec_bytes())), token@),
{
    let mut contains = ContainsToken::new(token);
    let ghost all = pieces@.map_values(|p: &str| p.spec_bytes());
    let mut i: usize = 0;
    while i < pieces.len()
        invariant
            i <= pieces@.len(),
            all == pieces@.map_values(|p: &str| p.spec_bytes()),
            contains.wf(),
            contains.target() == token@,
            contains.seen_text() == concat_bytes(all.take(i as int)),
        decreases pieces.len() - i,
    {
        contains.write_str(pieces[i]);
        assert(all.take(i + 1).drop_last() =~= all.take(i as int));
        i = i + 1;
    }
    assert(all.take(i as int) =~= all);
    contains.finalize()
}

/// The pieces of text `parts`, one after the other.
pub open spec fn concat_bytes(parts: Seq<Seq<u8>>) -> Seq<u8>
    decreases parts.len(),
{
    if parts.len() == 0 {
        Seq::empty()
    } else {
        concat_bytes(parts.drop_last()) + parts.last()
    }
}

/// Which `connection` header a response still owes.
#[derive(Debug, Clone, Copy, PartialEq, Eq, Structural)]
pub enum ConnectionHeader {
    /// Announce this behaviour unless the handler sets a `connection` header itself.
    DefaultTo(KeepAlive),
    /// The connection must close: a handler's `connection` header is dropped unless it
    /// upgrades the connection, and otherwise `close` is announced.
    ForceClose,
}

/// The text of a header line.
pub open spec fn header_line(name: Seq<char>, value: Seq<char>) -> Seq<char> {
    name + ": "@ + value + "\r\n"@
}

/// The header lines written for `headers`, and the `connection` header still owed after them.
pub open spec fn header_lines(headers: Seq<(Seq<char>, Seq<char>)>, owed: Option<ConnectionHeader>) -> (Seq<char>, Option<ConnectionHeader>)
    decreases headers.len(),
{
    if headers.len() == 0 {
        (Seq::empty(), owed)
    } else {
        let (name, value) = headers[0];
        let rest = headers.drop_first();
        if eq_ignore_ascii_case(encode_utf8(name), "connection".spec_bytes()) {
            if owed == Some(ConnectionHeader::ForceClose) && !contains_token(encode_utf8(value), "upgrade".spec_bytes()) {
                header_lines(rest, owed)
            } else {
                let (text, after) = header_lines(rest, None);
                (header_line(name, value) + text, after)
            }
        } else {
            let (text, after) = header_lines(rest, owed);
            (header_line(name, value) + text, after)
        }
    }
}

/// The header value that announces `k`.
pub open spec fn keep_alive_text(k: KeepAlive) -> Seq<char> {
    match k {
        KeepAlive::Close => "close"@,
        KeepAlive::KeepAlive => "keep-alive"@,
    }
}

/// The `connection` header line owed at the end of the headers, if any.
pub open spec fn owed_connection_line(owed: Option<ConnectionHeader>) -> Seq<char> {
    match owed {
        None => Seq::empty(),
        Some(ConnectionHeader::DefaultTo(k)) => header_line("connection"@, keep_alive_text(k)),
        Some(ConnectionHeader::ForceClose) => header_line("connection"@, "close"@),
    }
}

/// The head of a response: the status line, the header lines and the blank line.
pub open spec fn response_head_spec(status: u16, headers: Seq<(Seq<char>, Seq<char>)>, owed: ConnectionHeader) -> Seq<char> {
    let (text, after) = header_lines(headers, Some(owed));
    "HTTP/1.1 "@ + decimal_digits(status as nat) + " \r\n"@ + text + owed_connection_line(after) + "\r\n"@
}

/// Whether `name` names the `connection` header, ignoring ASCII case.
pub open spec fn is_connection_header(name: Seq<char>) -> bool {
    eq_ignore_ascii_case(encode_utf8(name), "connection".spec_bytes())
}

/// Each header written as its own line, in order.
pub open spec fn plain_header_lines(headers: Seq<(Seq<char>, Seq<char>)>) -> Seq<char>
    decreases headers.len(),
{
    if headers.len() == 0 {
        Seq::empty()
    } else {
        header_line(headers[0].0, headers[0].1) + plain_header_lines(headers.drop_first())
    }
}

/// Whether one of `headers` is a `connection` header.
pub open spec fn has_connection_header(headers: Seq<(Seq<char>, Seq<char>)>) -> bool {
    exists|i: int| 0 <= i < headers.len() && is_connection_header(#[trigger] headers[i].0)
}

proof fn lemma_lines_owing_nothing(headers: Seq<(Seq<char>, Seq<char>)>)
    ensures
        header_lines(headers, None) == (plain_header_lines(headers), Option::<ConnectionHeader>::None),
    decreases headers.len(),
{
    if headers.len() > 0 {
        lemma_lines_owing_nothing(headers.drop_first());
    }
}

proof fn lemma_lines_owing_default(headers: Seq<(Seq<char>, Seq<char>)>, k: KeepAlive)
    ensures
        header_lines(headers, Some(ConnectionHeader::DefaultTo(k))) == (
            plain_header_lines(headers),
            if has_connection_header(headers) {
                Option::<ConnectionHeader>::None
            } else {
                Some(ConnectionHeader::DefaultTo(k))
            },
        ),
    decreases headers.len(),
{
    if headers.len() > 0 {
        let rest = headers.drop_first();
        lemma_lines_owing_default(rest, k);
        lemma_lines_owing_nothing(rest);
        if has_connection_header(rest) {
            let i = choose|i: int| 0 <= i < rest.len() && is_connection_header(#[trigger] rest[i].0);
            assert(headers[i + 1] == rest[i]);
        }
        if is_connection_header(headers[0].0) {
            assert(has_connection_header(headers));
        } else if has_connection_header(headers) {
            let i = choose|i: int| 0 <= i < headers.len() && is_connection_header(#[trigger] headers[i].0);
            assert(i > 0);
            assert(rest[i - 1] == headers[i]);
        }
    }
}

/// A response which only defaults its connection behaviour writes the headers it is given,
/// in order and each once. When one of them is a `connection` header, it replaces the
/// default, and no other `connection` line is written; otherwise the default is announced
/// after them.
pub proof fn lemma_own_connection_header_replaces_default(
    status: u16,
    headers: Seq<(Seq<char>, Seq<char>)>,
    k: KeepAlive,
)
    ensures
        has_connection_header(headers) ==> response_head_spec(
            status,
            headers,
            ConnectionHeader::DefaultTo(k),
        ) == "HTTP/1.1 "@ + decimal_digits(status as nat) + " \r\n"@ + plain_header_lines(headers)
            + "\r\n"@,
        !has_connection_header(headers) ==> response_head_spec(
            status,
            headers,
            ConnectionHeader::DefaultTo(k),
        ) == "HTTP/1.1 "@ + decimal_digits(status as nat) + " \r\n"@ + plain_header_lines(headers)
            + header_line("connection"@, keep_alive_text(k)) + "\r\n"@,
{
    lemma_lines_owing_default(headers, k);
    assert(owed_connection_line(None) =~= Seq::<char>::empty());
    let start = "HTTP/1.1 "@ + decimal_digits(status as nat) + " \r\n"@ + plain_header_lines(headers);
    assert(start + Seq::<char>::empty() =~= start);
}

fn push_header_line(out: &mut String, name: &str, value: &str)
    ensures
        final(out)@ == old(out)@ + header_line(name@, value@),
{
    push_str(out, name);
    push_str(out, ": ");
    push_str(out, value);
    push_str(out, "\r\n");
    assert(final(out)@ =~= old(out)@ + header_line(name@, value@));
}

/// The headers of a response, as name and value pairs.
pub open spec fn header_views(headers: Seq<(String, String)>) -> Seq<(Seq<char>, Seq<char>)> {
    headers.map_values(|h: (String, String)| (h.0@, h.1@))
}

/// Writes the head of a response: the status line, the headers in order, the `connection`
/// header the response still owes, and the blank line that ends the head. When the
/// connection must close, a handler's `connection` header that does not upgrade is dropped.
pub fn response_head(status_code: StatusCode, headers: &[(String, String)], owed: ConnectionHeader) -> (r: String)
    ensures
        r@ == response_head_spec(status_code.0, header_views(headers@), owed),
{
    let mut out = String::new();
    push_str(&mut out, "HTTP/1.1 ");
    push_decimal(&mut out, status_code.0 as u64);
    push_str(&mut out, " \r\n");
    let ghost hv = header_views(headers@);
    let ghost start = out@;
    let mut state: Option<ConnectionHeader> = Some(owed);
    let mut i: usize = 0;
    assert(hv.skip(0) =~= hv);
    while i < headers.len()
        invariant
            i <= headers@.len(),
            hv == header_views(headers@),
            ({
                let (text, after) = header_lines(hv, Some(owed));
                let (rest_text, rest_after) = header_lines(hv.skip(i as int), state);
                &&& out@ + rest_text == start + text
                &&& rest_after == after
            }),
        decreases headers.len() - i,
    {
        let ghost tail = hv.skip(i as int);
        assert(tail.drop_first() =~= hv.skip(i + 1));
        assert(tail[0] == (headers@[i as int].0@, headers@[i as int].1@));
        let name = headers[i].0.as_str();
        let value = headers[i].1.as_str();
        if bytes_eq_ignore_ascii_case_str(name, "connection") {
            let mut skip = false;
            if state == Some(ConnectionHeader::ForceClose) {
                let mut c = ContainsToken::new("upgrade".as_bytes());
                c.write_str(value);
                assert(Seq::<u8>::empty() + value.spec_bytes() =~= value.spec_bytes());
                if !c.finalize() {
                    skip = true;
                }
            }
            if !skip {
                let ghost before = out@;
                push_header_line(&mut out, name, value);
                proof {
                    let (t2, _) = header_lines(hv.skip(i + 1), None);
                    assert(before + (header_line(name@, value@) + t2) =~= out@ + t2);
                }
                state = None;
            }
        } else {
            let ghost before = out@;
            push_header_line(&mut out, name, value);
            proof {
                let (t2, _) = header_lines(hv.skip(i + 1), state);
                assert(before + (header_line(name@, value@) + t2) =~= out@ + t2);
            }
        }
        i = i + 1;
    }
    proof {
        assert(hv.skip(i as int) =~= Seq::<(Seq<char>, Seq<char>)>::empty());
        assert(out@ + Seq::<char>::empty() =~= out@);
    }
    match state {
        None => {},
        Some(ConnectionHeader::DefaultTo(k)) => {
            push_header_line(&mut out, "connection", k.header_value());
        },
        Some(ConnectionHeader::ForceClose) => {
            push_header_line(&mut out, "connection", "close");
        },
    }
    let ghost before_end = out@;
    push_str(&mut out, "\r\n");
    proof {
        let (text, after) = header_lines(hv, Some(owed));
        assert(before_end == start + text + owed_connection_line(after));
        assert(out@ =~= response_head_spec(status_code.0, hv, owed));
    }
    out
}

fn bytes_eq_ignore_ascii_case_str(a: &str, b: &str) -> (r: bool)
    ensures
        r == eq_ignore_ascii_case(a.spec_bytes(), b.spec_bytes()),
{
    crate::request::bytes_eq_ignore_ascii_case(a.as_bytes(), b.as_bytes())
}

/// A response: its status, the headers it sends, in order, and its body.
#[derive(Debug)]
pub struct Response<B> {
    /// The status code of the response.
    pub status_code: StatusCode,
    /// The headers of the response, in the order they are sent.
    pub headers: Vec<(String, String)>,
    /// The body.
    pub body: B,
}

/// A "200 OK" response carrying `body` as content of type `content_type` which is
/// `content_length` bytes long: it sends `Content-Type`, then `Content-Length` in decimal.
pub fn ok_content<B>(content_type: &str, content_length: usize, body: B) -> (r: Response<B>)
    ensures
        r.status_code.0 == 200,
        header_views(r.headers@) == seq![
            ("Content-Type"@, content_type@),
            ("Content-Length"@, decimal_digits(content_length as nat)),
        ],
        r.body == body,
{
    let mut length = String::new();
    push_decimal(&mut length, content_length as u64);
    assert(length@ =~= decimal_digits(content_length as nat));
    let mut headers: Vec<(String, String)> = Vec::new();
    headers.push((owned("Content-Type"), owned(content_type)));
    headers.push((owned("Content-Length"), length));
    assert(header_views(headers@) =~= seq![
        ("Content-Type"@, content_type@),
        ("Content-Length"@, decimal_digits(content_length as nat)),
    ]);
    Response { status_code: StatusCode(200), headers, body }
}

/// A response whose body is written by the handler itself, such as a partial body followed
/// by more data later on. Only the headers given are sent, after `Connection: close`.
pub struct CustomResponse<B> {
    /// The status code of the response.
    pub status_code: StatusCode,
    /// The headers of the response, in the order they are sent.
    pub headers: Vec<(String, String)>,
    /// The body.
    pub body: B,
}

/// Builds a [CustomResponse].
pub struct CustomResponseBuilder {
    /// The status code of the response.
    pub status_code: StatusCode,
    /// The headers of the response so far, in the order they are sent.
    pub headers: Vec<(String, String)>,
}

fn owned(s: &str) -> (r: String)
    ensures
        r@ == s@,
{
    s.to_owned()
}

impl<B> CustomResponse<B> {
    /// Start building a custom response with the given status code; its first header is
    /// `Connection: close`.
    pub fn build(status_code: StatusCode) -> (r: CustomResponseBuilder)
        ensures
            r.status_code == status_code,
            header_views(r.headers@) == seq![("Connection"@, "close"@)],
    {
        let mut headers: Vec<(String, String)> = Vec::new();
        headers.push((owned("Connection"), owned("close")));
        assert(header_views(headers@) =~= seq![("Connection"@, "close"@)]);
        CustomResponseBuilder { status_code, headers }
    }
}

impl CustomResponseBuilder {
    /// Add a header to the response.
    pub fn with_header(self, name: &str, value: &str) -> (r: Self)
        ensures
            r.status_code == self.status_code,
            header_views(r.headers@) == header_views(self.headers@).push((name@, value@)),
    {
        let mut headers = self.headers;
        let ghost before = header_views(headers@);
        headers.push((owned(name), owned(value)));
        assert(header_views(headers@) =~= before.push((name@, value@)));
        CustomResponseBuilder { status_code: self.status_code, headers }
    }

    /// Add a list of headers to the response, after the ones already there.
    pub fn with_headers(self, extra: &[(&str, &str)]) -> (r: Self)
        ensures
            r.status_code == self.status_code,
            header_views(r.headers@) == header_views(self.headers@) + extra@.map_values(
                |h: (&str, &str)| (h.0@, h.1@),
            ),
    {
        let ghost start = header_views(self.headers@);
        let ghost extra_views = extra@.map_values(|h: (&str, &str)| (h.0@, h.1@));
        let mut headers = self.headers;
        let mut i: usize = 0;
        while i < extra.len()
            invariant
                i <= extra@.len(),
                extra_views == extra@.map_values(|h: (&str, &str)| (h.0@, h.1@)),
                header_views(headers@) == start + extra_views.take(i as int),
            decreases extra.len() - i,
        {
            let (name, value) = extra[i];
            let ghost before = header_views(headers@);
            headers.push((owned(name), owned(value)));
            assert(header_views(headers@) =~= before.push((name@, value@)));
            assert(extra_views.take(i + 1) =~= extra_views.take(i as int).push(extra_views[i as int]));
            i = i + 1;
        }
        assert(extra_views.take(i as int) =~= extra_views);
        CustomResponseBuilder { status_code: self.status_code, headers }
    }

    /// Add the body to the response and finish building.
    pub fn with_body<B>(self, body: B) -> (r: CustomResponse<B>)
        ensures
            r.status_code == self.status_code,
            r.headers == self.headers,
            r.body == body,
    {
        CustomResponse { status_code: self.status_code, headers: self.headers, body }
    }
}

} // verus!
