//! Web Socket framing: reading frames and messages, writing frames, and the upgrade handshake.
use vstd::prelude::*;
use vstd::string::StringSliceAdditionalSpecFns;
use vstd::utf8::{decode_utf8, encode_utf8, valid_utf8};

use crate::extract::UpgradeToken;
use crate::futures::Either;
use crate::request::{
    bytes_eq_ignore_ascii_case, eq_ignore_ascii_case, header_lookup, split_bytes, trim_ascii, Headers,
    RequestParts,
};
use crate::status::StatusCode;
use crate::text::{chars_of, push_char, utf8_text};

verus! {

/// A web socket message data opcode.
#[derive(Debug, Clone, Copy, PartialEq, Eq, Structural)]
pub enum Data {
    /// This frame continues from the previous frame.
    Continue,
    /// This frame starts a UTF-8 text string.
    Text,
    /// This frame starts a binary blob.
    Binary,
    /// This frame uses a reserved opcode.
    Reserved(u8),
}

/// A web socket message control opcode.
#[derive(Debug, Clone, Copy, PartialEq, Eq, Structural)]
pub enum Control {
    /// The connection should be closed.
    Close,
    /// A ping message, which should be replied with a "pong" message containing the same data.
    Ping,
    /// The response to a "ping" message
    Pong,
    /// This frame uses a reserved opcode.
    Reserved(u8),
}

/// A web socket message opcode.
#[derive(Debug, Clone, Copy, PartialEq, Eq, Structural)]
pub enum Opcode {
    /// "Data", e.g. text or binary.
    Data(Data),
    /// "Control" information, such as Close, Ping, and Pong.
    Control(Control),
}

/// The opcode named by the four-bit field value `value`.
pub open spec fn opcode_of(value: u8) -> Opcode {
    if value == 0 {
        Opcode::Data(Data::Continue)
    } else if value == 1 {
        Opcode::Data(Data::Text)
    } else if value == 2 {
        Opcode::Data(Data::Binary)
    } else if value <= 7 {
        Opcode::Data(Data::Reserved(value))
    } else if value == 8 {
        Opcode::Control(Control::Close)
    } else if value == 9 {
        Opcode::Control(Control::Ping)
    } else if value == 10 {
        Opcode::Control(Control::Pong)
    } else {
        Opcode::Control(Control::Reserved(value))
    }
}

impl Opcode {
    /// The opcode with the given numerical value.
    pub fn from_u8(value: u8) -> (r: Opcode)
        ensures
            r == opcode_of(value),
    {
        if value == 0 {
            Opcode::Data(Data::Continue)
        } else if value == 1 {
            Opcode::Data(Data::Text)
        } else if value == 2 {
            Opcode::Data(Data::Binary)
        } else if value <= 7 {
            Opcode::Data(Data::Reserved(value))
        } else if value == 8 {
            Opcode::Control(Control::Close)
        } else if value == 9 {
            Opcode::Control(Control::Ping)
        } else if value == 10 {
            Opcode::Control(Control::Pong)
        } else {
            Opcode::Control(Control::Reserved(value))
        }
    }
}

/// A single Web Socket frame.
#[derive(Debug, Clone, Copy, PartialEq, Eq, Structural)]
pub struct Frame {
    /// If true, this frame is the final frame of the message.
    pub is_final: bool,
    /// The opcode of this frame.
    pub opcode: Opcode,
    /// The length in bytes of the data of this frame.
    pub length: usize,
}

/// Errors arising when reading a frame.
#[derive(Debug, Clone, Copy, PartialEq, Eq, Structural)]
pub enum ReadFrameError {
    /// EOF received which reading the frame.
    UnexpectedEof,
    /// The message length is too large to be represented as a usize.
    MessageIsTooLong(u64),
    /// The message is larger than the given buffer.
    OutOfSpace,
}

/// Errors arising when reading a message.
#[derive(Debug, Clone, Copy, PartialEq, Eq, Structural)]
pub enum ReadMessageError {
    /// Error while reading a frame.
    ReadFrameError(ReadFrameError),
    /// The opcode is a reserved value.
    ReservedOpcode(u8),
    /// The first frame received was a continuation frame.
    MessageStartsWithContinuation,
    /// An opcode that wasn't "Continuation" was received before a final frame was received.
    UnexpectedMessageStart,
    /// The message was a text message, but the data was not UTF-8.
    TextIsNotUtf8,
}

impl ReadMessageError {
    /// The close code which reports this error to the peer.
    pub fn code(&self) -> (r: u16)
        ensures
            r == match self {
                ReadMessageError::ReservedOpcode(_) => 1003u16,
                ReadMessageError::TextIsNotUtf8 => 1007u16,
                _ => 1002u16,
            },
    {
        match self {
            ReadMessageError::ReadFrameError(_)
            | ReadMessageError::MessageStartsWithContinuation
            | ReadMessageError::UnexpectedMessageStart => 1002,
            ReadMessageError::ReservedOpcode(_) => 1003,
            ReadMessageError::TextIsNotUtf8 => 1007,
        }
    }
}

/// The value of two big-endian bytes starting at `i`.
pub open spec fn be_u16_at(s: Seq<u8>, i: int) -> int {
    s[i] * 0x100 + s[i + 1]
}

/// The value of eight big-endian bytes starting at `i`.
pub open spec fn be_u64_at(s: Seq<u8>, i: int) -> int {
    s[i] * 0x100_0000_0000_0000 + s[i + 1] * 0x1_0000_0000_0000 + s[i + 2] * 0x100_0000_0000
        + s[i + 3] * 0x1_0000_0000 + s[i + 4] * 0x100_0000 + s[i + 5] * 0x1_0000 + s[i + 6]
        * 0x100 + s[i + 7]
}

/// `data` with each byte xor-ed with the byte of `mask` at the same position modulo four.
pub open spec fn apply_mask(data: Seq<u8>, mask: Seq<u8>) -> Seq<u8> {
    Seq::new(data.len(), |k: int| data[k] ^ mask[k % 4])
}

/// The outcome of reading a frame from the front of a byte stream.
pub enum FrameDecode {
    /// A frame, its (unmasked) payload, and the number of stream bytes it took.
    Frame(Frame, Seq<u8>, nat),
    /// Reading failed.
    Failed(ReadFrameError),
}

/// Reading one frame from the front of the byte stream `s` into a buffer of `buffer_len` bytes.
pub open spec fn decode_frame(s: Seq<u8>, buffer_len: nat) -> FrameDecode {
    if s.len() < 2 {
        FrameDecode::Failed(ReadFrameError::UnexpectedEof)
    } else {
        let first = s[0];
        let second = s[1];
        let is_final = first >= 0x80;
        let opcode = opcode_of(first % 16);
        let is_masked = second >= 0x80;
        let length_byte = second % 0x80;
        let header = if length_byte == 126 {
            if s.len() < 4 {
                None
            } else {
                Some((be_u16_at(s, 2), 4int))
            }
        } else if length_byte == 127 {
            if s.len() < 10 {
                None
            } else {
                Some((be_u64_at(s, 2), 10int))
            }
        } else {
            Some((length_byte as int, 2int))
        };
        match header {
            None => FrameDecode::Failed(ReadFrameError::UnexpectedEof),
            Some((length, i)) => if length > usize::MAX {
                FrameDecode::Failed(ReadFrameError::MessageIsTooLong(length as u64))
            } else {
                let j = if is_masked {
                    i + 4
                } else {
                    i
                };
                if s.len() < j {
                    FrameDecode::Failed(ReadFrameError::UnexpectedEof)
                } else if length > buffer_len {
                    FrameDecode::Failed(ReadFrameError::OutOfSpace)
                } else if s.len() < j + length {
                    FrameDecode::Failed(ReadFrameError::UnexpectedEof)
                } else {
                    let raw = s.subrange(j, j + length);
                    let payload = if is_masked {
                        apply_mask(raw, s.subrange(i, i + 4))
                    } else {
                        raw
                    };
                    FrameDecode::Frame(
                        Frame { is_final, opcode, length: length as usize },
                        payload,
                        (j + length) as nat,
                    )
                }
            },
        }
    }
}

/// Reads one frame from the front of the byte stream `input`, whose payload must fit in a
/// buffer of `buffer_len` bytes. Returns the frame, its unmasked payload, and the number of
/// stream bytes the frame took.
pub fn read_frame(input: &[u8], buffer_len: usize) -> (r: Result<(Frame, Vec<u8>, usize), ReadFrameError>)
    ensures
        match decode_frame(input@, buffer_len as nat) {
            FrameDecode::Frame(f, payload, n) => r matches Ok((f2, p2, n2)) && f2 == f && p2@
                == payload && n2 == n,
            FrameDecode::Failed(e) => r == Err::<(Frame, Vec<u8>, usize), ReadFrameError>(e),
        },
        r matches Ok((_, _, n)) ==> 2 <= n <= input@.len(),
{
    let s = input;
    if s.len() < 2 {
        return Err(ReadFrameError::UnexpectedEof);
    }
    let first = s[0];
    let second = s[1];
    let is_final = first >= 0x80;
    let opcode = Opcode::from_u8(first % 16);
    let is_masked = second >= 0x80;
    let length_byte = second % 0x80;
    let length: u64;
    let i: usize;
    if length_byte == 126 {
        if s.len() < 4 {
            return Err(ReadFrameError::UnexpectedEof);
        }
        length = s[2] as u64 * 0x100 + s[3] as u64;
        i = 4;
    } else if length_byte == 127 {
        if s.len() < 10 {
            return Err(ReadFrameError::UnexpectedEof);
        }
        length = s[2] as u64 * 0x100_0000_0000_0000 + s[3] as u64 * 0x1_0000_0000_0000 + s[4] as u64
            * 0x100_0000_0000 + s[5] as u64 * 0x1_0000_0000 + s[6] as u64 * 0x100_0000 + s[7] as u64
            * 0x1_0000 + s[8] as u64 * 0x100 + s[9] as u64;
        i = 10;
    } else {
        length = length_byte as u64;
        i = 2;
    }
    if length > usize::MAX as u64 {
        return Err(ReadFrameError::MessageIsTooLong(length));
    }
    let length = length as usize;
    let j = if is_masked {
        i + 4
    } else {
        i
    };
    if s.len() < j {
        return Err(ReadFrameError::UnexpectedEof);
    }
    if length > buffer_len {
        return Err(ReadFrameError::OutOfSpace);
    }
    if s.len() - j < length {
        return Err(ReadFrameError::UnexpectedEof);
    }
    let mut payload: Vec<u8> = Vec::new();
    let mut k: usize = 0;
    while k < length
        invariant
            k <= length,
            j + length <= s.len(),
            i + 4 <= s@.len() || !is_masked,
            is_masked ==> j == i + 4,
            payload@.len() == k,
            forall|t: int|
                0 <= t < k ==> #[trigger] payload@[t] == if is_masked {
                    s@[j + t] ^ s@[i + t % 4]
                } else {
                    s@[j + t]
                },
        decreases length - k,
    {
        let b = s[j + k];
        if is_masked {
            payload.push(b ^ s[i + k % 4]);
        } else {
            payload.push(b);
        }
        k = k + 1;
    }
    proof {
        let raw = s@.subrange(j as int, j + length);
        if is_masked {
            assert(payload@ =~= apply_mask(raw, s@.subrange(i as int, i + 4)));
        } else {
            assert(payload@ =~= raw);
        }
    }
    Ok((Frame { is_final, opcode, length }, payload, j + length))
}

/// The bytes that announce a payload length of `len`.
pub open spec fn encode_length(len: nat) -> Seq<u8> {
    if len <= 125 {
        seq![len as u8]
    } else if len <= 0xFFFF {
        seq![126u8, (len / 0x100) as u8, (len % 0x100) as u8]
    } else {
        seq![
            127u8,
            (len / 0x100_0000_0000_0000 % 0x100) as u8,
            (len / 0x1_0000_0000_0000 % 0x100) as u8,
            (len / 0x100_0000_0000 % 0x100) as u8,
            (len / 0x1_0000_0000 % 0x100) as u8,
            (len / 0x100_0000 % 0x100) as u8,
            (len / 0x1_0000 % 0x100) as u8,
            (len / 0x100 % 0x100) as u8,
            (len % 0x100) as u8,
        ]
    }
}

/// The bytes of an unmasked frame carrying `data`.
pub open spec fn encode_frame(is_final: bool, opcode: u8, data: Seq<u8>) -> Seq<u8> {
    seq![
        (if is_final {
            0x80 + opcode
        } else {
            opcode as int
        }) as u8,
    ] + encode_length(data.len()) + data
}

fn write_length(out: &mut Vec<u8>, length: usize)
    ensures
        final(out)@ == old(out)@ + encode_length(length as nat),
{
    if length <= 125 {
        out.push(length as u8);
    } else if length <= 0xFFFF {
        out.push(126);
        out.push((length / 0x100) as u8);
        out.push((length % 0x100) as u8);
    } else {
        let l = length as u64;
        out.push(127);
        out.push((l / 0x100_0000_0000_0000 % 0x100) as u8);
        out.push((l / 0x1_0000_0000_0000 % 0x100) as u8);
        out.push((l / 0x100_0000_0000 % 0x100) as u8);
        out.push((l / 0x1_0000_0000 % 0x100) as u8);
        out.push((l / 0x100_0000 % 0x100) as u8);
        out.push((l / 0x1_0000 % 0x100) as u8);
        out.push((l / 0x100 % 0x100) as u8);
        out.push((l % 0x100) as u8);
    }
    assert(final(out)@ =~= old(out)@ + encode_length(length as nat));
}

fn append_bytes(out: &mut Vec<u8>, data: &[u8])
    ensures
        final(out)@ == old(out)@ + data@,
{
    let mut k: usize = 0;
    while k < data.len()
        invariant
            k <= data@.len(),
            out@ == old(out)@ + data@.take(k as int),
        decreases data.len() - k,
    {
        out.push(data[k]);
        k = k + 1;
        assert(old(out)@ + data@.take(k as int) =~= out@);
    }
    assert(data@.take(k as int) =~= data@);
}

/// The bytes of an unmasked frame carrying `data`, as the server sends it.
pub fn write_frame(is_final: bool, opcode: u8, data: &[u8]) -> (r: Vec<u8>)
    requires
        opcode < 16,
    ensures
        r@ == encode_frame(is_final, opcode, data@),
{
    let mut out: Vec<u8> = Vec::new();
    out.push(if is_final {
        0x80 + opcode
    } else {
        opcode
    });
    write_length(&mut out, data.len());
    append_bytes(&mut out, data);
    assert(out@ =~= encode_frame(is_final, opcode, data@));
    out
}

/// The frame which sends a text message.
pub fn send_text(data: &str) -> (r: Vec<u8>)
    ensures
        r@ == encode_frame(true, 1, data.spec_bytes()),
{
    write_frame(true, 1, data.as_bytes())
}

/// The frame which sends a binary message.
pub fn send_binary(data: &[u8]) -> (r: Vec<u8>)
    ensures
        r@ == encode_frame(true, 2, data@),
{
    write_frame(true, 2, data)
}

/// The frame which sends a ping message with the given data.
pub fn send_ping(data: &[u8]) -> (r: Vec<u8>)
    ensures
        r@ == encode_frame(true, 9, data@),
{
    write_frame(true, 9, data)
}

/// The frame which sends a pong message with the given data.
pub fn send_pong(data: &[u8]) -> (r: Vec<u8>)
    ensures
        r@ == encode_frame(true, 10, data@),
{
    write_frame(true, 10, data)
}

/// The payload of a close frame with the given reason.
pub open spec fn close_payload(reason: Option<(u16, Seq<u8>)>) -> Seq<u8> {
    match reason {
        None => Seq::empty(),
        Some((code, message)) => seq![(code / 0x100) as u8, (code % 0x100) as u8] + message,
    }
}

/// The frame which closes the connection with the given reason.
pub fn close(reason: Option<(u16, &str)>) -> (r: Vec<u8>)
    ensures
        r@ == encode_frame(
            true,
            8,
            close_payload(
                match reason {
                    None => None,
                    Some((code, message)) => Some((code, message.spec_bytes())),
                },
            ),
        ),
{
    let mut payload: Vec<u8> = Vec::new();
    match reason {
        None => {},
        Some((code, message)) => {
            payload.push((code / 0x100) as u8);
            payload.push((code % 0x100) as u8);
            append_bytes(&mut payload, message.as_bytes());
        },
    }
    proof {
        match reason {
            None => {
                assert(payload@ =~= Seq::<u8>::empty());
            },
            Some((code, message)) => {
                assert(payload@ =~= seq![(code / 0x100) as u8, (code % 0x100) as u8] + message.spec_bytes());
            },
        }
    }
    write_frame(true, 8, payload.as_slice())
}

proof fn lemma_be_u64_of_split(x: u64)
    ensures
        (x / 0x100_0000_0000_0000 % 0x100) * 0x100_0000_0000_0000 + (x / 0x1_0000_0000_0000 % 0x100)
            * 0x1_0000_0000_0000 + (x / 0x100_0000_0000 % 0x100) * 0x100_0000_0000 + (x / 0x1_0000_0000
            % 0x100) * 0x1_0000_0000 + (x / 0x100_0000 % 0x100) * 0x100_0000 + (x / 0x1_0000 % 0x100)
            * 0x1_0000 + (x / 0x100 % 0x100) * 0x100 + x % 0x100 == x,
{
    assert((x / 0x100_0000_0000_0000 % 0x100) * 0x100_0000_0000_0000 + (x / 0x1_0000_0000_0000 % 0x100)
        * 0x1_0000_0000_0000 + (x / 0x100_0000_0000 % 0x100) * 0x100_0000_0000 + (x / 0x1_0000_0000
        % 0x100) * 0x1_0000_0000 + (x / 0x100_0000 % 0x100) * 0x100_0000 + (x / 0x1_0000 % 0x100)
        * 0x1_0000 + (x / 0x100 % 0x100) * 0x100 + x % 0x100 == x) by (bit_vector);
}

/// Reading back a frame that the server wrote gives the same frame and payload, whatever
/// bytes follow it, provided the payload fits in the reader's buffer.
pub proof fn lemma_frame_roundtrip(
    is_final: bool,
    opcode: u8,
    data: Seq<u8>,
    rest: Seq<u8>,
    buffer_len: nat,
)
    requires
        opcode < 16,
        data.len() <= buffer_len,
        data.len() <= usize::MAX,
    ensures
        decode_frame(encode_frame(is_final, opcode, data) + rest, buffer_len) == FrameDecode::Frame(
            Frame { is_final, opcode: opcode_of(opcode), length: data.len() as usize },
            data,
            encode_frame(is_final, opcode, data).len(),
        ),
{
    let e = encode_frame(is_final, opcode, data);
    let s = e + rest;
    let len = data.len();
    let h = encode_length(len);
    assert(s[0] == e[0]);
    assert(s[1] == h[0]);
    if len <= 125 {
        assert(h.len() == 1);
    } else if len <= 0xFFFF {
        assert(s[2] == h[1] && s[3] == h[2]);
        assert(be_u16_at(s, 2) == len);
    } else {
        assert(s[2] == h[1] && s[3] == h[2] && s[4] == h[3] && s[5] == h[4] && s[6] == h[5]
            && s[7] == h[6] && s[8] == h[7] && s[9] == h[8]);
        lemma_be_u64_of_split(len as u64);
        assert(be_u64_at(s, 2) == len);
    }
    let j = 1 + h.len();
    assert(s.subrange(j as int, (j + len) as int) =~= data);
    assert(e.len() == j + len);
}

/// The bytes of a frame carrying `data`, masked with the four-byte key `key` as a client
/// sends it: the header with the mask bit set, the key, then each byte of `data` xor-ed with
/// the key byte at its position modulo four.
pub open spec fn encode_masked_frame(is_final: bool, opcode: u8, key: Seq<u8>, data: Seq<u8>) -> Seq<u8> {
    let length = encode_length(data.len());
    seq![
        (if is_final {
            0x80 + opcode
        } else {
            opcode as int
        }) as u8,
        (length[0] + 0x80) as u8,
    ] + length.drop_first() + key + Seq::new(data.len(), |k: int| data[k] ^ key[k % 4])
}

proof fn lemma_xor_twice(a: u8, b: u8)
    ensures
        (a ^ b) ^ b == a,
{
    assert((a ^ b) ^ b == a) by (bit_vector);
}

/// Reading a frame that a client masked gives back the data it masked, the same frame
/// header, whatever bytes follow it, provided the data fits in the reader's buffer.
pub proof fn lemma_masked_frame_roundtrip(
    is_final: bool,
    opcode: u8,
    key: Seq<u8>,
    data: Seq<u8>,
    rest: Seq<u8>,
    buffer_len: nat,
)
    requires
        opcode < 16,
        key.len() == 4,
        data.len() <= buffer_len,
        data.len() <= usize::MAX,
    ensures
        decode_frame(encode_masked_frame(is_final, opcode, key, data) + rest, buffer_len)
            == FrameDecode::Frame(
            Frame { is_final, opcode: opcode_of(opcode), length: data.len() as usize },
            data,
            encode_masked_frame(is_final, opcode, key, data).len(),
        ),
{
    let e = encode_masked_frame(is_final, opcode, key, data);
    let s = e + rest;
    let len = data.len();
    let h = encode_length(len);
    let masked = Seq::new(data.len(), |k: int| data[k] ^ key[k % 4]);
    assert(s[0] == e[0]);
    assert(s[1] == (h[0] + 0x80) as u8);
    assert(h[0] < 128);
    assert(s[1] >= 0x80 && s[1] % 0x80 == h[0]);
    if len <= 125 {
        assert(h.len() == 1);
    } else if len <= 0xFFFF {
        assert(s[2] == h[1] && s[3] == h[2]);
        assert(be_u16_at(s, 2) == len);
    } else {
        assert(s[2] == h[1] && s[3] == h[2] && s[4] == h[3] && s[5] == h[4] && s[6] == h[5]
            && s[7] == h[6] && s[8] == h[7] && s[9] == h[8]);
        lemma_be_u64_of_split(len as u64);
        assert(be_u64_at(s, 2) == len);
    }
    let i = 1 + h.len();
    let j = i + 4;
    assert(s.subrange(i as int, (i + 4) as int) =~= key);
    assert(s.subrange(j as int, (j + len) as int) =~= masked);
    assert forall|k: int| 0 <= k < len implies #[trigger] apply_mask(masked, key)[k] == data[k] by {
        lemma_xor_twice(data[k], key[k % 4]);
    }
    assert(apply_mask(masked, key) =~= data);
    assert(e.len() == j + len);
}

/// Message Types.
#[derive(Debug, PartialEq, Eq)]
pub enum Message {
    /// A UTF-8 encoded string.
    Text(String),
    /// A blob of (possibly structured) binary data.
    Binary(Vec<u8>),
    /// A request to close the connection.
    Close(Option<(u16, String)>),
    /// A ping message, which should be replied with a "pong" message containing the same data.
    Ping(Vec<u8>),
    /// The response to a "ping" message
    Pong(Vec<u8>),
}

/// The content of a [`Message`].
pub enum MessageModel {
    /// A text message with these characters.
    Text(Seq<char>),
    /// A binary message with these bytes.
    Binary(Seq<u8>),
    /// A close message, with its code and reason if any.
    Close(Option<(u16, Seq<char>)>),
    /// A ping message with these bytes.
    Ping(Seq<u8>),
    /// A pong message with these bytes.
    Pong(Seq<u8>),
}

impl Message {
    /// The content of this message.
    pub open spec fn model(&self) -> MessageModel {
        match self {
            Message::Text(t) => MessageModel::Text(t@),
            Message::Binary(b) => MessageModel::Binary(b@),
            Message::Close(None) => MessageModel::Close(None),
            Message::Close(Some((code, reason))) => MessageModel::Close(Some((*code, reason@))),
            Message::Ping(b) => MessageModel::Ping(b@),
            Message::Pong(b) => MessageModel::Pong(b@),
        }
    }
}

/// The kind of message a frame opcode starts.
#[derive(Clone, Copy, PartialEq, Eq, Structural)]
pub enum MessageOpcode {
    /// A text message.
    Text,
    /// A binary message.
    Binary,
    /// A close message.
    Close,
    /// A ping message.
    Ping,
    /// A pong message.
    Pong,
}

/// The kind of message that a first frame with opcode `op` starts, or why it starts none.
pub open spec fn message_opcode(op: Opcode) -> Result<MessageOpcode, ReadMessageError> {
    match op {
        Opcode::Data(Data::Continue) => Err(ReadMessageError::MessageStartsWithContinuation),
        Opcode::Data(Data::Text) => Ok(MessageOpcode::Text),
        Opcode::Data(Data::Binary) => Ok(MessageOpcode::Binary),
        Opcode::Control(Control::Close) => Ok(MessageOpcode::Close),
        Opcode::Control(Control::Ping) => Ok(MessageOpcode::Ping),
        Opcode::Control(Control::Pong) => Ok(MessageOpcode::Pong),
        Opcode::Data(Data::Reserved(x)) => Err(ReadMessageError::ReservedOpcode(x)),
        Opcode::Control(Control::Reserved(x)) => Err(ReadMessageError::ReservedOpcode(x)),
    }
}

/// Whether a later frame with opcode `op` may continue a message, or why not.
pub open spec fn continuation_check(op: Opcode) -> Result<(), ReadMessageError> {
    match op {
        Opcode::Data(Data::Continue) => Ok(()),
        Opcode::Data(Data::Reserved(x)) => Err(ReadMessageError::ReservedOpcode(x)),
        Opcode::Control(Control::Reserved(x)) => Err(ReadMessageError::ReservedOpcode(x)),
        _ => Err(ReadMessageError::UnexpectedMessageStart),
    }
}

/// The message of kind `kind` whose data, concatenated over its frames, is `data`.
pub open spec fn finish_message(kind: MessageOpcode, data: Seq<u8>) -> Result<MessageModel, ReadMessageError> {
    match kind {
        MessageOpcode::Text => if valid_utf8(data) {
            Ok(MessageModel::Text(decode_utf8(data)))
        } else {
            Err(ReadMessageError::TextIsNotUtf8)
        },
        MessageOpcode::Binary => Ok(MessageModel::Binary(data)),
        MessageOpcode::Close => if data.len() == 0 {
            Ok(MessageModel::Close(None))
        } else if data.len() == 1 {
            Ok(MessageModel::Close(Some((data[0] as u16, Seq::empty()))))
        } else if valid_utf8(data.skip(2)) {
            Ok(MessageModel::Close(Some(((data[0] * 0x100 + data[1]) as u16, decode_utf8(data.skip(2))))))
        } else {
            Err(ReadMessageError::TextIsNotUtf8)
        },
        MessageOpcode::Ping => Ok(MessageModel::Ping(data)),
        MessageOpcode::Pong => Ok(MessageModel::Pong(data)),
    }
}

/// The outcome of reading a message from the front of a byte stream.
pub enum MessageDecode {
    /// A message and the number of stream bytes its frames took.
    Message(MessageModel, nat),
    /// Reading failed.
    Failed(ReadMessageError),
}

/// Reading the continuation frames of a message of kind `kind` from position `pos` of the
/// stream `s`, where `acc` holds the data so far and `capacity` bytes of buffer remain.
pub open spec fn decode_continuation_frames(
    s: Seq<u8>,
    pos: nat,
    kind: MessageOpcode,
    acc: Seq<u8>,
    capacity: nat,
) -> MessageDecode
    decreases s.len() - pos,
{
    if pos > s.len() {
        MessageDecode::Failed(ReadMessageError::ReadFrameError(ReadFrameError::UnexpectedEof))
    } else {
        match decode_frame(s.skip(pos as int), capacity) {
            FrameDecode::Failed(e) => MessageDecode::Failed(ReadMessageError::ReadFrameError(e)),
            FrameDecode::Frame(f, payload, n) => match continuation_check(f.opcode) {
                Err(e) => MessageDecode::Failed(e),
                Ok(()) => if f.is_final {
                    match finish_message(kind, acc + payload) {
                        Ok(m) => MessageDecode::Message(m, pos + n),
                        Err(e) => MessageDecode::Failed(e),
                    }
                } else if n >= 1 && f.length <= capacity {
                    decode_continuation_frames(
                        s,
                        pos + n,
                        kind,
                        acc + payload,
                        (capacity - f.length) as nat,
                    )
                } else {
                    MessageDecode::Failed(ReadMessageError::ReadFrameError(ReadFrameError::UnexpectedEof))
                },
            },
        }
    }
}

/// Reading one message from the front of the byte stream `s` into a buffer of `buffer_len` bytes.
pub open spec fn decode_message(s: Seq<u8>, buffer_len: nat) -> MessageDecode {
    match decode_frame(s, buffer_len) {
        FrameDecode::Failed(e) => MessageDecode::Failed(ReadMessageError::ReadFrameError(e)),
        FrameDecode::Frame(f, payload, n) => match message_opcode(f.opcode) {
            Err(e) => MessageDecode::Failed(e),
            Ok(kind) => if f.is_final {
                match finish_message(kind, payload) {
                    Ok(m) => MessageDecode::Message(m, n),
                    Err(e) => MessageDecode::Failed(e),
                }
            } else {
                decode_continuation_frames(s, n, kind, payload, (buffer_len - f.length) as nat)
            },
        },
    }
}

fn first_frame_kind(op: Opcode) -> (r: Result<MessageOpcode, ReadMessageError>)
    ensures
        r == message_opcode(op),
{
    match op {
        Opcode::Data(Data::Continue) => Err(ReadMessageError::MessageStartsWithContinuation),
        Opcode::Data(Data::Text) => Ok(MessageOpcode::Text),
        Opcode::Data(Data::Binary) => Ok(MessageOpcode::Binary),
        Opcode::Control(Control::Close) => Ok(MessageOpcode::Close),
        Opcode::Control(Control::Ping) => Ok(MessageOpcode::Ping),
        Opcode::Control(Control::Pong) => Ok(MessageOpcode::Pong),
        Opcode::Data(Data::Reserved(x)) => Err(ReadMessageError::ReservedOpcode(x)),
        Opcode::Control(Control::Reserved(x)) => Err(ReadMessageError::ReservedOpcode(x)),
    }
}

fn check_continuation(op: Opcode) -> (r: Result<(), ReadMessageError>)
    ensures
        r == continuation_check(op),
{
    match op {
        Opcode::Data(Data::Continue) => Ok(()),
        Opcode::Data(Data::Reserved(x)) => Err(ReadMessageError::ReservedOpcode(x)),
        Opcode::Control(Control::Reserved(x)) => Err(ReadMessageError::ReservedOpcode(x)),
        _ => Err(ReadMessageError::UnexpectedMessageStart),
    }
}

fn build_message(kind: MessageOpcode, data: Vec<u8>) -> (r: Result<Message, ReadMessageError>)
    ensures
        match finish_message(kind, data@) {
            Ok(m) => r matches Ok(m2) && m2.model() == m,
            Err(e) => r == Err::<Message, ReadMessageError>(e),
        },
{
    match kind {
        MessageOpcode::Text => match utf8_text(data.as_slice()) {
            Ok(t) => Ok(Message::Text(t)),
            Err(_) => Err(ReadMessageError::TextIsNotUtf8),
        },
        MessageOpcode::Binary => Ok(Message::Binary(data)),
        MessageOpcode::Close => {
            if data.len() == 0 {
                Ok(Message::Close(None))
            } else if data.len() == 1 {
                Ok(Message::Close(Some((data[0] as u16, String::new()))))
            } else {
                let code: u16 = data[0] as u16 * 0x100 + data[1] as u16;
                let (_head, tail) = data.as_slice().split_at(2);
                match utf8_text(tail) {
                    Ok(t) => Ok(Message::Close(Some((code, t)))),
                    Err(_) => Err(ReadMessageError::TextIsNotUtf8),
                }
            }
        },
        MessageOpcode::Ping => Ok(Message::Ping(data)),
        MessageOpcode::Pong => Ok(Message::Pong(data)),
    }
}

fn concat_bytes(a: Vec<u8>, b: Vec<u8>) -> (r: Vec<u8>)
    ensures
        r@ == a@ + b@,
{
    let mut out = a;
    append_bytes(&mut out, b.as_slice());
    out
}

/// Reads one message from the front of the byte stream `input`, concatenating the data of its
/// frames into a buffer of `buffer_len` bytes. Returns the message and the number of stream
/// bytes its frames took.
pub fn read_message(input: &[u8], buffer_len: usize) -> (r: Result<(Message, usize), ReadMessageError>)
    ensures
        match decode_message(input@, buffer_len as nat) {
            MessageDecode::Message(m, n) => r matches Ok((m2, n2)) && m2.model() == m && n2 == n,
            MessageDecode::Failed(e) => r == Err::<(Message, usize), ReadMessageError>(e),
        },
{
    let (frame, payload, n) = match read_frame(input, buffer_len) {
        Ok(x) => x,
        Err(e) => {
            return Err(ReadMessageError::ReadFrameError(e));
        },
    };
    let kind = match first_frame_kind(frame.opcode) {
        Ok(k) => k,
        Err(e) => {
            return Err(e);
        },
    };
    if frame.is_final {
        return match build_message(kind, payload) {
            Ok(m) => Ok((m, n)),
            Err(e) => Err(e),
        };
    }
    let mut data = payload;
    let mut pos: usize = n;
    let mut capacity: usize = buffer_len - frame.length;
    loop
        invariant
            pos <= input.len(),
            decode_message(input@, buffer_len as nat) == decode_continuation_frames(
                input@,
                pos as nat,
                kind,
                data@,
                capacity as nat,
            ),
        decreases input@.len() - pos,
    {
        let (_done, rest) = input.split_at(pos);
        assert(rest@ == input@.skip(pos as int));
        let (f, p, m) = match read_frame(rest, capacity) {
            Ok(x) => x,
            Err(e) => {
                return Err(ReadMessageError::ReadFrameError(e));
            },
        };
        match check_continuation(f.opcode) {
            Ok(()) => {},
            Err(e) => {
                return Err(e);
            },
        }
        data = concat_bytes(data, p);
        if f.is_final {
            return match build_message(kind, data) {
                Ok(msg) => Ok((msg, pos + m)),
                Err(e) => Err(e),
            };
        }
        pos = pos + m;
        capacity = capacity - f.length;
    }
}

/// Writes a text message in several frames, as sending a formatted value does when the
/// formatted text arrives in pieces.
pub struct FrameWriter {
    opcode: u8,
    out: Vec<u8>,
}

impl FrameWriter {
    /// The opcode of the next frame.
    pub closed spec fn next_opcode(&self) -> u8 {
        self.opcode
    }

    /// The bytes written so far.
    pub closed spec fn written(&self) -> Seq<u8> {
        self.out@
    }

    /// A writer for a new text message.
    pub fn new() -> (r: Self)
        ensures
            r.next_opcode() == 1,
            r.written() == Seq::<u8>::empty(),
    {
        FrameWriter { opcode: 1, out: Vec::new() }
    }

    /// Send a piece of the message as a non-final frame.
    pub fn write(&mut self, data: &[u8])
        requires
            old(self).next_opcode() < 16,
        ensures
            final(self).next_opcode() == 0,
            final(self).written() == old(self).written() + encode_frame(false, old(self).next_opcode(), data@),
    {
        let frame = write_frame(false, self.opcode, data);
        append_bytes(&mut self.out, frame.as_slice());
        self.opcode = 0;
    }

    /// End the message with an empty final frame.
    pub fn finish(self) -> (r: Vec<u8>)
        requires
            self.next_opcode() < 16,
        ensures
            r@ == self.written() + encode_frame(true, self.next_opcode(), Seq::empty()),
    {
        let mut out = self.out;
        let empty: Vec<u8> = Vec::new();
        let frame = write_frame(true, self.opcode, empty.as_slice());
        append_bytes(&mut out, frame.as_slice());
        out
    }
}

/// The SHA-1 digest of `data`, as `lhash` computes it.
pub uninterp spec fn sha1_digest(data: Seq<u8>) -> Seq<u8>;

/// Calls `lhash::Sha1`, feeding it `first` and then `second`. The contract claims that the
/// result is the SHA-1 digest of the two inputs one after the other, and that it has 20 bytes.
#[verifier::external_body]
fn sha1_of_concatenation(first: &[u8], second: &[u8]) -> (r: [u8; 20])
    ensures
        r@ == sha1_digest(first@ + second@),
{
    lhash::Sha1::new().const_update(first).const_update(second).const_result()
}

/// The character of the base64 alphabet for the six-bit value `v`.
pub open spec fn base64_symbol(v: int) -> u8 {
    if v < 26 {
        (65 + v) as u8
    } else if v < 52 {
        (97 + v - 26) as u8
    } else if v < 62 {
        (48 + v - 52) as u8
    } else if v == 62 {
        43
    } else {
        47
    }
}

/// The standard base64 encoding of `s`, with `=` padding (RFC 4648).
pub open spec fn base64_encode(s: Seq<u8>) -> Seq<u8>
    decreases s.len(),
{
    if s.len() == 0 {
        Seq::empty()
    } else if s.len() == 1 {
        seq![base64_symbol((s[0] / 4) as int), base64_symbol((s[0] % 4) * 16), 61u8, 61u8]
    } else if s.len() == 2 {
        seq![
            base64_symbol((s[0] / 4) as int),
            base64_symbol((s[0] % 4) * 16 + s[1] / 16),
            base64_symbol((s[1] % 16) * 4),
            61u8,
        ]
    } else {
        seq![
            base64_symbol((s[0] / 4) as int),
            base64_symbol((s[0] % 4) * 16 + s[1] / 16),
            base64_symbol((s[1] % 16) * 4 + s[2] / 64),
            base64_symbol((s[2] % 64) as int),
        ] + base64_encode(s.skip(3))
    }
}

/// Calls `data_encoding::BASE64.encode_mut` on a 20-byte digest. The contract claims that the
/// 28 bytes written are the standard padded base64 encoding of the digest.
#[verifier::external_body]
fn base64_of_digest(digest: &[u8; 20]) -> (r: [u8; 28])
    ensures
        r@ == base64_encode(digest@),
{
    let mut buffer = [0u8; 28];
    data_encoding::BASE64.encode_mut(digest, &mut buffer);
    buffer
}

/// The GUID that the web socket handshake appends to the client's key.
pub open spec fn websocket_guid() -> Seq<u8> {
    "258EAFA5-E914-47DA-95CA-C5AB0DC85B11".spec_bytes()
}

/// The value of the `Sec-WebSocket-Accept` header that answers the client key `key`.
pub open spec fn accept_key_spec(key: Seq<u8>) -> Seq<u8> {
    base64_encode(sha1_digest(key + websocket_guid()))
}

/// The value of the `Sec-WebSocket-Accept` header that answers the client key `key`.
pub fn accept_key(key: &[u8]) -> (r: [u8; 28])
    ensures
        r@ == accept_key_spec(key@),
{
    let guid = "258EAFA5-E914-47DA-95CA-C5AB0DC85B11".as_bytes();
    let digest = sha1_of_concatenation(key, guid);
    base64_of_digest(&digest)
}

/// Indicates that the websocket failed to be upgraded.
#[derive(Debug, Clone, Copy, PartialEq, Eq, Structural)]
pub enum WebSocketUpgradeRejection {
    /// Websocket upgrades must use the GET method.
    MethodNotGet,
    /// Websocket upgrades must have a Connection header of "Upgrade".
    InvalidConnectionHeader,
    /// Websocket upgrades must have an Upgrade of "websocket".
    InvalidUpgradeHeader,
    /// Websocket version must be 13.
    InvalidWebSocketVersionHeader,
    /// Websocket upgrade header "sec-websocket-key" is missing.
    WebSocketKeyHeaderMissing,
}

impl WebSocketUpgradeRejection {
    /// The status code this rejection is answered with.
    pub fn status_code(&self) -> (r: StatusCode)
        ensures
            r.0 == 400,
    {
        StatusCode(400)
    }

    /// The human readable description of the rejection.
    pub fn message(&self) -> (r: &'static str)
        ensures
            r@ == match self {
                WebSocketUpgradeRejection::MethodNotGet => "Websocket upgrades must use the `GET` method"@,
                WebSocketUpgradeRejection::InvalidConnectionHeader =>
                    "Websocket upgrades must have a Connection header of `Upgrade`"@,
                WebSocketUpgradeRejection::InvalidUpgradeHeader =>
                    "Websocket upgrades must have an Upgrade of `websocket`"@,
                WebSocketUpgradeRejection::InvalidWebSocketVersionHeader =>
                    "Websocket version must be 13"@,
                WebSocketUpgradeRejection::WebSocketKeyHeaderMissing =>
                    "Websocket upgrades must have a `Sec-WebSocket-Key` header"@,
            },
    {
        match self {
            WebSocketUpgradeRejection::MethodNotGet => "Websocket upgrades must use the `GET` method",
            WebSocketUpgradeRejection::InvalidConnectionHeader => {
                "Websocket upgrades must have a Connection header of `Upgrade`"
            },
            WebSocketUpgradeRejection::InvalidUpgradeHeader => {
                "Websocket upgrades must have an Upgrade of `websocket`"
            },
            WebSocketUpgradeRejection::InvalidWebSocketVersionHeader => "Websocket version must be 13",
            WebSocketUpgradeRejection::WebSocketKeyHeaderMissing => {
                "Websocket upgrades must have a `Sec-WebSocket-Key` header"
            },
        }
    }
}

/// The protocols header value kept by an upgrade: it must be UTF-8 and at most 32 bytes long.
pub open spec fn kept_protocols(value: Option<Seq<u8>>) -> Option<Seq<char>> {
    match value {
        Some(v) => if valid_utf8(v) && v.len() <= 32 {
            Some(decode_utf8(v))
        } else {
            None
        },
        None => None,
    }
}

/// Whether the `Connection` header value `v` lists the `upgrade` option: one of its
/// comma-separated parts, trimmed, is `upgrade` in any ASCII case.
pub open spec fn lists_upgrade(v: Seq<u8>) -> bool {
    exists|i: int|
        0 <= i < split_bytes(v, 0x2C).len() && eq_ignore_ascii_case(
            trim_ascii(#[trigger] split_bytes(v, 0x2C)[i]),
            "upgrade".spec_bytes(),
        )
}

/// Whether the headers hold a `Connection` header that lists the `upgrade` option.
pub open spec fn connection_upgrades(headers: Seq<(Seq<u8>, Seq<u8>)>) -> bool {
    header_lookup(headers, "connection".spec_bytes()) matches Some(v) && lists_upgrade(v)
}

fn connection_lists_upgrade(headers: &Headers) -> (r: bool)
    ensures
        r == connection_upgrades(headers@),
{
    match headers.get("connection") {
        None => false,
        Some(value) => {
            let parts = value.split_commas();
            let mut i: usize = 0;
            while i < parts.len()
                invariant
                    i <= parts@.len(),
                    header_lookup(headers@, "connection".spec_bytes()) == Some(value@),
                    parts@.len() == split_bytes(value@, 0x2C).len(),
                    forall|k: int|
                        0 <= k < parts@.len() ==> #[trigger] parts@[k]@ == trim_ascii(
                            split_bytes(value@, 0x2C)[k],
                        ),
                    forall|k: int|
                        0 <= k < i ==> !eq_ignore_ascii_case(
                            trim_ascii(#[trigger] split_bytes(value@, 0x2C)[k]),
                            "upgrade".spec_bytes(),
                        ),
                decreases parts@.len() - i,
            {
                if parts[i].eq_str("upgrade") {
                    assert(eq_ignore_ascii_case(
                        trim_ascii(split_bytes(value@, 0x2C)[i as int]),
                        "upgrade".spec_bytes(),
                    ));
                    return true;
                }
                i = i + 1;
            }
            false
        },
    }
}

/// The outcome of checking a request for a web socket upgrade: the accept key and the
/// requested protocols, or the reason the upgrade is rejected.
pub open spec fn upgrade_check(parts: RequestParts) -> Result<(Seq<u8>, Option<Seq<char>>), WebSocketUpgradeRejection> {
    let headers = parts.headers@;
    if !eq_ignore_ascii_case(encode_utf8(parts.method@), "get".spec_bytes()) {
        Err(WebSocketUpgradeRejection::MethodNotGet)
    } else if !connection_upgrades(headers) {
        Err(WebSocketUpgradeRejection::InvalidConnectionHeader)
    } else {
        match header_lookup(headers, "upgrade".spec_bytes()) {
            None => Err(WebSocketUpgradeRejection::InvalidUpgradeHeader),
            Some(upgrade) => if !eq_ignore_ascii_case(upgrade, "websocket".spec_bytes()) {
                Err(WebSocketUpgradeRejection::InvalidUpgradeHeader)
            } else {
                match header_lookup(headers, "sec-websocket-version".spec_bytes()) {
                    Some(version) if eq_ignore_ascii_case(version, "13".spec_bytes()) => {
                        match header_lookup(headers, "sec-websocket-key".spec_bytes()) {
                            None => Err(WebSocketUpgradeRejection::WebSocketKeyHeaderMissing),
                            Some(key) => Ok(
                                (
                                    accept_key_spec(key),
                                    kept_protocols(header_lookup(headers, "sec-websocket-protocol".spec_bytes())),
                                ),
                            ),
                        }
                    },
                    _ => Err(WebSocketUpgradeRejection::InvalidWebSocketVersionHeader),
                }
            },
        }
    }
}

/// A HTTP upgrade request.
pub struct WebSocketUpgrade {
    key: [u8; 28],
    protocols: Option<String>,
    upgrade_token: UpgradeToken,
}

impl WebSocketUpgrade {
    /// The accept key that answers the client.
    pub closed spec fn accept(&self) -> Seq<u8> {
        self.key@
    }

    /// The protocols header value requested by the client, if it was kept.
    pub closed spec fn requested_protocols(&self) -> Option<Seq<char>> {
        match self.protocols {
            Some(p) => Some(p@),
            None => None,
        }
    }

    /// Check that the request asks for a web socket upgrade, and compute the accept key.
    pub fn from_request(request_parts: &RequestParts) -> (r: Result<WebSocketUpgrade, WebSocketUpgradeRejection>)
        ensures
            match upgrade_check(*request_parts) {
                Ok((key, protocols)) => r matches Ok(u) && u.accept() == key && u.requested_protocols() == protocols,
                Err(e) => r == Err::<WebSocketUpgrade, WebSocketUpgradeRejection>(e),
            },
    {
        if !bytes_eq_ignore_ascii_case(request_parts.method.as_str().as_bytes(), "get".as_bytes()) {
            return Err(WebSocketUpgradeRejection::MethodNotGet);
        }
        if !connection_lists_upgrade(&request_parts.headers) {
            return Err(WebSocketUpgradeRejection::InvalidConnectionHeader);
        }
        let upgrade_token = match UpgradeToken::from_request_parts(request_parts) {
            Ok(t) => t,
            Err(_) => {
                return Err(WebSocketUpgradeRejection::InvalidUpgradeHeader);
            },
        };
        match request_parts.headers.get("upgrade") {
            Some(upgrade) => {
                if !upgrade.eq_str("websocket") {
                    return Err(WebSocketUpgradeRejection::InvalidUpgradeHeader);
                }
            },
            None => {
                return Err(WebSocketUpgradeRejection::InvalidUpgradeHeader);
            },
        }
        match request_parts.headers.get("sec-websocket-version") {
            Some(version) => {
                if !version.eq_str("13") {
                    return Err(WebSocketUpgradeRejection::InvalidWebSocketVersionHeader);
                }
            },
            None => {
                return Err(WebSocketUpgradeRejection::InvalidWebSocketVersionHeader);
            },
        }
        let key = match request_parts.headers.get("sec-websocket-key") {
            Some(k) => accept_key(k.as_raw()),
            None => {
                return Err(WebSocketUpgradeRejection::WebSocketKeyHeaderMissing);
            },
        };
        let protocols = match request_parts.headers.get("sec-websocket-protocol") {
            Some(p) => {
                let raw = p.as_raw();
                match utf8_text(raw) {
                    Ok(t) => if raw.len() <= 32 {
                        Some(t)
                    } else {
                        None
                    },
                    Err(_) => None,
                }
            },
            None => None,
        };
        Ok(WebSocketUpgrade { key, protocols, upgrade_token })
    }

    /// Accept the upgrade, to be handled by `callback` once the response is sent. The returned
    /// [`UpgradedWebSocket`] describes the response and carries the upgrade token.
    pub fn on_upgrade<C>(self, callback: C) -> (r: UpgradedWebSocket<C>)
        ensures
            r.accept() == self.accept(),
            r.protocol() is None,
            r.callback() == callback,
    {
        UpgradedWebSocket {
            sec_websocket_accept: self.key,
            sec_websocket_protocol: None,
            upgrade_token: self.upgrade_token,
            callback,
        }
    }
}

/// The HTTP response sent to the client, notifying it that the connection can been upgraded to a web socket connection.
pub struct UpgradedWebSocket<C> {
    sec_websocket_accept: [u8; 28],
    sec_websocket_protocol: Option<String>,
    upgrade_token: UpgradeToken,
    callback: C,
}

/// The bytes of `s` read as characters, one character per byte.
pub open spec fn latin1_chars(s: Seq<u8>) -> Seq<char> {
    Seq::new(s.len(), |i: int| s[i] as char)
}

fn bytes_as_chars(s: &[u8]) -> (r: String)
    ensures
        r@ == latin1_chars(s@),
{
    let mut out = String::new();
    let mut i: usize = 0;
    while i < s.len()
        invariant
            i <= s@.len(),
            out@ == latin1_chars(s@.take(i as int)),
        decreases s.len() - i,
    {
        push_char(&mut out, s[i] as char);
        i = i + 1;
        assert(out@ =~= latin1_chars(s@.take(i as int)));
    }
    assert(s@.take(i as int) =~= s@);
    out
}

fn string_of(s: &str) -> (r: String)
    ensures
        r@ == s@,
{
    s.to_owned()
}

impl<C> UpgradedWebSocket<C> {
    /// The callback which handles the connection once it is upgraded.
    pub closed spec fn callback(&self) -> C {
        self.callback
    }

    /// The accept key sent to the client.
    pub closed spec fn accept(&self) -> Seq<u8> {
        self.sec_websocket_accept@
    }

    /// The protocol named in the response, if any.
    pub closed spec fn protocol(&self) -> Option<Seq<char>> {
        match self.sec_websocket_protocol {
            Some(p) => Some(p@),
            None => None,
        }
    }

    /// Specify the web socket protocol used.
    pub fn with_protocol(self, protocol: &str) -> (r: UpgradedWebSocket<C>)
        ensures
            r.accept() == self.accept(),
            r.protocol() == Some(protocol@),
            r.callback() == self.callback(),
    {
        UpgradedWebSocket {
            sec_websocket_accept: self.sec_websocket_accept,
            sec_websocket_protocol: Some(string_of(protocol)),
            upgrade_token: self.upgrade_token,
            callback: self.callback,
        }
    }

    /// Once the response is sent: the upgrade token, which hands over the connection, and the
    /// callback which handles it.
    pub fn into_upgrade(self) -> (r: (UpgradeToken, C))
        ensures
            r.1 == self.callback(),
    {
        (self.upgrade_token, self.callback)
    }

    /// The status code of the response: 101 Switching Protocols.
    pub fn status_code(&self) -> (r: StatusCode)
        ensures
            r.0 == 101,
    {
        StatusCode(101)
    }

    /// The headers of the response, in the order they are sent.
    pub fn headers(&self) -> (r: Vec<(String, String)>)
        ensures
            r@.len() == if self.protocol() is Some { 4int } else { 3int },
            r@[0].0@ == "Upgrade"@ && r@[0].1@ == "websocket"@,
            r@[1].0@ == "Connection"@ && r@[1].1@ == "upgrade"@,
            r@[2].0@ == "Sec-WebSocket-Accept"@ && r@[2].1@ == latin1_chars(self.accept()),
            self.protocol() matches Some(p) ==> r@[3].0@ == "Sec-WebSocket-Protocol"@ && r@[3].1@ == p,
    {
        let mut out: Vec<(String, String)> = Vec::new();
        out.push((string_of("Upgrade"), string_of("websocket")));
        out.push((string_of("Connection"), string_of("upgrade")));
        out.push((string_of("Sec-WebSocket-Accept"), bytes_as_chars(&self.sec_websocket_accept)));
        match &self.sec_websocket_protocol {
            Some(p) => {
                out.push((string_of("Sec-WebSocket-Protocol"), p.clone()));
            },
            None => {},
        }
        out
    }
}

/// A text message the server sends reads back as the same text, whatever bytes follow it,
/// provided it fits in the reader's buffer.
pub proof fn lemma_text_message_roundtrip(text: Seq<char>, rest: Seq<u8>, buffer_len: nat)
    requires
        encode_utf8(text).len() <= buffer_len,
        encode_utf8(text).len() <= usize::MAX,
    ensures
        decode_message(encode_frame(true, 1, encode_utf8(text)) + rest, buffer_len)
            == MessageDecode::Message(
            MessageModel::Text(text),
            encode_frame(true, 1, encode_utf8(text)).len(),
        ),
{
    lemma_frame_roundtrip(true, 1, encode_utf8(text), rest, buffer_len);
    vstd::utf8::encode_utf8_valid_utf8(text);
    vstd::utf8::encode_utf8_decode_utf8(text);
}

/// A binary, ping or pong message the server sends reads back with the same bytes, whatever
/// bytes follow it, provided they fit in the reader's buffer.
pub proof fn lemma_data_message_roundtrip(opcode: u8, data: Seq<u8>, rest: Seq<u8>, buffer_len: nat)
    requires
        opcode == 2 || opcode == 9 || opcode == 10,
        data.len() <= buffer_len,
        data.len() <= usize::MAX,
    ensures
        decode_message(encode_frame(true, opcode, data) + rest, buffer_len)
            == MessageDecode::Message(
            if opcode == 2 {
                MessageModel::Binary(data)
            } else if opcode == 9 {
                MessageModel::Ping(data)
            } else {
                MessageModel::Pong(data)
            },
            encode_frame(true, opcode, data).len(),
        ),
{
    lemma_frame_roundtrip(true, opcode, data, rest, buffer_len);
}

/// A close message the server sends reads back with the same code and reason, whatever bytes
/// follow it, provided it fits in the reader's buffer.
pub proof fn lemma_close_message_roundtrip(
    code: u16,
    reason: Seq<char>,
    rest: Seq<u8>,
    buffer_len: nat,
)
    requires
        2 + encode_utf8(reason).len() <= buffer_len,
        2 + encode_utf8(reason).len() <= usize::MAX,
    ensures
        decode_message(
            encode_frame(true, 8, close_payload(Some((code, encode_utf8(reason))))) + rest,
            buffer_len,
        ) == MessageDecode::Message(
            MessageModel::Close(Some((code, reason))),
            encode_frame(true, 8, close_payload(Some((code, encode_utf8(reason))))).len(),
        ),
{
    let payload = close_payload(Some((code, encode_utf8(reason))));
    lemma_frame_roundtrip(true, 8, payload, rest, buffer_len);
    assert(payload.skip(2) =~= encode_utf8(reason));
    vstd::utf8::encode_utf8_valid_utf8(reason);
    vstd::utf8::encode_utf8_decode_utf8(reason);
    assert(((code / 0x100) as u8) * 0x100 + ((code % 0x100) as u8) == code);
}

/// The chunks, joined.
pub open spec fn concat_chunks(chunks: Seq<Seq<u8>>) -> Seq<u8>
    decreases chunks.len(),
{
    if chunks.len() == 0 {
        Seq::empty()
    } else {
        chunks[0] + concat_chunks(chunks.drop_first())
    }
}

/// Continuation frames carrying `chunks`, then an empty final continuation frame.
pub open spec fn continuation_frames(chunks: Seq<Seq<u8>>) -> Seq<u8>
    decreases chunks.len(),
{
    if chunks.len() == 0 {
        encode_frame(true, 0, Seq::empty())
    } else {
        encode_frame(false, 0, chunks[0]) + continuation_frames(chunks.drop_first())
    }
}

/// The frames of a text message written in pieces by [FrameWriter]: a first frame with the
/// first chunk, continuation frames with the others, and an empty final frame.
pub open spec fn fragmented_text(chunks: Seq<Seq<u8>>) -> Seq<u8> {
    if chunks.len() == 0 {
        encode_frame(true, 1, Seq::empty())
    } else {
        encode_frame(false, 1, chunks[0]) + continuation_frames(chunks.drop_first())
    }
}

/// One continuation frame followed by more: reading it moves on to what follows it.
proof fn lemma_continuation_step(
    s: Seq<u8>,
    pos: nat,
    c: Seq<u8>,
    tail: Seq<u8>,
    kind: MessageOpcode,
    acc: Seq<u8>,
    capacity: nat,
)
    requires
        pos <= s.len(),
        s.skip(pos as int) == encode_frame(false, 0, c) + tail,
        c.len() <= capacity,
        capacity <= usize::MAX,
    ensures
        decode_continuation_frames(s, pos, kind, acc, capacity) == decode_continuation_frames(
            s,
            pos + encode_frame(false, 0, c).len(),
            kind,
            acc + c,
            (capacity - c.len()) as nat,
        ),
{
    lemma_frame_roundtrip(false, 0, c, tail, capacity);
    assert(continuation_check(opcode_of(0)) == Ok::<(), ReadMessageError>(()));
}

/// The final, empty continuation frame: reading it ends the message.
proof fn lemma_continuation_end(
    s: Seq<u8>,
    pos: nat,
    tail: Seq<u8>,
    kind: MessageOpcode,
    acc: Seq<u8>,
    capacity: nat,
)
    requires
        pos <= s.len(),
        s.skip(pos as int) == encode_frame(true, 0, Seq::empty()) + tail,
    ensures
        decode_continuation_frames(s, pos, kind, acc, capacity) == match finish_message(kind, acc) {
            Ok(m) => MessageDecode::Message(m, pos + encode_frame(true, 0, Seq::empty()).len()),
            Err(e) => MessageDecode::Failed(e),
        },
{
    lemma_frame_roundtrip(true, 0, Seq::empty(), tail, capacity);
    assert(continuation_check(opcode_of(0)) == Ok::<(), ReadMessageError>(()));
    assert(acc + Seq::<u8>::empty() =~= acc);
}

proof fn lemma_continuation_frames_read(
    prefix: Seq<u8>,
    chunks: Seq<Seq<u8>>,
    rest: Seq<u8>,
    kind: MessageOpcode,
    acc: Seq<u8>,
    capacity: nat,
)
    requires
        concat_chunks(chunks).len() <= capacity,
        capacity <= usize::MAX,
    ensures
        decode_continuation_frames(
            prefix + continuation_frames(chunks) + rest,
            prefix.len(),
            kind,
            acc,
            capacity,
        ) == match finish_message(kind, acc + concat_chunks(chunks)) {
            Ok(m) => MessageDecode::Message(m, prefix.len() + continuation_frames(chunks).len()),
            Err(e) => MessageDecode::Failed(e),
        },
    decreases chunks.len(),
{
    let s = prefix + continuation_frames(chunks) + rest;
    assert(s.skip(prefix.len() as int) =~= continuation_frames(chunks) + rest);
    if chunks.len() == 0 {
        assert(concat_chunks(chunks) =~= Seq::<u8>::empty());
        assert(acc + concat_chunks(chunks) =~= acc);
        lemma_continuation_end(s, prefix.len(), rest, kind, acc, capacity);
    } else {
        let c = chunks[0];
        let tail = chunks.drop_first();
        let frame = encode_frame(false, 0, c);
        assert(concat_chunks(chunks) == c + concat_chunks(tail));
        assert(continuation_frames(chunks) == frame + continuation_frames(tail));
        assert(s.skip(prefix.len() as int) =~= frame + (continuation_frames(tail) + rest));
        lemma_continuation_step(
            s,
            prefix.len(),
            c,
            continuation_frames(tail) + rest,
            kind,
            acc,
            capacity,
        );
        let next_prefix = prefix + frame;
        assert(s =~= next_prefix + continuation_frames(tail) + rest);
        lemma_continuation_frames_read(
            next_prefix,
            tail,
            rest,
            kind,
            acc + c,
            (capacity - c.len()) as nat,
        );
        assert(acc + c + concat_chunks(tail) =~= acc + concat_chunks(chunks));
    }
}

/// A text message written in pieces reads back as the text of all the pieces joined, whatever
/// bytes follow it, provided the joined pieces are UTF-8 and fit in the reader's buffer.
pub proof fn lemma_fragmented_text_roundtrip(chunks: Seq<Seq<u8>>, rest: Seq<u8>, buffer_len: nat)
    requires
        valid_utf8(concat_chunks(chunks)),
        concat_chunks(chunks).len() <= buffer_len,
        buffer_len <= usize::MAX,
    ensures
        decode_message(fragmented_text(chunks) + rest, buffer_len) == MessageDecode::Message(
            MessageModel::Text(decode_utf8(concat_chunks(chunks))),
            fragmented_text(chunks).len(),
        ),
{
    if chunks.len() == 0 {
        lemma_frame_roundtrip(true, 1, Seq::empty(), rest, buffer_len);
        assert(concat_chunks(chunks) =~= Seq::<u8>::empty());
    } else {
        let c = chunks[0];
        let tail = chunks.drop_first();
        let first = encode_frame(false, 1, c);
        assert(concat_chunks(chunks) == c + concat_chunks(tail));
        assert(fragmented_text(chunks) + rest =~= first + (continuation_frames(tail) + rest));
        lemma_frame_roundtrip(false, 1, c, continuation_frames(tail) + rest, buffer_len);
        assert(fragmented_text(chunks) + rest =~= first + continuation_frames(tail) + rest);
        lemma_continuation_frames_read(
            first,
            tail,
            rest,
            MessageOpcode::Text,
            c,
            (buffer_len - c.len()) as nat,
        );
    }
}

/// An error while reading from a web socket: of the connection, or of the data received.
pub enum InternalError<IoError, Error> {
    /// Reading from the connection failed.
    Io(IoError),
    /// The data received was not valid.
    Other(Error),
}

/// Split the outcome of waiting for a message or a shutdown signal into the connection's
/// error, and otherwise either the message (or its error) or the signal.
pub fn into_nested_result<T, S, IoError, Error>(
    r: Result<Either<T, S>, InternalError<IoError, Error>>,
) -> (out: Result<Either<Result<T, Error>, S>, IoError>)
    ensures
        out == match r {
            Ok(Either::First(value)) => Ok(Either::First(Ok(value))),
            Ok(Either::Second(signal)) => Ok(Either::Second(signal)),
            Err(InternalError::Io(error)) => Err(error),
            Err(InternalError::Other(error)) => Ok(Either::First(Err(error))),
        },
{
    match r {
        Ok(Either::First(value)) => Ok(Either::First(Ok(value))),
        Ok(Either::Second(signal)) => Ok(Either::Second(signal)),
        Err(InternalError::Io(error)) => Err(error),
        Err(InternalError::Other(error)) => Ok(Either::First(Err(error))),
    }
}

} // verus!
