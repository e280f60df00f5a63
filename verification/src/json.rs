//! Writing JSON text: escaped strings and the punctuation of arrays, objects and maps.
//!
//! Map types can be written as JSON objects, e.g. `{"a":1,"b":2}`, or as JSON arrays of pairs,
//! e.g. `[["a",1],["b",2]]`. Objects are the default; the choice is passed down nested values
//! unless a value chooses again.
use vstd::prelude::*;

use crate::response::{header_views, ok_content, Response};
use crate::text::{chars_of, decimal_digits, push_char, text_equals};

verus! {

/// A JSON encoded value.
pub struct Json<T>(pub T);

/// Configure the serializer to serialize map types as JSON objects.
pub struct SerializeMapAsObject<T>(pub T);

/// Configure the serializer to serialize map types as JSON arrays of pairs.
pub struct SerializeMapAsArrayOfPairs<T>(pub T);

impl<T> Json<T> {
    /// Convert the JSON payload into a "200 OK" response with content type
    /// `application/json`, where `content_length` is the length of the serialized payload.
    pub fn into_response(self, content_length: usize) -> (r: Response<T>)
        ensures
            r.status_code.0 == 200,
            header_views(r.headers@) == seq![
                ("Content-Type"@, "application/json"@),
                ("Content-Length"@, decimal_digits(content_length as nat)),
            ],
            r.body == self.0,
    {
        ok_content("application/json", content_length, self.0)
    }
}

impl<T> Json<T> {
    /// Wrap the value so that its maps are serialized as JSON objects.
    pub fn serialize_map_as_object(self) -> (r: Json<SerializeMapAsObject<T>>)
        ensures
            r.0.0 == self.0,
    {
        Json(SerializeMapAsObject(self.0))
    }

    /// Wrap the value so that its maps are serialized as JSON arrays of pairs.
    pub fn serialize_map_as_array_of_pairs(self) -> (r: Json<SerializeMapAsArrayOfPairs<T>>)
        ensures
            r.0.0 == self.0,
    {
        Json(SerializeMapAsArrayOfPairs(self.0))
    }
}

/// The name of the newtype which makes maps inside it serialize as JSON objects.
pub const SERIALIZE_MAP_AS_OBJECT: &'static str = "___SERIALIZE_MAP_AS_OBJECT___";

/// The name of the newtype which makes maps inside it serialize as JSON arrays of pairs.
pub const SERIALIZE_MAP_AS_ARRAY_OF_PAIRS: &'static str = "___SERIALIZE_MAP_AS_ARRAY_OF_PAIRS___";

/// How map types are written.
#[derive(Debug, Clone, Copy, PartialEq, Eq, Structural)]
pub enum SerializeMapAs {
    /// As a JSON object.
    Object,
    /// As a JSON array of key-value pairs.
    ArrayOfPairs,
}

impl SerializeMapAs {
    /// Maps are written as JSON objects unless configured otherwise.
    pub fn default_choice() -> (r: Self)
        ensures
            r == SerializeMapAs::Object,
    {
        SerializeMapAs::Object
    }
}

/// How maps inside a newtype struct named `name` are written, when they were written as
/// `current` outside it.
pub fn map_as_for_newtype(name: &str, current: SerializeMapAs) -> (r: SerializeMapAs)
    ensures
        r == if name@ == SERIALIZE_MAP_AS_OBJECT@ {
            SerializeMapAs::Object
        } else if name@ == SERIALIZE_MAP_AS_ARRAY_OF_PAIRS@ {
            SerializeMapAs::ArrayOfPairs
        } else {
            current
        },
{
    if text_equals(name, SERIALIZE_MAP_AS_OBJECT) {
        SerializeMapAs::Object
    } else if text_equals(name, SERIALIZE_MAP_AS_ARRAY_OF_PAIRS) {
        SerializeMapAs::ArrayOfPairs
    } else {
        current
    }
}

/// The lower-case hexadecimal digit of `n`, which is below 16.
pub open spec fn hex_digit_lower(n: nat) -> char {
    if n < 10 {
        (n + 48) as char
    } else {
        (n + 87) as char
    }
}

/// How a character is written inside a JSON string.
pub open spec fn escaped_char(c: char) -> Seq<char> {
    if c == '\x08' {
        seq!['\\', 'b']
    } else if c == '\t' {
        seq!['\\', 't']
    } else if c == '\n' {
        seq!['\\', 'n']
    } else if c == '\x0C' {
        seq!['\\', 'f']
    } else if c == '\r' {
        seq!['\\', 'r']
    } else if c == '"' {
        seq!['\\', '"']
    } else if c == '/' {
        seq!['\\', '/']
    } else if c == '\\' {
        seq!['\\', '\\']
    } else if (c as u32) < 0x20 {
        seq![
            '\\',
            'u',
            '0',
            '0',
            hex_digit_lower((c as u32 / 16) as nat),
            hex_digit_lower((c as u32 % 16) as nat),
        ]
    } else {
        seq![c]
    }
}

/// How the characters of `s` are written inside a JSON string.
pub open spec fn escaped_chars(s: Seq<char>) -> Seq<char>
    decreases s.len(),
{
    if s.len() == 0 {
        Seq::empty()
    } else {
        escaped_chars(s.drop_last()) + escaped_char(s.last())
    }
}

/// The JSON string holding the text `s`.
pub open spec fn json_string(s: Seq<char>) -> Seq<char> {
    seq!['"'] + escaped_chars(s) + seq!['"']
}

fn hex_digit_char(n: u32) -> (r: char)
    requires
        n < 16,
    ensures
        r == hex_digit_lower(n as nat),
{
    if n < 10 {
        ((n + 48) as u8) as char
    } else {
        ((n + 87) as u8) as char
    }
}

/// Append how `c` is written inside a JSON string.
pub fn push_escaped_char(out: &mut String, c: char)
    ensures
        final(out)@ == old(out)@ + escaped_char(c),
{
    let code = c as u32;
    if c == '\x08' {
        push_char(out, '\\');
        push_char(out, 'b');
    } else if c == '\t' {
        push_char(out, '\\');
        push_char(out, 't');
    } else if c == '\n' {
        push_char(out, '\\');
        push_char(out, 'n');
    } else if c == '\x0C' {
        push_char(out, '\\');
        push_char(out, 'f');
    } else if c == '\r' {
        push_char(out, '\\');
        push_char(out, 'r');
    } else if c == '"' {
        push_char(out, '\\');
        push_char(out, '"');
    } else if c == '/' {
        push_char(out, '\\');
        push_char(out, '/');
    } else if c == '\\' {
        push_char(out, '\\');
        push_char(out, '\\');
    } else if code < 0x20 {
        push_char(out, '\\');
        push_char(out, 'u');
        push_char(out, '0');
        push_char(out, '0');
        push_char(out, hex_digit_char(code / 16));
        push_char(out, hex_digit_char(code % 16));
    } else {
        push_char(out, c);
    }
    assert(final(out)@ =~= old(out)@ + escaped_char(c));
}

/// Append how the characters of `s` are written inside a JSON string.
pub fn push_escaped(out: &mut String, s: &str)
    ensures
        final(out)@ == old(out)@ + escaped_chars(s@),
{
    let chars = chars_of(s);
    let ghost start = out@;
    let mut i: usize = 0;
    while i < chars.len()
        invariant
            chars@ == s@,
            i <= chars@.len(),
            out@ == start + escaped_chars(chars@.take(i as int)),
        decreases chars.len() - i,
    {
        let ghost before = out@;
        push_escaped_char(out, chars[i]);
        assert(chars@.take(i + 1).drop_last() =~= chars@.take(i as int));
        assert(out@ =~= start + escaped_chars(chars@.take(i + 1)));
        i = i + 1;
    }
    assert(chars@.take(i as int) =~= s@);
}

/// The JSON string holding the text `s`.
pub fn escaped_string(s: &str) -> (r: String)
    ensures
        r@ == json_string(s@),
{
    let mut out = String::new();
    push_char(&mut out, '"');
    push_escaped(&mut out, s);
    push_char(&mut out, '"');
    assert(out@ =~= json_string(s@));
    out
}

/// The opening of an enum variant which holds a value: `{"variant":`.
pub fn variant_opening(variant: &str) -> (r: String)
    ensures
        r@ == seq!['{'] + json_string(variant@) + seq![':'],
{
    let mut out = String::new();
    push_char(&mut out, '{');
    push_char(&mut out, '"');
    push_escaped(&mut out, variant);
    push_char(&mut out, '"');
    push_char(&mut out, ':');
    assert(out@ =~= seq!['{'] + json_string(variant@) + seq![':']);
    out
}

/// A JSON string holds no control character: every character of it is at least a space.
pub proof fn lemma_json_string_has_no_control_characters(s: Seq<char>)
    ensures
        forall|i: int| 0 <= i < json_string(s).len() ==> (#[trigger] json_string(s)[i]) as u32 >= 0x20,
{
    lemma_escaped_chars_printable(s);
    let t = json_string(s);
    assert forall|i: int| 0 <= i < t.len() implies (#[trigger] t[i]) as u32 >= 0x20 by {
        if 0 < i < t.len() - 1 {
            assert(t[i] == escaped_chars(s)[i - 1]);
        }
    }
}

/// The value of the JSON hexadecimal digit `c` (either case), if it is one.
pub open spec fn json_hex_value(c: char) -> Option<nat> {
    let u = c as u32;
    if 48 <= u <= 57 {
        Some((u - 48) as nat)
    } else if 97 <= u <= 102 {
        Some((u - 87) as nat)
    } else if 65 <= u <= 70 {
        Some((u - 55) as nat)
    } else {
        None
    }
}

/// The character that the two-character escape `\e` stands for in a JSON string, if any.
pub open spec fn short_escape(e: char) -> Option<char> {
    if e == '"' {
        Some('"')
    } else if e == '\\' {
        Some('\\')
    } else if e == '/' {
        Some('/')
    } else if e == 'b' {
        Some('\x08')
    } else if e == 'f' {
        Some('\x0C')
    } else if e == 'n' {
        Some('\n')
    } else if e == 'r' {
        Some('\r')
    } else if e == 't' {
        Some('\t')
    } else {
        None
    }
}

/// Reading the characters between the quotes of a JSON string: the text they stand for, or
/// none when they are not well formed (a raw quote or control character, or a bad escape).
/// Escapes of the form `\uXXXX` stand for characters of the basic multilingual plane.
pub open spec fn json_unescape(t: Seq<char>) -> Option<Seq<char>>
    decreases t.len(),
{
    if t.len() == 0 {
        Some(Seq::empty())
    } else if t[0] == '\\' {
        if t.len() < 2 {
            None
        } else {
            match short_escape(t[1]) {
                Some(c) => match json_unescape(t.skip(2)) {
                    Some(r) => Some(seq![c] + r),
                    None => None,
                },
                None => if t[1] == 'u' && t.len() >= 6 && json_hex_value(t[2]) is Some
                    && json_hex_value(t[3]) is Some && json_hex_value(t[4]) is Some
                    && json_hex_value(t[5]) is Some {
                    let v = json_hex_value(t[2])->0 * 4096 + json_hex_value(t[3])->0 * 256
                        + json_hex_value(t[4])->0 * 16 + json_hex_value(t[5])->0;
                    if 0xD800 <= v <= 0xDFFF {
                        None
                    } else {
                        match json_unescape(t.skip(6)) {
                            Some(r) => Some(seq![v as char] + r),
                            None => None,
                        }
                    }
                } else {
                    None
                },
            }
        }
    } else if t[0] == '"' || (t[0] as u32) < 0x20 {
        None
    } else {
        match json_unescape(t.skip(1)) {
            Some(r) => Some(seq![t[0]] + r),
            None => None,
        }
    }
}

/// The text a JSON string literal `j` holds, or none when `j` is not one.
pub open spec fn json_string_value(j: Seq<char>) -> Option<Seq<char>> {
    if j.len() >= 2 && j[0] == '"' && j.last() == '"' {
        json_unescape(j.subrange(1, j.len() - 1))
    } else {
        None
    }
}

proof fn lemma_escaped_chars_front(s: Seq<char>)
    requires
        s.len() > 0,
    ensures
        escaped_chars(s) == escaped_char(s[0]) + escaped_chars(s.drop_first()),
    decreases s.len(),
{
    if s.len() == 1 {
        assert(s.drop_first() =~= Seq::<char>::empty());
        assert(s.drop_last() =~= Seq::<char>::empty());
        assert(escaped_chars(Seq::<char>::empty()) =~= Seq::<char>::empty());
        assert(Seq::<char>::empty() + escaped_char(s[0]) =~= escaped_char(s[0]));
        assert(escaped_char(s[0]) + Seq::<char>::empty() =~= escaped_char(s[0]));
    } else {
        lemma_escaped_chars_front(s.drop_last());
        assert(s.drop_last().drop_first() =~= s.drop_first().drop_last());
        assert(s.drop_first().last() == s.last());
        assert(s.drop_last()[0] == s[0]);
        assert(escaped_chars(s) =~= escaped_char(s[0]) + escaped_chars(s.drop_first()));
    }
}

proof fn lemma_hex_digit_read_back(n: nat)
    requires
        n < 16,
    ensures
        json_hex_value(hex_digit_lower(n)) == Some(n),
{
}

proof fn lemma_unescape_one(c: char, t: Seq<char>)
    ensures
        json_unescape(escaped_char(c) + t) == match json_unescape(t) {
            Some(r) => Some(seq![c] + r),
            None => None::<Seq<char>>,
        },
{
    let e = escaped_char(c);
    let u = e + t;
    if e.len() == 2 {
        assert(u.skip(2) =~= t);
    } else if e.len() == 6 {
        let x = (c as u32 / 16) as nat;
        let y = (c as u32 % 16) as nat;
        lemma_hex_digit_read_back(0);
        lemma_hex_digit_read_back(x);
        lemma_hex_digit_read_back(y);
        assert(u[2] == '0' && u[3] == '0');
        assert(u[4] == hex_digit_lower(x) && u[5] == hex_digit_lower(y));
        assert(x * 16 + y == c as u32);
        assert((((c as u32) as nat) as char) == c);
        assert(u.skip(6) =~= t);
    } else {
        assert(u.skip(1) =~= t);
    }
}

proof fn lemma_unescape_escaped(s: Seq<char>)
    ensures
        json_unescape(escaped_chars(s)) == Some(s),
    decreases s.len(),
{
    if s.len() == 0 {
        assert(escaped_chars(s) =~= Seq::<char>::empty());
    } else {
        lemma_escaped_chars_front(s);
        lemma_unescape_escaped(s.drop_first());
        lemma_unescape_one(s[0], escaped_chars(s.drop_first()));
        assert(seq![s[0]] + s.drop_first() =~= s);
    }
}

/// Reading back a JSON string gives the text it was made from: every character is either
/// written as itself or escaped, and unescaping undoes the escape.
pub proof fn lemma_json_string_reads_back(s: Seq<char>)
    ensures
        json_string_value(json_string(s)) == Some(s),
{
    lemma_unescape_escaped(s);
    let j = json_string(s);
    assert(j.subrange(1, j.len() - 1) =~= escaped_chars(s));
}

proof fn lemma_escaped_chars_printable(s: Seq<char>)
    ensures
        forall|i: int| 0 <= i < escaped_chars(s).len() ==> (#[trigger] escaped_chars(s)[i]) as u32 >= 0x20,
    decreases s.len(),
{
    if s.len() > 0 {
        lemma_escaped_chars_printable(s.drop_last());
        let a = escaped_chars(s.drop_last());
        let b = escaped_char(s.last());
        let c = s.last();
        if (c as u32) < 0x20 {
            assert(c as u32 / 16 < 2);
            assert(c as u32 % 16 < 16);
        }
        assert forall|i: int| 0 <= i < b.len() implies (#[trigger] b[i]) as u32 >= 0x20 by {}
        assert forall|i: int| 0 <= i < (a + b).len() implies (#[trigger] (a + b)[i]) as u32 >= 0x20 by {
            if i >= a.len() {
                assert((a + b)[i] == b[i - a.len()]);
            }
        }
    }
}

/// The items, separated by commas.
pub open spec fn joined(items: Seq<Seq<char>>) -> Seq<char>
    decreases items.len(),
{
    if items.len() == 0 {
        Seq::empty()
    } else if items.len() == 1 {
        items[0]
    } else {
        items[0] + seq![','] + joined(items.drop_first())
    }
}

/// What is written before an item of a compound value opened by `open`: the opening before
/// the first item, a comma before the others.
pub open spec fn item_prefix(first: bool, open: Seq<char>) -> Seq<char> {
    if first {
        open
    } else {
        seq![',']
    }
}

/// What ends a compound value opened by `open` and closed by `close`: both, when it has no
/// item, else only the closing.
pub open spec fn compound_end(first: bool, open: Seq<char>, close: Seq<char>) -> Seq<char> {
    if first {
        open + close
    } else {
        close
    }
}

/// The text written for a compound value whose items are written one after another, each
/// after [item_prefix], and which is then ended with [compound_end].
pub open spec fn compound_emitted(first: bool, open: Seq<char>, close: Seq<char>, items: Seq<Seq<char>>) -> Seq<char>
    decreases items.len(),
{
    if items.len() == 0 {
        compound_end(first, open, close)
    } else {
        item_prefix(first, open) + items[0] + compound_emitted(false, open, close, items.drop_first())
    }
}

/// The entry of a map with key text `key` and value text `value`: `key:value` in an object,
/// `[key,value]` in an array of pairs.
pub open spec fn map_entry(map_as: SerializeMapAs, key: Seq<char>, value: Seq<char>) -> Seq<char> {
    match map_as {
        SerializeMapAs::Object => key + seq![':'] + value,
        SerializeMapAs::ArrayOfPairs => seq!['['] + key + seq![','] + value + seq![']'],
    }
}

/// What opens a map written as `map_as`.
pub open spec fn map_open(map_as: SerializeMapAs) -> Seq<char> {
    match map_as {
        SerializeMapAs::Object => seq!['{'],
        SerializeMapAs::ArrayOfPairs => seq!['['],
    }
}

/// What closes a map written as `map_as`.
pub open spec fn map_close(map_as: SerializeMapAs) -> Seq<char> {
    match map_as {
        SerializeMapAs::Object => seq!['}'],
        SerializeMapAs::ArrayOfPairs => seq![']'],
    }
}

/// The state of an array, object or map being written.
pub struct SerializeCompound {
    /// Whether no item was written yet.
    pub is_first: bool,
}

impl SerializeCompound {
    /// A compound value with no item written yet.
    pub fn new() -> (r: Self)
        ensures
            r.is_first,
    {
        SerializeCompound { is_first: true }
    }

    /// What comes before an element of a sequence or tuple.
    pub fn element_prefix(&mut self) -> (r: &'static str)
        ensures
            r@ == item_prefix(old(self).is_first, seq!['[']),
            !final(self).is_first,
    {
        let first = self.is_first;
        self.is_first = false;
        if first {
            proof {
                reveal_strlit("[");
            }
            "["
        } else {
            proof {
                reveal_strlit(",");
            }
            ","
        }
    }

    /// What ends a sequence or tuple.
    pub fn end_sequence(&self) -> (r: &'static str)
        ensures
            r@ == compound_end(self.is_first, seq!['['], seq![']']),
    {
        if self.is_first {
            proof {
                reveal_strlit("[]");
            }
            assert(seq!['['] + seq![']'] =~= seq!['[', ']']);
            "[]"
        } else {
            proof {
                reveal_strlit("]");
            }
            "]"
        }
    }

    /// What ends the sequence inside an enum variant, and the variant.
    pub fn end_tuple_variant(&self) -> (r: &'static str)
        ensures
            r@ == compound_end(self.is_first, seq!['['], seq![']']) + seq!['}'],
    {
        if self.is_first {
            proof {
                reveal_strlit("[]}");
            }
            assert(seq!['['] + seq![']'] + seq!['}'] =~= seq!['[', ']', '}']);
            "[]}"
        } else {
            proof {
                reveal_strlit("]}");
            }
            assert(seq![']'] + seq!['}'] =~= seq![']', '}']);
            "]}"
        }
    }

    /// What comes before the key of a map entry.
    pub fn key_prefix(&mut self, map_as: SerializeMapAs) -> (r: &'static str)
        ensures
            r@ == item_prefix(old(self).is_first, map_open(map_as)) + match map_as {
                SerializeMapAs::Object => Seq::<char>::empty(),
                SerializeMapAs::ArrayOfPairs => seq!['['],
            },
            !final(self).is_first,
    {
        let first = self.is_first;
        self.is_first = false;
        match map_as {
            SerializeMapAs::Object => {
                if first {
                    proof {
                        reveal_strlit("{");
                    }
                    assert(seq!['{'] + Seq::<char>::empty() =~= seq!['{']);
                    "{"
                } else {
                    proof {
                        reveal_strlit(",");
                    }
                    assert(seq![','] + Seq::<char>::empty() =~= seq![',']);
                    ","
                }
            },
            SerializeMapAs::ArrayOfPairs => {
                if first {
                    proof {
                        reveal_strlit("[[");
                    }
                    assert(seq!['['] + seq!['['] =~= seq!['[', '[']);
                    "[["
                } else {
                    proof {
                        reveal_strlit(",[");
                    }
                    assert(seq![','] + seq!['['] =~= seq![',', '[']);
                    ",["
                }
            },
        }
    }

    /// What comes between the key and the value of a map entry.
    pub fn value_prefix(&self, map_as: SerializeMapAs) -> (r: &'static str)
        ensures
            r@ == match map_as {
                SerializeMapAs::Object => seq![':'],
                SerializeMapAs::ArrayOfPairs => seq![','],
            },
    {
        match map_as {
            SerializeMapAs::Object => {
                proof {
                    reveal_strlit(":");
                }
                ":"
            },
            SerializeMapAs::ArrayOfPairs => {
                proof {
                    reveal_strlit(",");
                }
                ","
            },
        }
    }

    /// What comes after the value of a map entry.
    pub fn value_suffix(&self, map_as: SerializeMapAs) -> (r: &'static str)
        ensures
            r@ == match map_as {
                SerializeMapAs::Object => Seq::<char>::empty(),
                SerializeMapAs::ArrayOfPairs => seq![']'],
            },
    {
        match map_as {
            SerializeMapAs::Object => {
                proof {
                    reveal_strlit("");
                }
                ""
            },
            SerializeMapAs::ArrayOfPairs => {
                proof {
                    reveal_strlit("]");
                }
                "]"
            },
        }
    }

    /// What ends a map.
    pub fn end_map(&self, map_as: SerializeMapAs) -> (r: &'static str)
        ensures
            r@ == compound_end(self.is_first, map_open(map_as), map_close(map_as)),
    {
        match map_as {
            SerializeMapAs::Object => {
                if self.is_first {
                    proof {
                        reveal_strlit("{}");
                    }
                    assert(seq!['{'] + seq!['}'] =~= seq!['{', '}']);
                    "{}"
                } else {
                    proof {
                        reveal_strlit("}");
                    }
                    "}"
                }
            },
            SerializeMapAs::ArrayOfPairs => {
                if self.is_first {
                    proof {
                        reveal_strlit("[]");
                    }
                    assert(seq!['['] + seq![']'] =~= seq!['[', ']']);
                    "[]"
                } else {
                    proof {
                        reveal_strlit("]");
                    }
                    "]"
                }
            },
        }
    }

    /// What comes before a field of a struct; the field's name follows as a JSON string,
    /// then `:` and the value.
    pub fn field_prefix(&mut self) -> (r: &'static str)
        ensures
            r@ == item_prefix(old(self).is_first, seq!['{']),
            !final(self).is_first,
    {
        let first = self.is_first;
        self.is_first = false;
        if first {
            proof {
                reveal_strlit("{");
            }
            "{"
        } else {
            proof {
                reveal_strlit(",");
            }
            ","
        }
    }

    /// What ends a struct.
    pub fn end_struct(&self) -> (r: &'static str)
        ensures
            r@ == compound_end(self.is_first, seq!['{'], seq!['}']),
    {
        if self.is_first {
            proof {
                reveal_strlit("{}");
            }
            assert(seq!['{'] + seq!['}'] =~= seq!['{', '}']);
            "{}"
        } else {
            proof {
                reveal_strlit("}");
            }
            "}"
        }
    }

    /// What ends the struct inside an enum variant, and the variant.
    pub fn end_struct_variant(&self) -> (r: &'static str)
        ensures
            r@ == compound_end(self.is_first, seq!['{'], seq!['}']) + seq!['}'],
    {
        if self.is_first {
            proof {
                reveal_strlit("{}}");
            }
            assert(seq!['{'] + seq!['}'] + seq!['}'] =~= seq!['{', '}', '}']);
            "{}}"
        } else {
            proof {
                reveal_strlit("}}");
            }
            assert(seq!['}'] + seq!['}'] =~= seq!['}', '}']);
            "}}"
        }
    }
}

proof fn lemma_compound_after_first(open: Seq<char>, close: Seq<char>, items: Seq<Seq<char>>)
    ensures
        compound_emitted(false, open, close, items) == if items.len() == 0 {
            close
        } else {
            seq![','] + joined(items) + close
        },
    decreases items.len(),
{
    if items.len() > 0 {
        let rest = items.drop_first();
        lemma_compound_after_first(open, close, rest);
        if rest.len() == 0 {
            assert(joined(items) == items[0]);
        } else {
            assert(joined(items) == items[0] + seq![','] + joined(rest));
            assert(seq![','] + items[0] + (seq![','] + joined(rest) + close) =~= seq![','] + (
            items[0] + seq![','] + joined(rest)) + close);
        }
    }
}

/// Items written one after another, each after its prefix, and then ended, form the opening,
/// the items separated by commas, and the closing: `[a,b,c]`, `{"x":1,"y":2}`, `[]`.
pub proof fn lemma_compound_is_joined(open: Seq<char>, close: Seq<char>, items: Seq<Seq<char>>)
    ensures
        compound_emitted(true, open, close, items) == open + joined(items) + close,
{
    if items.len() == 0 {
        assert(open + joined(items) + close =~= open + close);
    } else {
        let rest = items.drop_first();
        lemma_compound_after_first(open, close, rest);
        if rest.len() == 0 {
            assert(joined(items) == items[0]);
        } else {
            assert(joined(items) == items[0] + seq![','] + joined(rest));
            assert(open + items[0] + (seq![','] + joined(rest) + close) =~= open + (items[0] + seq![
                ',',
            ] + joined(rest)) + close);
        }
    }
}

/// The entries of a map written with [SerializeCompound::key_prefix], the key,
/// [SerializeCompound::value_prefix], the value and [SerializeCompound::value_suffix] form
/// the item prefix followed by [map_entry].
pub proof fn lemma_map_entry_text(first: bool, map_as: SerializeMapAs, key: Seq<char>, value: Seq<char>)
    ensures
        item_prefix(first, map_open(map_as)) + match map_as {
            SerializeMapAs::Object => Seq::<char>::empty(),
            SerializeMapAs::ArrayOfPairs => seq!['['],
        } + key + match map_as {
            SerializeMapAs::Object => seq![':'],
            SerializeMapAs::ArrayOfPairs => seq![','],
        } + value + match map_as {
            SerializeMapAs::Object => Seq::<char>::empty(),
            SerializeMapAs::ArrayOfPairs => seq![']'],
        } == item_prefix(first, map_open(map_as)) + map_entry(map_as, key, value),
{
    let p = item_prefix(first, map_open(map_as));
    match map_as {
        SerializeMapAs::Object => {
            assert(p + Seq::<char>::empty() + key + seq![':'] + value + Seq::<char>::empty() =~= p
                + (key + seq![':'] + value));
        },
        SerializeMapAs::ArrayOfPairs => {
            assert(p + seq!['['] + key + seq![','] + value + seq![']'] =~= p + (seq!['['] + key
                + seq![','] + value + seq![']']));
        },
    }
}

} // verus!
