//! A verified codec for the JSON wire format of the chat protocol.
//!
//! The wire form of an envelope is a JSON object
//! `{"messageType":<string>,"dataArray":<array of strings or null>,"data":<string or null>}`;
//! the wire form of a chat payload is `{"from":<string>,"message":<string>}`.
//! The encoder emits the compact form with the members in those orders. The
//! decoder accepts the members in any order, insignificant whitespace
//! between tokens, and absent optional members; it rejects a member it does
//! not know, a repeated member, a value of the wrong shape, and anything
//! after the closing brace. Rejecting an unknown member is deliberate: the
//! envelope has exactly these three, so a stray member is evidence of a
//! different object, and forward compatibility lives in the kind dispatch,
//! which carries unknown `messageType` values through untouched.

use vstd::prelude::*;
use vstd::string::StrSliceExecFns;
use crate::protocol::ChatMessage;
use crate::protocol::Envelope;
use crate::protocol::EnvelopeView;
use crate::protocol::MessageView;

verus! {

// ---------------------------------------------------------------------
// The encoded form, as a ghost function of the value.
// ---------------------------------------------------------------------

/// The lower-case hexadecimal digit for a value below sixteen.
pub open spec fn spec_hex_digit(n: int) -> char {
    if n == 0 {
        '0'
    } else if n == 1 {
        '1'
    } else if n == 2 {
        '2'
    } else if n == 3 {
        '3'
    } else if n == 4 {
        '4'
    } else if n == 5 {
        '5'
    } else if n == 6 {
        '6'
    } else if n == 7 {
        '7'
    } else if n == 8 {
        '8'
    } else if n == 9 {
        '9'
    } else if n == 10 {
        'a'
    } else if n == 11 {
        'b'
    } else if n == 12 {
        'c'
    } else if n == 13 {
        'd'
    } else if n == 14 {
        'e'
    } else {
        'f'
    }
}

/// The value of a hexadecimal digit, either case; `None` for any other
/// character.
pub open spec fn spec_hex_val(c: char) -> Option<int> {
    let v = c as u32;
    if 0x30 <= v && v <= 0x39 {
        Some(v - 0x30)
    } else if 0x61 <= v && v <= 0x66 {
        Some(v - 0x61 + 10)
    } else if 0x41 <= v && v <= 0x46 {
        Some(v - 0x41 + 10)
    } else {
        None
    }
}

/// Whether `h` is a Unicode scalar value: a code point that is a `char`.
pub open spec fn spec_is_scalar_value(h: int) -> bool {
    (0 <= h && h < 0xD800) || (0xE000 <= h && h <= 0x10FFFF)
}

/// The character with code point `h`.
pub open spec fn spec_char_of(h: int) -> char
    recommends
        spec_is_scalar_value(h),
{
    (h as u32) as char
}

/// How one character is written inside a JSON string literal: the short
/// escapes of RFC 8259 where they exist, `\u00XX` for the remaining
/// control characters, and the character itself otherwise.
pub open spec fn spec_escape_char(c: char) -> Seq<char> {
    if c == '"' {
        seq!['\\', '"']
    } else if c == '\\' {
        seq!['\\', '\\']
    } else if c == '\n' {
        seq!['\\', 'n']
    } else if c == '\r' {
        seq!['\\', 'r']
    } else if c == '\t' {
        seq!['\\', 't']
    } else if c == '\u{0008}' {
        seq!['\\', 'b']
    } else if c == '\u{000c}' {
        seq!['\\', 'f']
    } else if (c as u32) < 0x20 {
        seq![
            '\\',
            'u',
            '0',
            '0',
            spec_hex_digit((c as u32) as int / 16),
            spec_hex_digit((c as u32) as int % 16),
        ]
    } else {
        seq![c]
    }
}

/// The body of a JSON string literal: each character escaped.
pub open spec fn spec_escape(s: Seq<char>) -> Seq<char>
    decreases s.len(),
{
    if s.len() == 0 {
        Seq::empty()
    } else {
        spec_escape_char(s[0]) + spec_escape(s.skip(1))
    }
}

/// A JSON string literal: quotes around the escaped body.
pub open spec fn spec_quote(s: Seq<char>) -> Seq<char> {
    seq!['"'] + spec_escape(s) + seq!['"']
}

/// The JSON literal `null`.
pub open spec fn spec_null() -> Seq<char> {
    seq!['n', 'u', 'l', 'l']
}

/// The comma-separated items of a JSON array of strings.
pub open spec fn spec_encode_items(l: Seq<Seq<char>>) -> Seq<char>
    decreases l.len(),
{
    if l.len() == 0 {
        Seq::empty()
    } else if l.len() == 1 {
        spec_quote(l[0])
    } else {
        spec_quote(l[0]) + seq![','] + spec_encode_items(l.skip(1))
    }
}

/// A JSON array of strings.
pub open spec fn spec_encode_array(l: Seq<Seq<char>>) -> Seq<char> {
    seq!['['] + spec_encode_items(l) + seq![']']
}

/// An optional string member's value: a string literal, or `null`.
pub open spec fn spec_encode_opt_string(o: Option<Seq<char>>) -> Seq<char> {
    match o {
        Some(s) => spec_quote(s),
        None => spec_null(),
    }
}

/// An optional array member's value: an array, or `null`.
pub open spec fn spec_encode_opt_array(o: Option<Seq<Seq<char>>>) -> Seq<char> {
    match o {
        Some(l) => spec_encode_array(l),
        None => spec_null(),
    }
}

/// The compact wire text of an envelope.
pub open spec fn spec_encode_envelope(e: EnvelopeView) -> Seq<char> {
    seq!['{'] + spec_quote("messageType"@) + seq![':'] + spec_quote(e.message_type) + seq![',']
        + spec_quote("dataArray"@) + seq![':'] + spec_encode_opt_array(e.data_array) + seq![',']
        + spec_quote("data"@) + seq![':'] + spec_encode_opt_string(e.data) + seq!['}']
}

/// The compact wire text of a chat payload.
pub open spec fn spec_encode_chat(m: MessageView) -> Seq<char> {
    seq!['{'] + spec_quote("from"@) + seq![':'] + spec_quote(m.from) + seq![','] + spec_quote(
        "message"@,
    ) + seq![':'] + spec_quote(m.message) + seq!['}']
}

// ---------------------------------------------------------------------
// The grammar the decoder accepts, as a ghost recursive-descent parser.
// Each parsing function reads a construct at the head of its input and
// returns the parsed value together with the input that is left.
// ---------------------------------------------------------------------

/// Insignificant whitespace between JSON tokens.
pub open spec fn spec_is_ws(c: char) -> bool {
    c == ' ' || c == '\t' || c == '\n' || c == '\r'
}

/// The input with its leading whitespace removed.
pub open spec fn spec_skip_ws(s: Seq<char>) -> Seq<char>
    decreases s.len(),
{
    if s.len() > 0 && spec_is_ws(s[0]) {
        spec_skip_ws(s.skip(1))
    } else {
        s
    }
}

/// What a backslash escape stands for; `None` for an escape the grammar
/// does not know.
pub open spec fn spec_unescape_char(c: char) -> Option<char> {
    if c == '"' {
        Some('"')
    } else if c == '\\' {
        Some('\\')
    } else if c == '/' {
        Some('/')
    } else if c == 'n' {
        Some('\n')
    } else if c == 'r' {
        Some('\r')
    } else if c == 't' {
        Some('\t')
    } else if c == 'b' {
        Some('\u{0008}')
    } else if c == 'f' {
        Some('\u{000c}')
    } else {
        None
    }
}

/// The value of four hexadecimal digits at the head of the input; `None`
/// unless four are there.
pub open spec fn spec_hex4_val(s: Seq<char>) -> Option<int> {
    if s.len() < 4 {
        None
    } else {
        match (spec_hex_val(s[0]), spec_hex_val(s[1]), spec_hex_val(s[2]), spec_hex_val(s[3])) {
            (Some(a), Some(b), Some(c), Some(d)) => Some(a * 4096 + b * 256 + c * 16 + d),
            _ => None,
        }
    }
}

/// Parses the rest of a string literal, after the opening quote, with `acc`
/// the characters already read; returns the whole literal's characters and
/// the input after the closing quote. A `\uXXXX` escape denotes its code
/// point; a high surrogate must be followed by a low one, the pair
/// denoting one character, and a lone surrogate is rejected.
pub open spec fn spec_parse_string_body(s: Seq<char>, acc: Seq<char>) -> Option<
    (Seq<char>, Seq<char>),
>
    decreases s.len(),
{
    if s.len() == 0 {
        None
    } else if s[0] == '"' {
        Some((acc, s.skip(1)))
    } else if s[0] == '\\' {
        if s.len() < 2 {
            None
        } else if s[1] == 'u' {
            match spec_hex4_val(s.skip(2)) {
                None => None,
                Some(h) => {
                    if 0xD800 <= h && h <= 0xDBFF {
                        if s.len() >= 8 && s[6] == '\\' && s[7] == 'u' {
                            match spec_hex4_val(s.skip(8)) {
                                None => None,
                                Some(l) => {
                                    if 0xDC00 <= l && l <= 0xDFFF {
                                        spec_parse_string_body(
                                            s.skip(12),
                                            acc.push(
                                                spec_char_of(
                                                    0x10000 + (h - 0xD800) * 1024 + (l - 0xDC00),
                                                ),
                                            ),
                                        )
                                    } else {
                                        None
                                    }
                                },
                            }
                        } else {
                            None
                        }
                    } else if 0xDC00 <= h && h <= 0xDFFF {
                        None
                    } else {
                        spec_parse_string_body(s.skip(6), acc.push(spec_char_of(h)))
                    }
                },
            }
        } else {
            match spec_unescape_char(s[1]) {
                Some(c) => spec_parse_string_body(s.skip(2), acc.push(c)),
                None => None,
            }
        }
    } else {
        spec_parse_string_body(s.skip(1), acc.push(s[0]))
    }
}

/// Parses a string literal at the head of the input.
pub open spec fn spec_parse_string(s: Seq<char>) -> Option<(Seq<char>, Seq<char>)> {
    if s.len() > 0 && s[0] == '"' {
        spec_parse_string_body(s.skip(1), Seq::empty())
    } else {
        None
    }
}

/// Parses the literal `null` at the head of the input.
pub open spec fn spec_parse_null(s: Seq<char>) -> Option<Seq<char>> {
    if s.len() >= 4 && s[0] == 'n' && s[1] == 'u' && s[2] == 'l' && s[3] == 'l' {
        Some(s.skip(4))
    } else {
        None
    }
}

pub proof fn lemma_skip_ws_len(s: Seq<char>)
    ensures
        spec_skip_ws(s).len() <= s.len(),
    decreases s.len(),
{
    if s.len() > 0 && spec_is_ws(s[0]) {
        lemma_skip_ws_len(s.skip(1));
    }
}

pub proof fn lemma_parse_string_body_consumes(s: Seq<char>, acc: Seq<char>)
    ensures
        spec_parse_string_body(s, acc) matches Some(vr) ==> vr.1.len() < s.len(),
    decreases s.len(),
{
    if s.len() == 0 {
    } else if s[0] == '"' {
    } else if s[0] == '\\' {
        if s.len() < 2 {
        } else if s[1] == 'u' {
            match spec_hex4_val(s.skip(2)) {
                None => (),
                Some(h) => {
                    if 0xD800 <= h && h <= 0xDBFF {
                        if s.len() >= 8 && s[6] == '\\' && s[7] == 'u' {
                            match spec_hex4_val(s.skip(8)) {
                                None => (),
                                Some(l) => {
                                    if 0xDC00 <= l && l <= 0xDFFF {
                                        lemma_parse_string_body_consumes(
                                            s.skip(12),
                                            acc.push(
                                                spec_char_of(
                                                    0x10000 + (h - 0xD800) * 1024 + (l - 0xDC00),
                                                ),
                                            ),
                                        );
                                    }
                                },
                            }
                        }
                    } else if 0xDC00 <= h && h <= 0xDFFF {
                    } else {
                        lemma_parse_string_body_consumes(s.skip(6), acc.push(spec_char_of(h)));
                    }
                },
            }
        } else {
            match spec_unescape_char(s[1]) {
                Some(c) => lemma_parse_string_body_consumes(s.skip(2), acc.push(c)),
                None => (),
            }
        }
    } else {
        lemma_parse_string_body_consumes(s.skip(1), acc.push(s[0]));
    }
}

pub proof fn lemma_parse_string_consumes(s: Seq<char>)
    ensures
        spec_parse_string(s) matches Some(vr) ==> vr.1.len() < s.len(),
{
    if s.len() > 0 && s[0] == '"' {
        lemma_parse_string_body_consumes(s.skip(1), Seq::empty());
    }
}

/// Parses the comma-separated items of an array of strings, with `acc` the
/// items already read; returns all items and the input after the closing
/// bracket.
pub open spec fn spec_parse_array_items(s: Seq<char>, acc: Seq<Seq<char>>) -> Option<
    (Seq<Seq<char>>, Seq<char>),
>
    decreases s.len(),
{
    match spec_parse_string(s) {
        None => None,
        Some((v, r)) => {
            let r1 = spec_skip_ws(r);
            if r1.len() == 0 {
                None
            } else if r1[0] == ']' {
                Some((acc.push(v), r1.skip(1)))
            } else if r1[0] == ',' {
                proof {
                    lemma_parse_string_consumes(s);
                    lemma_skip_ws_len(r);
                    lemma_skip_ws_len(r1.skip(1));
                }
                spec_parse_array_items(spec_skip_ws(r1.skip(1)), acc.push(v))
            } else {
                None
            }
        },
    }
}

/// Parses an array of strings at the head of the input.
pub open spec fn spec_parse_array(s: Seq<char>) -> Option<(Seq<Seq<char>>, Seq<char>)> {
    if s.len() > 0 && s[0] == '[' {
        let r = spec_skip_ws(s.skip(1));
        if r.len() > 0 && r[0] == ']' {
            Some((Seq::empty(), r.skip(1)))
        } else {
            spec_parse_array_items(r, Seq::empty())
        }
    } else {
        None
    }
}

/// Parses a string-or-null value; `None` in the first component stands for
/// `null`.
pub open spec fn spec_parse_opt_string(s: Seq<char>) -> Option<(Option<Seq<char>>, Seq<char>)> {
    match spec_parse_null(s) {
        Some(r) => Some((None, r)),
        None => match spec_parse_string(s) {
            Some((v, r)) => Some((Some(v), r)),
            None => None,
        },
    }
}

/// Parses an array-or-null value; `None` in the first component stands for
/// `null`.
pub open spec fn spec_parse_opt_array(s: Seq<char>) -> Option<
    (Option<Seq<Seq<char>>>, Seq<char>),
> {
    match spec_parse_null(s) {
        Some(r) => Some((None, r)),
        None => match spec_parse_array(s) {
            Some((v, r)) => Some((Some(v), r)),
            None => None,
        },
    }
}

pub proof fn lemma_parse_array_items_consumes(s: Seq<char>, acc: Seq<Seq<char>>)
    ensures
        spec_parse_array_items(s, acc) matches Some(vr) ==> vr.1.len() < s.len(),
    decreases s.len(),
{
    match spec_parse_string(s) {
        None => (),
        Some((v, r)) => {
            lemma_parse_string_consumes(s);
            let r1 = spec_skip_ws(r);
            lemma_skip_ws_len(r);
            if r1.len() == 0 {
            } else if r1[0] == ']' {
            } else if r1[0] == ',' {
                lemma_skip_ws_len(r1.skip(1));
                lemma_parse_array_items_consumes(spec_skip_ws(r1.skip(1)), acc.push(v));
            }
        },
    }
}

pub proof fn lemma_parse_array_consumes(s: Seq<char>)
    ensures
        spec_parse_array(s) matches Some(vr) ==> vr.1.len() < s.len(),
{
    if s.len() > 0 && s[0] == '[' {
        let r = spec_skip_ws(s.skip(1));
        lemma_skip_ws_len(s.skip(1));
        if r.len() > 0 && r[0] == ']' {
        } else {
            lemma_parse_array_items_consumes(r, Seq::empty());
        }
    }
}

pub proof fn lemma_parse_opt_string_consumes(s: Seq<char>)
    ensures
        spec_parse_opt_string(s) matches Some(vr) ==> vr.1.len() < s.len(),
{
    lemma_parse_string_consumes(s);
}

pub proof fn lemma_parse_opt_array_consumes(s: Seq<char>)
    ensures
        spec_parse_opt_array(s) matches Some(vr) ==> vr.1.len() < s.len(),
{
    lemma_parse_array_consumes(s);
}

// ---------------------------------------------------------------------
// Envelope objects.
// ---------------------------------------------------------------------

/// The members filled in so far while parsing an envelope object. An outer
/// `None` is a member not seen yet; an inner `None` is a member whose value
/// was `null`.
pub ghost struct EnvSlots {
    pub message_type: Option<Seq<char>>,
    pub data: Option<Option<Seq<char>>>,
    pub data_array: Option<Option<Seq<Seq<char>>>>,
}

/// Parses one `key:value` member of an envelope object and fills its slot.
/// A key that is not part of the protocol, a key seen twice, or a value of
/// the wrong shape for its key is rejected.
pub open spec fn spec_parse_env_member(s: Seq<char>, slots: EnvSlots) -> Option<
    (EnvSlots, Seq<char>),
> {
    match spec_parse_string(s) {
        None => None,
        Some((k, r)) => {
            let r1 = spec_skip_ws(r);
            if r1.len() == 0 || r1[0] != ':' {
                None
            } else {
                let r2 = spec_skip_ws(r1.skip(1));
                if k == "messageType"@ {
                    if slots.message_type is Some {
                        None
                    } else {
                        match spec_parse_string(r2) {
                            None => None,
                            Some((v, r3)) => Some(
                                (
                                    EnvSlots {
                                        message_type: Some(v),
                                        data: slots.data,
                                        data_array: slots.data_array,
                                    },
                                    r3,
                                ),
                            ),
                        }
                    }
                } else if k == "data"@ {
                    if slots.data is Some {
                        None
                    } else {
                        match spec_parse_opt_string(r2) {
                            None => None,
                            Some((v, r3)) => Some(
                                (
                                    EnvSlots {
                                        message_type: slots.message_type,
                                        data: Some(v),
                                        data_array: slots.data_array,
                                    },
                                    r3,
                                ),
                            ),
                        }
                    }
                } else if k == "dataArray"@ {
                    if slots.data_array is Some {
                        None
                    } else {
                        match spec_parse_opt_array(r2) {
                            None => None,
                            Some((v, r3)) => Some(
                                (
                                    EnvSlots {
                                        message_type: slots.message_type,
                                        data: slots.data,
                                        data_array: Some(v),
                                    },
                                    r3,
                                ),
                            ),
                        }
                    }
                } else {
                    None
                }
            }
        },
    }
}

pub proof fn lemma_parse_env_member_consumes(s: Seq<char>, slots: EnvSlots)
    ensures
        spec_parse_env_member(s, slots) matches Some(vr) ==> vr.1.len() < s.len(),
{
    match spec_parse_string(s) {
        None => (),
        Some((k, r)) => {
            lemma_parse_string_consumes(s);
            let r1 = spec_skip_ws(r);
            lemma_skip_ws_len(r);
            if r1.len() == 0 || r1[0] != ':' {
            } else {
                let r2 = spec_skip_ws(r1.skip(1));
                lemma_skip_ws_len(r1.skip(1));
                lemma_parse_string_consumes(r2);
                lemma_parse_opt_string_consumes(r2);
                lemma_parse_opt_array_consumes(r2);
            }
        },
    }
}

/// Parses the members of an envelope object up to and through the closing
/// brace.
pub open spec fn spec_parse_env_members(s: Seq<char>, slots: EnvSlots) -> Option<
    (EnvSlots, Seq<char>),
>
    decreases s.len(),
{
    match spec_parse_env_member(s, slots) {
        None => None,
        Some((sl, r)) => {
            let r1 = spec_skip_ws(r);
            if r1.len() == 0 {
                None
            } else if r1[0] == '}' {
                Some((sl, r1.skip(1)))
            } else if r1[0] == ',' {
                proof {
                    lemma_parse_env_member_consumes(s, slots);
                    lemma_skip_ws_len(r);
                    lemma_skip_ws_len(r1.skip(1));
                }
                spec_parse_env_members(spec_skip_ws(r1.skip(1)), sl)
            } else {
                None
            }
        },
    }
}

/// The decoded form of a frame: `None` if the text is not a well-formed
/// envelope, otherwise the envelope it denotes. The `messageType` member is
/// required; `data` and `dataArray` read as `None` whether absent or `null`.
pub open spec fn spec_decode_envelope(s: Seq<char>) -> Option<EnvelopeView> {
    let t = spec_skip_ws(s);
    if t.len() == 0 || t[0] != '{' {
        None
    } else {
        let r = spec_skip_ws(t.skip(1));
        match spec_parse_env_members(
            r,
            EnvSlots { message_type: None, data: None, data_array: None },
        ) {
            None => None,
            Some((sl, rest)) => {
                if spec_skip_ws(rest).len() != 0 {
                    None
                } else {
                    match sl.message_type {
                        None => None,
                        Some(mt) => Some(
                            EnvelopeView {
                                message_type: mt,
                                data: match sl.data {
                                    None => None,
                                    Some(d) => d,
                                },
                                data_array: match sl.data_array {
                                    None => None,
                                    Some(a) => a,
                                },
                            },
                        ),
                    }
                }
            },
        }
    }
}

// ---------------------------------------------------------------------
// Chat-payload objects.
// ---------------------------------------------------------------------

/// The members filled in so far while parsing a chat payload.
pub ghost struct MsgSlots {
    pub from: Option<Seq<char>>,
    pub message: Option<Seq<char>>,
}

/// Parses one `key:value` member of a chat payload and fills its slot.
pub open spec fn spec_parse_msg_member(s: Seq<char>, slots: MsgSlots) -> Option<
    (MsgSlots, Seq<char>),
> {
    match spec_parse_string(s) {
        None => None,
        Some((k, r)) => {
            let r1 = spec_skip_ws(r);
            if r1.len() == 0 || r1[0] != ':' {
                None
            } else {
                let r2 = spec_skip_ws(r1.skip(1));
                if k == "from"@ {
                    if slots.from is Some {
                        None
                    } else {
                        match spec_parse_string(r2) {
                            None => None,
                            Some((v, r3)) => Some(
                                (MsgSlots { from: Some(v), message: slots.message }, r3),
                            ),
                        }
                    }
                } else if k == "message"@ {
                    if slots.message is Some {
                        None
                    } else {
                        match spec_parse_string(r2) {
                            None => None,
                            Some((v, r3)) => Some(
                                (MsgSlots { from: slots.from, message: Some(v) }, r3),
                            ),
                        }
                    }
                } else {
                    None
                }
            }
        },
    }
}

pub proof fn lemma_parse_msg_member_consumes(s: Seq<char>, slots: MsgSlots)
    ensures
        spec_parse_msg_member(s, slots) matches Some(vr) ==> vr.1.len() < s.len(),
{
    match spec_parse_string(s) {
        None => (),
        Some((k, r)) => {
            lemma_parse_string_consumes(s);
            let r1 = spec_skip_ws(r);
            lemma_skip_ws_len(r);
            if r1.len() == 0 || r1[0] != ':' {
            } else {
                let r2 = spec_skip_ws(r1.skip(1));
                lemma_skip_ws_len(r1.skip(1));
                lemma_parse_string_consumes(r2);
            }
        },
    }
}

/// Parses the members of a chat payload up to and through the closing brace.
pub open spec fn spec_parse_msg_members(s: Seq<char>, slots: MsgSlots) -> Option<
    (MsgSlots, Seq<char>),
>
    decreases s.len(),
{
    match spec_parse_msg_member(s, slots) {
        None => None,
        Some((sl, r)) => {
            let r1 = spec_skip_ws(r);
            if r1.len() == 0 {
                None
            } else if r1[0] == '}' {
                Some((sl, r1.skip(1)))
            } else if r1[0] == ',' {
                proof {
                    lemma_parse_msg_member_consumes(s, slots);
                    lemma_skip_ws_len(r);
                    lemma_skip_ws_len(r1.skip(1));
                }
                spec_parse_msg_members(spec_skip_ws(r1.skip(1)), sl)
            } else {
                None
            }
        },
    }
}

/// The decoded form of a `Message` envelope's nested payload: `None` if the
/// text is not a well-formed chat payload. Both members are required.
pub open spec fn spec_decode_chat(s: Seq<char>) -> Option<MessageView> {
    let t = spec_skip_ws(s);
    if t.len() == 0 || t[0] != '{' {
        None
    } else {
        let r = spec_skip_ws(t.skip(1));
        match spec_parse_msg_members(r, MsgSlots { from: None, message: None }) {
            None => None,
            Some((sl, rest)) => {
                if spec_skip_ws(rest).len() != 0 {
                    None
                } else {
                    match (sl.from, sl.message) {
                        (Some(f), Some(m)) => Some(MessageView { from: f, message: m }),
                        _ => None,
                    }
                }
            },
        }
    }
}

// ---------------------------------------------------------------------
// Characters in and out of strings.
// ---------------------------------------------------------------------

/// The characters of a string slice.
pub fn str_to_chars(s: &str) -> (v: Vec<char>)
    ensures
        v@ == s@,
{
    let n = s.unicode_len();
    let mut v: Vec<char> = Vec::new();
    let mut i: usize = 0;
    proof {
        assert(s@.take(0) =~= Seq::<char>::empty());
    }
    while i < n
        invariant
            0 <= i <= n,
            n == s@.len(),
            v@ == s@.take(i as int),
        decreases n - i,
    {
        v.push(s.get_char(i));
        proof {
            assert(s@.take(i as int).push(s@[i as int]) =~= s@.take(i as int + 1));
        }
        i = i + 1;
    }
    proof {
        assert(s@.take(n as int) =~= s@);
    }
    v
}

/// Relies on `String::push` of std: appends exactly one character to the
/// string.
#[verifier::external_body]
fn push_char(s: &mut String, c: char)
    ensures
        final(s)@ == old(s)@.push(c),
{
    s.push(c);
}

/// The string made of the given characters.
pub fn chars_to_string(v: &Vec<char>) -> (s: String)
    ensures
        s@ == v@,
{
    let mut s = String::new();
    let mut i: usize = 0;
    proof {
        assert(v@.take(0) =~= Seq::<char>::empty());
    }
    while i < v.len()
        invariant
            0 <= i <= v.len(),
            s@ == v@.take(i as int),
        decreases v.len() - i,
    {
        push_char(&mut s, v[i]);
        proof {
            assert(v@.take(i as int).push(v@[i as int]) =~= v@.take(i as int + 1));
        }
        i = i + 1;
    }
    proof {
        assert(v@.take(v.len() as int) =~= v@);
    }
    s
}

/// Whether the characters `v` spell exactly the string `s`.
pub fn chars_eq_str(v: &Vec<char>, s: &str) -> (r: bool)
    ensures
        r == (v@ == s@),
{
    let n = s.unicode_len();
    if v.len() != n {
        return false;
    }
    let mut i: usize = 0;
    while i < n
        invariant
            0 <= i <= n,
            n == s@.len(),
            n == v@.len(),
            forall|j: int| 0 <= j < i ==> v@[j] == s@[j],
        decreases n - i,
    {
        if v[i] != s.get_char(i) {
            return false;
        }
        i = i + 1;
    }
    proof {
        assert(v@ =~= s@);
    }
    true
}

// ---------------------------------------------------------------------
// Characters and code points.
// ---------------------------------------------------------------------

/// Relies on `char::from_u32` of std: it returns `Some` exactly for the
/// Unicode scalar values — below the surrogate range, or between it and
/// the last code point — and the character returned has the given code
/// point.
pub assume_specification[ char::from_u32 ](v: u32) -> (r: Option<char>)
    ensures
        r is Some <==> (v < 0xD800 || (0xE000 <= v && v <= 0x10FFFF)),
        r matches Some(c) ==> c as u32 == v,
;

fn hex_digit(n: u32) -> (r: char)
    requires
        n < 16,
    ensures
        r == spec_hex_digit(n as int),
{
    if n == 0 {
        '0'
    } else if n == 1 {
        '1'
    } else if n == 2 {
        '2'
    } else if n == 3 {
        '3'
    } else if n == 4 {
        '4'
    } else if n == 5 {
        '5'
    } else if n == 6 {
        '6'
    } else if n == 7 {
        '7'
    } else if n == 8 {
        '8'
    } else if n == 9 {
        '9'
    } else if n == 10 {
        'a'
    } else if n == 11 {
        'b'
    } else if n == 12 {
        'c'
    } else if n == 13 {
        'd'
    } else if n == 14 {
        'e'
    } else {
        'f'
    }
}

fn hex_val(c: char) -> (r: Option<u32>)
    ensures
        match r {
            None => spec_hex_val(c) is None,
            Some(x) => x < 16 && spec_hex_val(c) == Some(x as int),
        },
{
    let v = c as u32;
    if 0x30 <= v && v <= 0x39 {
        Some(v - 0x30)
    } else if 0x61 <= v && v <= 0x66 {
        Some(v - 0x61 + 10)
    } else if 0x41 <= v && v <= 0x46 {
        Some(v - 0x41 + 10)
    } else {
        None
    }
}

// ---------------------------------------------------------------------
// The encoder.
// ---------------------------------------------------------------------

fn push_escaped_char(out: &mut Vec<char>, c: char)
    ensures
        final(out)@ == old(out)@ + spec_escape_char(c),
{
    if c == '"' {
        out.push('\\');
        out.push('"');
    } else if c == '\\' {
        out.push('\\');
        out.push('\\');
    } else if c == '\n' {
        out.push('\\');
        out.push('n');
    } else if c == '\r' {
        out.push('\\');
        out.push('r');
    } else if c == '\t' {
        out.push('\\');
        out.push('t');
    } else if c == '\u{0008}' {
        out.push('\\');
        out.push('b');
    } else if c == '\u{000c}' {
        out.push('\\');
        out.push('f');
    } else if (c as u32) < 0x20 {
        let v = c as u32;
        out.push('\\');
        out.push('u');
        out.push('0');
        out.push('0');
        out.push(hex_digit(v / 16));
        out.push(hex_digit(v % 16));
    } else {
        out.push(c);
    }
    proof {
        assert(out@ =~= old(out)@ + spec_escape_char(c));
    }
}

pub proof fn lemma_escape_push(a: Seq<char>, c: char)
    ensures
        spec_escape(a.push(c)) == spec_escape(a) + spec_escape_char(c),
    decreases a.len(),
{
    if a.len() == 0 {
        assert(a.push(c)[0] == c);
        assert(a.push(c).skip(1) =~= a);
        assert(spec_escape(a.push(c)) == spec_escape_char(c) + spec_escape(a));
        assert(spec_escape(a) == Seq::<char>::empty());
        assert(spec_escape_char(c) + spec_escape(a) =~= spec_escape(a) + spec_escape_char(c));
    } else {
        assert(a.push(c)[0] == a[0]);
        assert(a.push(c).skip(1) =~= a.skip(1).push(c));
        lemma_escape_push(a.skip(1), c);
        assert(spec_escape(a.push(c)) == spec_escape_char(a[0]) + (spec_escape(a.skip(1))
            + spec_escape_char(c)));
        assert(spec_escape_char(a[0]) + (spec_escape(a.skip(1)) + spec_escape_char(c)) =~= (
        spec_escape_char(a[0]) + spec_escape(a.skip(1))) + spec_escape_char(c));
    }
}

fn push_escaped(out: &mut Vec<char>, s: &str)
    ensures
        final(out)@ == old(out)@ + spec_escape(s@),
{
    let n = s.unicode_len();
    let mut i: usize = 0;
    proof {
        assert(s@.take(0) =~= Seq::<char>::empty());
        assert(old(out)@ + spec_escape(s@.take(0)) =~= old(out)@);
    }
    while i < n
        invariant
            0 <= i <= n,
            n == s@.len(),
            out@ == old(out)@ + spec_escape(s@.take(i as int)),
        decreases n - i,
    {
        let c = s.get_char(i);
        push_escaped_char(out, c);
        proof {
            assert(s@.take(i as int).push(s@[i as int]) =~= s@.take(i as int + 1));
            lemma_escape_push(s@.take(i as int), s@[i as int]);
            assert(old(out)@ + spec_escape(s@.take(i as int)) + spec_escape_char(s@[i as int])
                =~= old(out)@ + spec_escape(s@.take(i as int + 1)));
        }
        i = i + 1;
    }
    proof {
        assert(s@.take(n as int) =~= s@);
    }
}

fn push_quoted(out: &mut Vec<char>, s: &str)
    ensures
        final(out)@ == old(out)@ + spec_quote(s@),
{
    out.push('"');
    push_escaped(out, s);
    out.push('"');
    proof {
        assert(out@ =~= old(out)@ + spec_quote(s@));
    }
}

fn push_null(out: &mut Vec<char>)
    ensures
        final(out)@ == old(out)@ + spec_null(),
{
    out.push('n');
    out.push('u');
    out.push('l');
    out.push('l');
    proof {
        assert(out@ =~= old(out)@ + spec_null());
    }
}

pub proof fn lemma_items_push(l: Seq<Seq<char>>, x: Seq<char>)
    ensures
        spec_encode_items(l.push(x)) == if l.len() == 0 {
            spec_quote(x)
        } else {
            spec_encode_items(l) + seq![','] + spec_quote(x)
        },
    decreases l.len(),
{
    if l.len() == 0 {
        assert(l.push(x) =~= seq![x]);
        assert(spec_encode_items(l.push(x)) == spec_quote(x));
    } else {
        assert(l.push(x)[0] == l[0]);
        assert(l.push(x).skip(1) =~= l.skip(1).push(x));
        lemma_items_push(l.skip(1), x);
        if l.len() == 1 {
            assert(l.skip(1).len() == 0);
            assert(spec_encode_items(l.push(x)) =~= spec_encode_items(l) + seq![','] + spec_quote(
                x,
            ));
        } else {
            assert(spec_encode_items(l.push(x)) =~= spec_encode_items(l) + seq![','] + spec_quote(
                x,
            ));
        }
    }
}

fn push_array(out: &mut Vec<char>, l: &Vec<String>)
    ensures
        final(out)@ == old(out)@ + spec_encode_array(l.deep_view()),
{
    let ghost dv = l.deep_view();
    out.push('[');
    let mut i: usize = 0;
    proof {
        assert(dv.take(0) =~= Seq::<Seq<char>>::empty());
        assert(out@ =~= old(out)@ + seq!['['] + spec_encode_items(dv.take(0)));
    }
    while i < l.len()
        invariant
            0 <= i <= l.len(),
            dv == l.deep_view(),
            dv.len() == l@.len(),
            out@ == old(out)@ + seq!['['] + spec_encode_items(dv.take(i as int)),
        decreases l.len() - i,
    {
        if i > 0 {
            out.push(',');
        }
        push_quoted(out, l[i].as_str());
        proof {
            assert(dv[i as int] == l@[i as int]@);
            assert(dv.take(i as int).push(dv[i as int]) =~= dv.take(i as int + 1));
            lemma_items_push(dv.take(i as int), dv[i as int]);
            assert(out@ =~= old(out)@ + seq!['['] + spec_encode_items(dv.take(i as int + 1)));
        }
        i = i + 1;
    }
    out.push(']');
    proof {
        assert(dv.take(l.len() as int) =~= dv);
        assert(out@ =~= old(out)@ + spec_encode_array(dv));
    }
}

/// The wire text of an envelope, exactly [`spec_encode_envelope`] of its
/// shape.
pub fn encode_envelope(e: &Envelope) -> (r: String)
    ensures
        r@ == spec_encode_envelope(e@),
{
    let mut out: Vec<char> = Vec::new();
    out.push('{');
    push_quoted(&mut out, "messageType");
    out.push(':');
    push_quoted(&mut out, e.message_type.as_str());
    out.push(',');
    push_quoted(&mut out, "dataArray");
    out.push(':');
    match &e.data_array {
        Some(l) => push_array(&mut out, l),
        None => push_null(&mut out),
    }
    out.push(',');
    push_quoted(&mut out, "data");
    out.push(':');
    match &e.data {
        Some(s) => push_quoted(&mut out, s.as_str()),
        None => push_null(&mut out),
    }
    out.push('}');
    proof {
        assert(out@ =~= spec_encode_envelope(e@));
    }
    chars_to_string(&out)
}

/// The wire text of a chat payload, exactly [`spec_encode_chat`] of its
/// shape.
pub fn encode_chat_message(m: &ChatMessage) -> (r: String)
    ensures
        r@ == spec_encode_chat(m@),
{
    let mut out: Vec<char> = Vec::new();
    out.push('{');
    push_quoted(&mut out, "from");
    out.push(':');
    push_quoted(&mut out, m.from.as_str());
    out.push(',');
    push_quoted(&mut out, "message");
    out.push(':');
    push_quoted(&mut out, m.message.as_str());
    out.push('}');
    proof {
        assert(out@ =~= spec_encode_chat(m@));
    }
    chars_to_string(&out)
}

// ---------------------------------------------------------------------
// The decoder. Each function mirrors one ghost parsing function and is
// proved to return exactly what that function denotes.
// ---------------------------------------------------------------------

fn is_ws(c: char) -> (r: bool)
    ensures
        r == spec_is_ws(c),
{
    c == ' ' || c == '\t' || c == '\n' || c == '\r'
}

fn unescape_char(c: char) -> (r: Option<char>)
    ensures
        r == spec_unescape_char(c),
{
    if c == '"' {
        Some('"')
    } else if c == '\\' {
        Some('\\')
    } else if c == '/' {
        Some('/')
    } else if c == 'n' {
        Some('\n')
    } else if c == 'r' {
        Some('\r')
    } else if c == 't' {
        Some('\t')
    } else if c == 'b' {
        Some('\u{0008}')
    } else if c == 'f' {
        Some('\u{000c}')
    } else {
        None
    }
}

/// The first position at or after `pos` whose character is not whitespace.
fn skip_ws(v: &Vec<char>, pos: usize) -> (p: usize)
    requires
        pos <= v@.len(),
    ensures
        pos <= p <= v@.len(),
        v@.skip(p as int) == spec_skip_ws(v@.skip(pos as int)),
    decreases v@.len() - pos,
{
    if pos < v.len() && is_ws(v[pos]) {
        proof {
            assert(v@.skip(pos as int)[0] == v@[pos as int]);
            assert(v@.skip(pos as int).skip(1) =~= v@.skip(pos as int + 1));
        }
        skip_ws(v, pos + 1)
    } else {
        proof {
            if pos < v@.len() {
                assert(v@.skip(pos as int)[0] == v@[pos as int]);
            } else {
                assert(v@.skip(pos as int).len() == 0);
            }
        }
        pos
    }
}

fn hex4_at(v: &Vec<char>, pos: usize) -> (r: Option<u32>)
    requires
        pos <= v@.len(),
    ensures
        match r {
            None => spec_hex4_val(v@.skip(pos as int)) is None,
            Some(h) => h < 0x10000 && pos + 4 <= v@.len() && spec_hex4_val(v@.skip(pos as int))
                == Some(h as int),
        },
{
    if v.len() - pos < 4 {
        proof {
            assert(v@.skip(pos as int).len() < 4);
        }
        return None;
    }
    proof {
        assert(v@.skip(pos as int)[0] == v@[pos as int]);
        assert(v@.skip(pos as int)[1] == v@[pos as int + 1]);
        assert(v@.skip(pos as int)[2] == v@[pos as int + 2]);
        assert(v@.skip(pos as int)[3] == v@[pos as int + 3]);
    }
    let a = match hex_val(v[pos]) {
        Some(x) => x,
        None => {
            return None;
        },
    };
    let b = match hex_val(v[pos + 1]) {
        Some(x) => x,
        None => {
            return None;
        },
    };
    let c = match hex_val(v[pos + 2]) {
        Some(x) => x,
        None => {
            return None;
        },
    };
    let d = match hex_val(v[pos + 3]) {
        Some(x) => x,
        None => {
            return None;
        },
    };
    Some(a * 4096 + b * 256 + c * 16 + d)
}

fn parse_string_body(v: &Vec<char>, pos: usize, acc: Vec<char>) -> (r: Option<(Vec<char>, usize)>)
    requires
        pos <= v@.len(),
    ensures
        match r {
            None => spec_parse_string_body(v@.skip(pos as int), acc@) is None,
            Some(vp) => pos < vp.1 <= v@.len() && spec_parse_string_body(
                v@.skip(pos as int),
                acc@,
            ) == Some((vp.0@, v@.skip(vp.1 as int))),
        },
    decreases v@.len() - pos,
{
    if pos >= v.len() {
        proof {
            assert(v@.skip(pos as int).len() == 0);
        }
        return None;
    }
    let c = v[pos];
    proof {
        assert(v@.skip(pos as int)[0] == c);
    }
    if c == '"' {
        proof {
            assert(v@.skip(pos as int).skip(1) =~= v@.skip(pos as int + 1));
        }
        Some((acc, pos + 1))
    } else if c == '\\' {
        if pos + 1 >= v.len() {
            proof {
                assert(v@.skip(pos as int).len() < 2);
            }
            None
        } else {
            let e = v[pos + 1];
            proof {
                assert(v@.skip(pos as int)[1] == e);
                assert(v@.skip(pos as int).skip(2) =~= v@.skip(pos as int + 2));
            }
            if e == 'u' {
                match hex4_at(v, pos + 2) {
                    None => None,
                    Some(h) => {
                        if 0xD800 <= h && h <= 0xDBFF {
                            if v.len() - pos < 8 {
                                proof {
                                    assert(v@.skip(pos as int).len() < 8);
                                }
                                None
                            } else if v[pos + 6] != '\\' || v[pos + 7] != 'u' {
                                proof {
                                    assert(v@.skip(pos as int)[6] == v@[pos as int + 6]);
                                    assert(v@.skip(pos as int)[7] == v@[pos as int + 7]);
                                }
                                None
                            } else {
                                proof {
                                    assert(v@.skip(pos as int)[6] == '\\');
                                    assert(v@.skip(pos as int)[7] == 'u');
                                    assert(v@.skip(pos as int).skip(8) =~= v@.skip(
                                        pos as int + 8,
                                    ));
                                }
                                match hex4_at(v, pos + 8) {
                                    None => None,
                                    Some(l) => {
                                        if 0xDC00 <= l && l <= 0xDFFF {
                                            let combined = 0x10000 + (h - 0xD800) * 1024 + (l
                                                - 0xDC00);
                                            match char::from_u32(combined) {
                                                Some(u) => {
                                                    let mut acc2 = acc;
                                                    acc2.push(u);
                                                    proof {
                                                        vstd::utf8::char_u32_cast(u, combined);
                                                        assert(v@.skip(pos as int).skip(12) =~= v@.skip(pos as int + 12));
                                                    }
                                                    parse_string_body(v, pos + 12, acc2)
                                                },
                                                None => None,
                                            }
                                        } else {
                                            None
                                        }
                                    },
                                }
                            }
                        } else if 0xDC00 <= h && h <= 0xDFFF {
                            None
                        } else {
                            match char::from_u32(h) {
                                Some(u) => {
                                    let mut acc2 = acc;
                                    acc2.push(u);
                                    proof {
                                        vstd::utf8::char_u32_cast(u, h);
                                        assert(v@.skip(pos as int).skip(6) =~= v@.skip(
                                            pos as int + 6,
                                        ));
                                    }
                                    parse_string_body(v, pos + 6, acc2)
                                },
                                None => None,
                            }
                        }
                    },
                }
            } else {
                match unescape_char(e) {
                    None => None,
                    Some(u) => {
                        let mut acc2 = acc;
                        acc2.push(u);
                        parse_string_body(v, pos + 2, acc2)
                    },
                }
            }
        }
    } else {
        let mut acc2 = acc;
        acc2.push(c);
        proof {
            assert(v@.skip(pos as int).skip(1) =~= v@.skip(pos as int + 1));
        }
        parse_string_body(v, pos + 1, acc2)
    }
}

fn parse_string(v: &Vec<char>, pos: usize) -> (r: Option<(Vec<char>, usize)>)
    requires
        pos <= v@.len(),
    ensures
        match r {
            None => spec_parse_string(v@.skip(pos as int)) is None,
            Some(vp) => pos < vp.1 <= v@.len() && spec_parse_string(v@.skip(pos as int)) == Some(
                (vp.0@, v@.skip(vp.1 as int)),
            ),
        },
{
    if pos < v.len() && v[pos] == '"' {
        proof {
            assert(v@.skip(pos as int)[0] == '"');
            assert(v@.skip(pos as int).skip(1) =~= v@.skip(pos as int + 1));
        }
        parse_string_body(v, pos + 1, Vec::new())
    } else {
        proof {
            if pos < v@.len() {
                assert(v@.skip(pos as int)[0] == v@[pos as int]);
            } else {
                assert(v@.skip(pos as int).len() == 0);
            }
        }
        None
    }
}

fn parse_null(v: &Vec<char>, pos: usize) -> (r: Option<usize>)
    requires
        pos <= v@.len(),
    ensures
        match r {
            None => spec_parse_null(v@.skip(pos as int)) is None,
            Some(p) => pos < p <= v@.len() && spec_parse_null(v@.skip(pos as int)) == Some(
                v@.skip(p as int),
            ),
        },
{
    proof {
        if pos as int + 4 <= v@.len() {
            assert(v@.skip(pos as int)[0] == v@[pos as int]);
            assert(v@.skip(pos as int)[1] == v@[pos as int + 1]);
            assert(v@.skip(pos as int)[2] == v@[pos as int + 2]);
            assert(v@.skip(pos as int)[3] == v@[pos as int + 3]);
        }
    }
    if v.len() >= 4 && pos <= v.len() - 4 && v[pos] == 'n' && v[pos + 1] == 'u' && v[pos + 2]
        == 'l' && v[pos + 3] == 'l' {
        proof {
            assert(v@.skip(pos as int).skip(4) =~= v@.skip(pos as int + 4));
        }
        Some(pos + 4)
    } else {
        None
    }
}

fn parse_array_items(v: &Vec<char>, pos: usize, acc: Vec<String>) -> (r: Option<
    (Vec<String>, usize),
>)
    requires
        pos <= v@.len(),
    ensures
        match r {
            None => spec_parse_array_items(v@.skip(pos as int), acc.deep_view()) is None,
            Some(vp) => pos < vp.1 <= v@.len() && spec_parse_array_items(
                v@.skip(pos as int),
                acc.deep_view(),
            ) == Some((vp.0.deep_view(), v@.skip(vp.1 as int))),
        },
    decreases v@.len() - pos,
{
    match parse_string(v, pos) {
        None => None,
        Some((item, p)) => {
            let p1 = skip_ws(v, p);
            if p1 >= v.len() {
                proof {
                    assert(v@.skip(p1 as int).len() == 0);
                }
                None
            } else if v[p1] == ']' {
                proof {
                    assert(v@.skip(p1 as int)[0] == ']');
                    assert(v@.skip(p1 as int).skip(1) =~= v@.skip(p1 as int + 1));
                }
                let mut acc2 = acc;
                acc2.push(chars_to_string(&item));
                proof {
                    assert(acc2.deep_view() =~= acc.deep_view().push(item@));
                }
                Some((acc2, p1 + 1))
            } else if v[p1] == ',' {
                proof {
                    assert(v@.skip(p1 as int)[0] == ',');
                    assert(v@.skip(p1 as int).skip(1) =~= v@.skip(p1 as int + 1));
                }
                let p2 = skip_ws(v, p1 + 1);
                let mut acc2 = acc;
                acc2.push(chars_to_string(&item));
                proof {
                    assert(acc2.deep_view() =~= acc.deep_view().push(item@));
                }
                parse_array_items(v, p2, acc2)
            } else {
                proof {
                    assert(v@.skip(p1 as int)[0] == v@[p1 as int]);
                }
                None
            }
        },
    }
}

fn parse_array(v: &Vec<char>, pos: usize) -> (r: Option<(Vec<String>, usize)>)
    requires
        pos <= v@.len(),
    ensures
        match r {
            None => spec_parse_array(v@.skip(pos as int)) is None,
            Some(vp) => pos < vp.1 <= v@.len() && spec_parse_array(v@.skip(pos as int)) == Some(
                (vp.0.deep_view(), v@.skip(vp.1 as int)),
            ),
        },
{
    if pos >= v.len() || v[pos] != '[' {
        proof {
            if pos < v@.len() {
                assert(v@.skip(pos as int)[0] == v@[pos as int]);
            } else {
                assert(v@.skip(pos as int).len() == 0);
            }
        }
        return None;
    }
    proof {
        assert(v@.skip(pos as int)[0] == '[');
        assert(v@.skip(pos as int).skip(1) =~= v@.skip(pos as int + 1));
    }
    let p1 = skip_ws(v, pos + 1);
    if p1 < v.len() && v[p1] == ']' {
        proof {
            assert(v@.skip(p1 as int)[0] == ']');
            assert(v@.skip(p1 as int).skip(1) =~= v@.skip(p1 as int + 1));
        }
        let items: Vec<String> = Vec::new();
        proof {
            assert(items.deep_view() =~= Seq::<Seq<char>>::empty());
        }
        Some((items, p1 + 1))
    } else {
        let items: Vec<String> = Vec::new();
        proof {
            if p1 < v@.len() {
                assert(v@.skip(p1 as int)[0] == v@[p1 as int]);
            } else {
                assert(v@.skip(p1 as int).len() == 0);
            }
            assert(items.deep_view() =~= Seq::<Seq<char>>::empty());
        }
        parse_array_items(v, p1, items)
    }
}

fn parse_opt_string(v: &Vec<char>, pos: usize) -> (r: Option<(Option<String>, usize)>)
    requires
        pos <= v@.len(),
    ensures
        match r {
            None => spec_parse_opt_string(v@.skip(pos as int)) is None,
            Some(vp) => pos < vp.1 <= v@.len() && spec_parse_opt_string(v@.skip(pos as int))
                == Some((vp.0.deep_view(), v@.skip(vp.1 as int))),
        },
{
    match parse_null(v, pos) {
        Some(p) => Some((None, p)),
        None => match parse_string(v, pos) {
            Some((val, p)) => Some((Some(chars_to_string(&val)), p)),
            None => None,
        },
    }
}

fn parse_opt_array(v: &Vec<char>, pos: usize) -> (r: Option<(Option<Vec<String>>, usize)>)
    requires
        pos <= v@.len(),
    ensures
        match r {
            None => spec_parse_opt_array(v@.skip(pos as int)) is None,
            Some(vp) => pos < vp.1 <= v@.len() && spec_parse_opt_array(v@.skip(pos as int))
                == Some((vp.0.deep_view(), v@.skip(vp.1 as int))),
        },
{
    match parse_null(v, pos) {
        Some(p) => Some((None, p)),
        None => match parse_array(v, pos) {
            Some((val, p)) => Some((Some(val), p)),
            None => None,
        },
    }
}

/// The envelope members parsed so far, as executable values.
struct EnvPartial {
    message_type: Option<String>,
    data: Option<Option<String>>,
    data_array: Option<Option<Vec<String>>>,
}

spec fn env_slots_of(p: EnvPartial) -> EnvSlots {
    EnvSlots {
        message_type: p.message_type.deep_view(),
        data: p.data.deep_view(),
        data_array: p.data_array.deep_view(),
    }
}

fn parse_env_member(v: &Vec<char>, pos: usize, slots: EnvPartial) -> (r: Option<
    (EnvPartial, usize),
>)
    requires
        pos <= v@.len(),
    ensures
        match r {
            None => spec_parse_env_member(v@.skip(pos as int), env_slots_of(slots)) is None,
            Some(vp) => pos < vp.1 <= v@.len() && spec_parse_env_member(
                v@.skip(pos as int),
                env_slots_of(slots),
            ) == Some((env_slots_of(vp.0), v@.skip(vp.1 as int))),
        },
{
    match parse_string(v, pos) {
        None => None,
        Some((k, p)) => {
            let p1 = skip_ws(v, p);
            if p1 >= v.len() {
                proof {
                    assert(v@.skip(p1 as int).len() == 0);
                }
                return None;
            }
            if v[p1] != ':' {
                proof {
                    assert(v@.skip(p1 as int)[0] == v@[p1 as int]);
                }
                return None;
            }
            proof {
                assert(v@.skip(p1 as int)[0] == ':');
                assert(v@.skip(p1 as int).skip(1) =~= v@.skip(p1 as int + 1));
            }
            let p2 = skip_ws(v, p1 + 1);
            if chars_eq_str(&k, "messageType") {
                if slots.message_type.is_some() {
                    None
                } else {
                    match parse_string(v, p2) {
                        None => None,
                        Some((val, p3)) => Some(
                            (
                                EnvPartial {
                                    message_type: Some(chars_to_string(&val)),
                                    data: slots.data,
                                    data_array: slots.data_array,
                                },
                                p3,
                            ),
                        ),
                    }
                }
            } else if chars_eq_str(&k, "data") {
                if slots.data.is_some() {
                    None
                } else {
                    match parse_opt_string(v, p2) {
                        None => None,
                        Some((val, p3)) => Some(
                            (
                                EnvPartial {
                                    message_type: slots.message_type,
                                    data: Some(val),
                                    data_array: slots.data_array,
                                },
                                p3,
                            ),
                        ),
                    }
                }
            } else if chars_eq_str(&k, "dataArray") {
                if slots.data_array.is_some() {
                    None
                } else {
                    match parse_opt_array(v, p2) {
                        None => None,
                        Some((val, p3)) => Some(
                            (
                                EnvPartial {
                                    message_type: slots.message_type,
                                    data: slots.data,
                                    data_array: Some(val),
                                },
                                p3,
                            ),
                        ),
                    }
                }
            } else {
                None
            }
        },
    }
}

fn parse_env_members(v: &Vec<char>, pos: usize, slots: EnvPartial) -> (r: Option<
    (EnvPartial, usize),
>)
    requires
        pos <= v@.len(),
    ensures
        match r {
            None => spec_parse_env_members(v@.skip(pos as int), env_slots_of(slots)) is None,
            Some(vp) => pos < vp.1 <= v@.len() && spec_parse_env_members(
                v@.skip(pos as int),
                env_slots_of(slots),
            ) == Some((env_slots_of(vp.0), v@.skip(vp.1 as int))),
        },
    decreases v@.len() - pos,
{
    match parse_env_member(v, pos, slots) {
        None => None,
        Some((sl, p)) => {
            let p1 = skip_ws(v, p);
            if p1 >= v.len() {
                proof {
                    assert(v@.skip(p1 as int).len() == 0);
                }
                None
            } else if v[p1] == '}' {
                proof {
                    assert(v@.skip(p1 as int)[0] == '}');
                    assert(v@.skip(p1 as int).skip(1) =~= v@.skip(p1 as int + 1));
                }
                Some((sl, p1 + 1))
            } else if v[p1] == ',' {
                proof {
                    assert(v@.skip(p1 as int)[0] == ',');
                    assert(v@.skip(p1 as int).skip(1) =~= v@.skip(p1 as int + 1));
                }
                let p2 = skip_ws(v, p1 + 1);
                parse_env_members(v, p2, sl)
            } else {
                proof {
                    assert(v@.skip(p1 as int)[0] == v@[p1 as int]);
                }
                None
            }
        },
    }
}

/// Decodes one frame into an envelope; `None` exactly when
/// [`spec_decode_envelope`] rejects the text.
pub fn decode_envelope(frame: &str) -> (r: Option<Envelope>)
    ensures
        match r {
            None => spec_decode_envelope(frame@) is None,
            Some(e) => spec_decode_envelope(frame@) == Some(e@),
        },
{
    let v = str_to_chars(frame);
    proof {
        assert(v@.skip(0) =~= v@);
    }
    let t = skip_ws(&v, 0);
    if t >= v.len() || v[t] != '{' {
        proof {
            if t < v@.len() {
                assert(v@.skip(t as int)[0] == v@[t as int]);
            } else {
                assert(v@.skip(t as int).len() == 0);
            }
        }
        return None;
    }
    proof {
        assert(v@.skip(t as int)[0] == '{');
        assert(v@.skip(t as int).skip(1) =~= v@.skip(t as int + 1));
    }
    let r0 = skip_ws(&v, t + 1);
    let empty = EnvPartial { message_type: None, data: None, data_array: None };
    match parse_env_members(&v, r0, empty) {
        None => None,
        Some((sl, rest)) => {
            let r1 = skip_ws(&v, rest);
            if r1 < v.len() {
                proof {
                    assert(v@.skip(r1 as int).len() != 0);
                }
                return None;
            }
            proof {
                assert(v@.skip(r1 as int).len() == 0);
            }
            match sl.message_type {
                None => None,
                Some(mt) => Some(
                    Envelope {
                        message_type: mt,
                        data: match sl.data {
                            Some(d) => d,
                            None => None,
                        },
                        data_array: match sl.data_array {
                            Some(a) => a,
                            None => None,
                        },
                    },
                ),
            }
        },
    }
}

/// The chat-payload members parsed so far, as executable values.
struct MsgPartial {
    from: Option<String>,
    message: Option<String>,
}

spec fn msg_slots_of(p: MsgPartial) -> MsgSlots {
    MsgSlots { from: p.from.deep_view(), message: p.message.deep_view() }
}

fn parse_msg_member(v: &Vec<char>, pos: usize, slots: MsgPartial) -> (r: Option<
    (MsgPartial, usize),
>)
    requires
        pos <= v@.len(),
    ensures
        match r {
            None => spec_parse_msg_member(v@.skip(pos as int), msg_slots_of(slots)) is None,
            Some(vp) => pos < vp.1 <= v@.len() && spec_parse_msg_member(
                v@.skip(pos as int),
                msg_slots_of(slots),
            ) == Some((msg_slots_of(vp.0), v@.skip(vp.1 as int))),
        },
{
    match parse_string(v, pos) {
        None => None,
        Some((k, p)) => {
            let p1 = skip_ws(v, p);
            if p1 >= v.len() {
                proof {
                    assert(v@.skip(p1 as int).len() == 0);
                }
                return None;
            }
            if v[p1] != ':' {
                proof {
                    assert(v@.skip(p1 as int)[0] == v@[p1 as int]);
                }
                return None;
            }
            proof {
                assert(v@.skip(p1 as int)[0] == ':');
                assert(v@.skip(p1 as int).skip(1) =~= v@.skip(p1 as int + 1));
            }
            let p2 = skip_ws(v, p1 + 1);
            if chars_eq_str(&k, "from") {
                if slots.from.is_some() {
                    None
                } else {
                    match parse_string(v, p2) {
                        None => None,
                        Some((val, p3)) => Some(
                            (
                                MsgPartial {
                                    from: Some(chars_to_string(&val)),
                                    message: slots.message,
                                },
                                p3,
                            ),
                        ),
                    }
                }
            } else if chars_eq_str(&k, "message") {
                if slots.message.is_some() {
                    None
                } else {
                    match parse_string(v, p2) {
                        None => None,
                        Some((val, p3)) => Some(
                            (
                                MsgPartial { from: slots.from, message: Some(chars_to_string(&val)) },
                                p3,
                            ),
                        ),
                    }
                }
            } else {
                None
            }
        },
    }
}

fn parse_msg_members(v: &Vec<char>, pos: usize, slots: MsgPartial) -> (r: Option<
    (MsgPartial, usize),
>)
    requires
        pos <= v@.len(),
    ensures
        match r {
            None => spec_parse_msg_members(v@.skip(pos as int), msg_slots_of(slots)) is None,
            Some(vp) => pos < vp.1 <= v@.len() && spec_parse_msg_members(
                v@.skip(pos as int),
                msg_slots_of(slots),
            ) == Some((msg_slots_of(vp.0), v@.skip(vp.1 as int))),
        },
    decreases v@.len() - pos,
{
    match parse_msg_member(v, pos, slots) {
        None => None,
        Some((sl, p)) => {
            let p1 = skip_ws(v, p);
            if p1 >= v.len() {
                proof {
                    assert(v@.skip(p1 as int).len() == 0);
                }
                None
            } else if v[p1] == '}' {
                proof {
                    assert(v@.skip(p1 as int)[0] == '}');
                    assert(v@.skip(p1 as int).skip(1) =~= v@.skip(p1 as int + 1));
                }
                Some((sl, p1 + 1))
            } else if v[p1] == ',' {
                proof {
                    assert(v@.skip(p1 as int)[0] == ',');
                    assert(v@.skip(p1 as int).skip(1) =~= v@.skip(p1 as int + 1));
                }
                let p2 = skip_ws(v, p1 + 1);
                parse_msg_members(v, p2, sl)
            } else {
                proof {
                    assert(v@.skip(p1 as int)[0] == v@[p1 as int]);
                }
                None
            }
        },
    }
}

/// Decodes the nested payload of a `Message` envelope; `None` exactly when
/// [`spec_decode_chat`] rejects the text.
pub fn decode_chat_message(text: &str) -> (r: Option<ChatMessage>)
    ensures
        match r {
            None => spec_decode_chat(text@) is None,
            Some(m) => spec_decode_chat(text@) == Some(m@),
        },
{
    let v = str_to_chars(text);
    proof {
        assert(v@.skip(0) =~= v@);
    }
    let t = skip_ws(&v, 0);
    if t >= v.len() || v[t] != '{' {
        proof {
            if t < v@.len() {
                assert(v@.skip(t as int)[0] == v@[t as int]);
            } else {
                assert(v@.skip(t as int).len() == 0);
            }
        }
        return None;
    }
    proof {
        assert(v@.skip(t as int)[0] == '{');
        assert(v@.skip(t as int).skip(1) =~= v@.skip(t as int + 1));
    }
    let r0 = skip_ws(&v, t + 1);
    let empty = MsgPartial { from: None, message: None };
    match parse_msg_members(&v, r0, empty) {
        None => None,
        Some((sl, rest)) => {
            let r1 = skip_ws(&v, rest);
            if r1 < v.len() {
                proof {
                    assert(v@.skip(r1 as int).len() != 0);
                }
                return None;
            }
            proof {
                assert(v@.skip(r1 as int).len() == 0);
            }
            match (sl.from, sl.message) {
                (Some(f), Some(m)) => Some(ChatMessage { from: f, message: m }),
                _ => None,
            }
        },
    }
}

// ---------------------------------------------------------------------
// The round trip: whatever the encoder emits, the decoder reads back as
// exactly the value that went in.
// ---------------------------------------------------------------------

proof fn lemma_hex_digit_val(n: int)
    requires
        0 <= n < 16,
    ensures
        spec_hex_val(spec_hex_digit(n)) == Some(n),
{
}

#[verifier::rlimit(100)]
proof fn lemma_parse_escaped_body(v: Seq<char>, acc: Seq<char>, rest: Seq<char>)
    ensures
        spec_parse_string_body(spec_escape(v) + seq!['"'] + rest, acc) == Some((acc + v, rest)),
    decreases v.len(),
{
    let s = spec_escape(v) + seq!['"'] + rest;
    if v.len() == 0 {
        assert(spec_escape(v) =~= Seq::<char>::empty());
        assert(s[0] == '"');
        assert(s.skip(1) =~= rest);
        assert(acc + v =~= acc);
    } else {
        let c = v[0];
        let tail = spec_escape(v.skip(1)) + seq!['"'] + rest;
        assert(spec_escape(v) == spec_escape_char(c) + spec_escape(v.skip(1)));
        assert(s =~= spec_escape_char(c) + tail);
        lemma_parse_escaped_body(v.skip(1), acc.push(c), rest);
        assert(acc.push(c) + v.skip(1) =~= acc + v);
        if c == '"' || c == '\\' || c == '\n' || c == '\r' || c == '\t' || c == '\u{0008}' || c
            == '\u{000c}' {
            assert(s[0] == '\\');
            assert(s[1] != 'u');
            assert(spec_unescape_char(s[1]) == Some(c));
            assert(s.skip(2) =~= tail);
        } else if (c as u32) < 0x20 {
            let cv = (c as u32) as int;
            assert(s[0] == '\\');
            assert(s[1] == 'u');
            assert(s[2] == '0');
            assert(s[3] == '0');
            assert(s[4] == spec_hex_digit(cv / 16));
            assert(s[5] == spec_hex_digit(cv % 16));
            lemma_hex_digit_val(cv / 16);
            lemma_hex_digit_val(cv % 16);
            assert(s.skip(2)[0] == s[2] && s.skip(2)[1] == s[3] && s.skip(2)[2] == s[4] && s.skip(
                2,
            )[3] == s[5]);
            assert(cv / 16 * 16 + cv % 16 == cv);
            assert(spec_hex4_val(s.skip(2)) == Some(cv));
            assert(spec_char_of(cv) == c) by {
                vstd::utf8::char_u32_cast(c, c as u32);
            }
            assert(s.skip(6) =~= tail);
        } else {
            assert(spec_escape_char(c) =~= seq![c]);
            assert(s[0] == c);
            assert(s.skip(1) =~= tail);
        }
    }
}

proof fn lemma_parse_quoted(v: Seq<char>, rest: Seq<char>)
    ensures
        spec_parse_string(spec_quote(v) + rest) == Some((v, rest)),
{
    let s = spec_quote(v) + rest;
    assert(s[0] == '"');
    assert(s.skip(1) =~= spec_escape(v) + seq!['"'] + rest);
    lemma_parse_escaped_body(v, Seq::empty(), rest);
    assert(Seq::<char>::empty() + v =~= v);
}

proof fn lemma_parse_encoded_null(rest: Seq<char>)
    ensures
        spec_parse_null(spec_null() + rest) == Some(rest),
{
    let s = spec_null() + rest;
    assert(s[0] == 'n' && s[1] == 'u' && s[2] == 'l' && s[3] == 'l');
    assert(s.skip(4) =~= rest);
}

#[verifier::rlimit(100)]
proof fn lemma_parse_encoded_items(l: Seq<Seq<char>>, acc: Seq<Seq<char>>, rest: Seq<char>)
    requires
        l.len() > 0,
    ensures
        spec_parse_array_items(spec_encode_items(l) + seq![']'] + rest, acc) == Some(
            (acc + l, rest),
        ),
    decreases l.len(),
{
    let s = spec_encode_items(l) + seq![']'] + rest;
    if l.len() == 1 {
        let r = seq![']'] + rest;
        assert(s =~= spec_quote(l[0]) + r);
        lemma_parse_quoted(l[0], r);
        assert(r[0] == ']');
        assert(r.skip(1) =~= rest);
        assert(acc.push(l[0]) =~= acc + l);
    } else {
        let r = seq![','] + (spec_encode_items(l.skip(1)) + seq![']'] + rest);
        assert(s =~= spec_quote(l[0]) + r);
        lemma_parse_quoted(l[0], r);
        assert(r[0] == ',');
        assert(r.skip(1) =~= spec_encode_items(l.skip(1)) + seq![']'] + rest);
        lemma_parse_encoded_items(l.skip(1), acc.push(l[0]), rest);
        assert(acc.push(l[0]) + l.skip(1) =~= acc + l);
    }
}

proof fn lemma_parse_encoded_array(l: Seq<Seq<char>>, rest: Seq<char>)
    ensures
        spec_parse_array(spec_encode_array(l) + rest) == Some((l, rest)),
{
    let s = spec_encode_array(l) + rest;
    assert(s[0] == '[');
    if l.len() == 0 {
        assert(spec_encode_items(l) =~= Seq::<char>::empty());
        assert(s.skip(1) =~= seq![']'] + rest);
        assert(s.skip(1)[0] == ']');
        assert(s.skip(1).skip(1) =~= rest);
        assert(l =~= Seq::<Seq<char>>::empty());
    } else {
        assert(s.skip(1) =~= spec_encode_items(l) + seq![']'] + rest);
        if l.len() == 1 {
            assert(s.skip(1)[0] == '"');
        } else {
            assert(s.skip(1)[0] == '"');
        }
        lemma_parse_encoded_items(l, Seq::empty(), rest);
        assert(Seq::<Seq<char>>::empty() + l =~= l);
    }
}

proof fn lemma_parse_encoded_opt_string(o: Option<Seq<char>>, rest: Seq<char>)
    ensures
        spec_parse_opt_string(spec_encode_opt_string(o) + rest) == Some((o, rest)),
{
    let s = spec_encode_opt_string(o) + rest;
    match o {
        None => {
            lemma_parse_encoded_null(rest);
        },
        Some(v) => {
            assert(s[0] == '"');
            lemma_parse_quoted(v, rest);
        },
    }
}

proof fn lemma_parse_encoded_opt_array(o: Option<Seq<Seq<char>>>, rest: Seq<char>)
    ensures
        spec_parse_opt_array(spec_encode_opt_array(o) + rest) == Some((o, rest)),
{
    let s = spec_encode_opt_array(o) + rest;
    match o {
        None => {
            lemma_parse_encoded_null(rest);
        },
        Some(l) => {
            assert(s[0] == '[');
            lemma_parse_encoded_array(l, rest);
        },
    }
}

/// The three member names are pairwise distinct; their lengths already
/// differ.
proof fn lemma_envelope_keys_distinct()
    ensures
        "messageType"@ != "dataArray"@,
        "messageType"@ != "data"@,
        "dataArray"@ != "data"@,
{
    reveal_strlit("messageType");
    reveal_strlit("dataArray");
    reveal_strlit("data");
    assert("messageType"@.len() == 11);
    assert("dataArray"@.len() == 9);
    assert("data"@.len() == 4);
}

proof fn lemma_parse_member_message_type(mt: Seq<char>, slots: EnvSlots, rest: Seq<char>)
    requires
        slots.message_type is None,
    ensures
        spec_parse_env_member(
            spec_quote("messageType"@) + (seq![':'] + (spec_quote(mt) + rest)),
            slots,
        ) == Some(
            (
                EnvSlots {
                    message_type: Some(mt),
                    data: slots.data,
                    data_array: slots.data_array,
                },
                rest,
            ),
        ),
{
    let s2 = seq![':'] + (spec_quote(mt) + rest);
    lemma_parse_quoted("messageType"@, s2);
    assert(s2[0] == ':');
    assert(s2.skip(1) =~= spec_quote(mt) + rest);
    assert((spec_quote(mt) + rest)[0] == '"');
    lemma_parse_quoted(mt, rest);
}

proof fn lemma_parse_member_data_array(
    o: Option<Seq<Seq<char>>>,
    slots: EnvSlots,
    rest: Seq<char>,
)
    requires
        slots.data_array is None,
    ensures
        spec_parse_env_member(
            spec_quote("dataArray"@) + (seq![':'] + (spec_encode_opt_array(o) + rest)),
            slots,
        ) == Some(
            (
                EnvSlots {
                    message_type: slots.message_type,
                    data: slots.data,
                    data_array: Some(o),
                },
                rest,
            ),
        ),
{
    lemma_envelope_keys_distinct();
    let s2 = seq![':'] + (spec_encode_opt_array(o) + rest);
    lemma_parse_quoted("dataArray"@, s2);
    assert(s2[0] == ':');
    assert(s2.skip(1) =~= spec_encode_opt_array(o) + rest);
    match o {
        None => assert((spec_encode_opt_array(o) + rest)[0] == 'n'),
        Some(l) => assert((spec_encode_opt_array(o) + rest)[0] == '['),
    }
    lemma_parse_encoded_opt_array(o, rest);
}

proof fn lemma_parse_member_data(o: Option<Seq<char>>, slots: EnvSlots, rest: Seq<char>)
    requires
        slots.data is None,
    ensures
        spec_parse_env_member(
            spec_quote("data"@) + (seq![':'] + (spec_encode_opt_string(o) + rest)),
            slots,
        ) == Some(
            (
                EnvSlots {
                    message_type: slots.message_type,
                    data: Some(o),
                    data_array: slots.data_array,
                },
                rest,
            ),
        ),
{
    lemma_envelope_keys_distinct();
    let s2 = seq![':'] + (spec_encode_opt_string(o) + rest);
    lemma_parse_quoted("data"@, s2);
    assert(s2[0] == ':');
    assert(s2.skip(1) =~= spec_encode_opt_string(o) + rest);
    match o {
        None => assert((spec_encode_opt_string(o) + rest)[0] == 'n'),
        Some(v) => assert((spec_encode_opt_string(o) + rest)[0] == '"'),
    }
    lemma_parse_encoded_opt_string(o, rest);
}

/// The members of an envelope's wire text, grouped member by member as the
/// round-trip proof walks them.
spec fn spec_env_members_text(e: EnvelopeView) -> Seq<char> {
    spec_quote("messageType"@) + (seq![':'] + (spec_quote(e.message_type) + (seq![','] + (
    spec_quote("dataArray"@) + (seq![':'] + (spec_encode_opt_array(e.data_array) + (seq![','] + (
    spec_quote("data"@) + (seq![':'] + (spec_encode_opt_string(e.data) + seq!['}']))))))))))
}

/// The encoder's envelope text is the opening brace followed by the
/// members, regrouped.
#[verifier::rlimit(100)]
proof fn lemma_encode_envelope_shape(e: EnvelopeView)
    ensures
        spec_encode_envelope(e) == seq!['{'] + spec_env_members_text(e),
{
    assert(spec_encode_envelope(e) =~= seq!['{'] + spec_env_members_text(e));
}

/// Walking the three members of an encoded envelope fills all three slots
/// and consumes everything through the closing brace.
#[verifier::rlimit(100)]
proof fn lemma_parse_encoded_env_members(e: EnvelopeView)
    ensures
        spec_parse_env_members(
            spec_env_members_text(e),
            EnvSlots { message_type: None, data: None, data_array: None },
        ) == Some(
            (
                EnvSlots {
                    message_type: Some(e.message_type),
                    data: Some(e.data),
                    data_array: Some(e.data_array),
                },
                Seq::<char>::empty(),
            ),
        ),
{
    let s12 = seq!['}'];
    let s9 = spec_quote("data"@) + (seq![':'] + (spec_encode_opt_string(e.data) + s12));
    let s8 = seq![','] + s9;
    let s5 = spec_quote("dataArray"@) + (seq![':'] + (spec_encode_opt_array(e.data_array) + s8));
    let s4 = seq![','] + s5;
    let s1 = spec_env_members_text(e);
    let slots0 = EnvSlots { message_type: None, data: None, data_array: None };
    let slots1 = EnvSlots { message_type: Some(e.message_type), data: None, data_array: None };
    let slots2 = EnvSlots {
        message_type: Some(e.message_type),
        data: None,
        data_array: Some(e.data_array),
    };
    let slots3 = EnvSlots {
        message_type: Some(e.message_type),
        data: Some(e.data),
        data_array: Some(e.data_array),
    };
    lemma_parse_member_message_type(e.message_type, slots0, s4);
    assert(s4[0] == ',');
    assert(s4.skip(1) =~= s5);
    assert(s5[0] == '"');
    lemma_parse_member_data_array(e.data_array, slots1, s8);
    assert(s8[0] == ',');
    assert(s8.skip(1) =~= s9);
    assert(s9[0] == '"');
    lemma_parse_member_data(e.data, slots2, s12);
    assert(s12[0] == '}');
    assert(s12.skip(1) =~= Seq::<char>::empty());

    // The members, chained back to front.
    assert(spec_parse_env_members(s9, slots2) == Some((slots3, s12.skip(1))));
    assert(spec_parse_env_members(s5, slots1) == Some((slots3, s12.skip(1))));
    assert(spec_parse_env_members(s1, slots0) == Some((slots3, s12.skip(1))));
}

/// Decoding inverts encoding: every envelope comes back from its own wire
/// text exactly as it went in.
#[verifier::rlimit(100)]
pub proof fn lemma_decode_encode_envelope(e: EnvelopeView)
    ensures
        spec_decode_envelope(spec_encode_envelope(e)) == Some(e),
{
    let s = spec_encode_envelope(e);
    let s1 = spec_env_members_text(e);
    lemma_encode_envelope_shape(e);
    assert(s[0] == '{');
    assert(s.skip(1) =~= s1);
    assert(s1[0] == '"');
    lemma_parse_encoded_env_members(e);
    assert(spec_skip_ws(Seq::<char>::empty()).len() == 0);
}

/// The two payload member names are distinct; their lengths already
/// differ.
proof fn lemma_chat_keys_distinct()
    ensures
        "from"@ != "message"@,
{
    reveal_strlit("from");
    reveal_strlit("message");
    assert("from"@.len() == 4);
    assert("message"@.len() == 7);
}

proof fn lemma_parse_member_from(f: Seq<char>, slots: MsgSlots, rest: Seq<char>)
    requires
        slots.from is None,
    ensures
        spec_parse_msg_member(
            spec_quote("from"@) + (seq![':'] + (spec_quote(f) + rest)),
            slots,
        ) == Some((MsgSlots { from: Some(f), message: slots.message }, rest)),
{
    let s2 = seq![':'] + (spec_quote(f) + rest);
    lemma_parse_quoted("from"@, s2);
    assert(s2[0] == ':');
    assert(s2.skip(1) =~= spec_quote(f) + rest);
    assert((spec_quote(f) + rest)[0] == '"');
    lemma_parse_quoted(f, rest);
}

proof fn lemma_parse_member_message(t: Seq<char>, slots: MsgSlots, rest: Seq<char>)
    requires
        slots.message is None,
    ensures
        spec_parse_msg_member(
            spec_quote("message"@) + (seq![':'] + (spec_quote(t) + rest)),
            slots,
        ) == Some((MsgSlots { from: slots.from, message: Some(t) }, rest)),
{
    lemma_chat_keys_distinct();
    let s2 = seq![':'] + (spec_quote(t) + rest);
    lemma_parse_quoted("message"@, s2);
    assert(s2[0] == ':');
    assert(s2.skip(1) =~= spec_quote(t) + rest);
    assert((spec_quote(t) + rest)[0] == '"');
    lemma_parse_quoted(t, rest);
}

/// Decoding inverts encoding for the nested chat payload as well.
#[verifier::rlimit(100)]
pub proof fn lemma_decode_encode_chat(m: MessageView)
    ensures
        spec_decode_chat(spec_encode_chat(m)) == Some(m),
{
    let s = spec_encode_chat(m);
    let u8r = seq!['}'];
    let u5 = spec_quote("message"@) + (seq![':'] + (spec_quote(m.message) + u8r));
    let u4 = seq![','] + u5;
    let u1 = spec_quote("from"@) + (seq![':'] + (spec_quote(m.from) + u4));
    assert(s =~= seq!['{'] + u1);
    assert(s[0] == '{');
    assert(s.skip(1) =~= u1);
    assert(u1[0] == '"');
    let slots0 = MsgSlots { from: None, message: None };
    let slots1 = MsgSlots { from: Some(m.from), message: None };
    let slots2 = MsgSlots { from: Some(m.from), message: Some(m.message) };
    lemma_parse_member_from(m.from, slots0, u4);
    assert(u4[0] == ',');
    assert(u4.skip(1) =~= u5);
    assert(u5[0] == '"');
    lemma_parse_member_message(m.message, slots1, u8r);
    assert(u8r[0] == '}');
    assert(u8r.skip(1) =~= Seq::<char>::empty());

    assert(spec_parse_msg_members(u5, slots1) == Some((slots2, u8r.skip(1))));
    assert(spec_parse_msg_members(u1, slots0) == Some((slots2, u8r.skip(1))));
    assert(spec_skip_ws(u8r.skip(1)).len() == 0);
}

} // verus!
