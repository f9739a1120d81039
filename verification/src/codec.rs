//! The wire codec: what sequence of characters a frame is, as a grammar of
//! specification functions, and the verified encoder and decoder.
//!
//! A frame is a JSON-shaped object holding exactly the protocol's members:
//! `"messageType"` (a string naming the tag), `"dataArray"` (a string array
//! or `null`) and `"data"` (a string or `null`), in any order, each at most
//! once, with whitespace allowed between tokens. Strings accept the escapes
//! `\" \\ \/ \b \f \n \r \t`; any other escape is rejected.

use vstd::prelude::*;
use crate::wire::{MessageData, MsgTypes, ProtocolDecodeError, SpecFrame, SpecPayload, WebSocketMessage};

verus! {

// ---------------------------------------------------------------------------
// Lexical pieces.
// ---------------------------------------------------------------------------

/// JSON insignificant whitespace.
pub open spec fn is_ws(c: char) -> bool {
    c == ' ' || c == '\t' || c == '\n' || c == '\r'
}

/// The first position at or after `i` holding no whitespace.
pub open spec fn skip_ws(s: Seq<char>, i: int) -> int
    decreases s.len() - i when 0 <= i <= s.len()
{
    if i < s.len() && is_ws(s[i]) {
        skip_ws(s, i + 1)
    } else {
        i
    }
}

pub proof fn lemma_skip_ws(s: Seq<char>, i: int)
    requires
        0 <= i <= s.len(),
    ensures
        i <= skip_ws(s, i) <= s.len(),
    decreases s.len() - i,
{
    if i < s.len() && is_ws(s[i]) {
        lemma_skip_ws(s, i + 1);
    }
}

/// The character an escape code stands for, if the code is accepted.
pub open spec fn unescape(c: char) -> Option<char> {
    if c == '"' {
        Option::Some('"')
    } else if c == '\\' {
        Option::Some('\\')
    } else if c == '/' {
        Option::Some('/')
    } else if c == 'n' {
        Option::Some('\n')
    } else if c == 't' {
        Option::Some('\t')
    } else if c == 'r' {
        Option::Some('\r')
    } else if c == 'b' {
        Option::Some('\u{0008}')
    } else if c == 'f' {
        Option::Some('\u{000C}')
    } else {
        Option::None
    }
}

/// How one character is written inside an encoded string: quotes and
/// backslashes are escaped, everything else stands for itself.
pub open spec fn escape_char(c: char) -> Seq<char> {
    if c == '"' {
        seq!['\\', '"']
    } else if c == '\\' {
        seq!['\\', '\\']
    } else {
        seq![c]
    }
}

/// The body of an encoded string.
pub open spec fn escape_str(s: Seq<char>) -> Seq<char>
    decreases s.len(),
{
    if s.len() == 0 {
        Seq::empty()
    } else {
        escape_char(s[0]) + escape_str(s.drop_first())
    }
}

/// A string as it appears on the wire: quoted and escaped.
pub open spec fn encode_string(s: Seq<char>) -> Seq<char> {
    seq!['"'] + escape_str(s) + seq!['"']
}

/// The four characters of the `null` literal.
pub open spec fn null_chars() -> Seq<char> {
    seq!['n', 'u', 'l', 'l']
}

/// True when the `null` literal stands at position `i`.
pub open spec fn is_null_at(s: Seq<char>, i: int) -> bool {
    0 <= i && i + 4 <= s.len() && s[i] == 'n' && s[i + 1] == 'u' && s[i + 2] == 'l' && s[i + 3]
        == 'l'
}

// ---------------------------------------------------------------------------
// Member keys and tag names.
// ---------------------------------------------------------------------------

pub open spec fn key_message_type() -> Seq<char> {
    "messageType"@
}

pub open spec fn key_data_array() -> Seq<char> {
    "dataArray"@
}

pub open spec fn key_data() -> Seq<char> {
    "data"@
}

pub open spec fn key_from() -> Seq<char> {
    "from"@
}

pub open spec fn key_message() -> Seq<char> {
    "message"@
}

/// The lowercase wire name of each tag.
pub open spec fn tag_name(t: MsgTypes) -> Seq<char> {
    match t {
        MsgTypes::Users => "users"@,
        MsgTypes::Register => "register"@,
        MsgTypes::Message => "message"@,
    }
}

/// The tag a wire name stands for, if any.
pub open spec fn tag_of_name(s: Seq<char>) -> Option<MsgTypes> {
    if s == "users"@ {
        Option::Some(MsgTypes::Users)
    } else if s == "register"@ {
        Option::Some(MsgTypes::Register)
    } else if s == "message"@ {
        Option::Some(MsgTypes::Message)
    } else {
        Option::None
    }
}

// ---------------------------------------------------------------------------
// The string and array grammar.
// ---------------------------------------------------------------------------

/// Parses the interior of a string starting at `i` (just past the opening
/// quote), through the closing quote. Returns the decoded characters and the
/// position just past the closing quote.
pub open spec fn parse_string_body(s: Seq<char>, i: int) -> Option<(Seq<char>, int)>
    decreases s.len() - i when 0 <= i <= s.len()
{
    if i >= s.len() {
        Option::None
    } else if s[i] == '"' {
        Option::Some((Seq::empty(), i + 1))
    } else if s[i] == '\\' {
        if i + 1 < s.len() {
            match unescape(s[i + 1]) {
                Option::Some(c) => match parse_string_body(s, i + 2) {
                    Option::Some(r) => Option::Some((seq![c] + r.0, r.1)),
                    Option::None => Option::None,
                },
                Option::None => Option::None,
            }
        } else {
            Option::None
        }
    } else {
        match parse_string_body(s, i + 1) {
            Option::Some(r) => Option::Some((seq![s[i]] + r.0, r.1)),
            Option::None => Option::None,
        }
    }
}

pub proof fn lemma_parse_string_body(s: Seq<char>, i: int)
    requires
        0 <= i <= s.len(),
    ensures
        match parse_string_body(s, i) {
            Option::Some(r) => i < r.1 <= s.len(),
            Option::None => true,
        },
    decreases s.len() - i,
{
    if i >= s.len() {
    } else if s[i] == '"' {
    } else if s[i] == '\\' {
        if i + 1 < s.len() {
            lemma_parse_string_body(s, i + 2);
        }
    } else {
        lemma_parse_string_body(s, i + 1);
    }
}

/// Parses a quoted string whose opening quote stands at `i`.
pub open spec fn parse_string(s: Seq<char>, i: int) -> Option<(Seq<char>, int)> {
    if 0 <= i < s.len() && s[i] == '"' {
        parse_string_body(s, i + 1)
    } else {
        Option::None
    }
}

pub proof fn lemma_parse_string(s: Seq<char>, i: int)
    requires
        0 <= i <= s.len(),
    ensures
        match parse_string(s, i) {
            Option::Some(r) => i < r.1 <= s.len(),
            Option::None => true,
        },
{
    if 0 <= i < s.len() && s[i] == '"' {
        lemma_parse_string_body(s, i + 1);
    }
}

/// Parses the continuation of an array: either the closing bracket, or a
/// comma followed by another string element.
pub open spec fn parse_array_rest(s: Seq<char>, i: int) -> Option<(Seq<Seq<char>>, int)>
    decreases s.len() - i when 0 <= i <= s.len()
{
    let k = skip_ws(s, i);
    proof {
        lemma_skip_ws(s, i);
    }
    if k < s.len() && s[k] == ']' {
        Option::Some((Seq::empty(), k + 1))
    } else if k < s.len() && s[k] == ',' {
        let j = skip_ws(s, k + 1);
        proof {
            lemma_skip_ws(s, k + 1);
        }
        match parse_string(s, j) {
            Option::Some(r) => {
                proof {
                    lemma_parse_string(s, j);
                }
                match parse_array_rest(s, r.1) {
                    Option::Some(q) => Option::Some((seq![r.0] + q.0, q.1)),
                    Option::None => Option::None,
                }
            },
            Option::None => Option::None,
        }
    } else {
        Option::None
    }
}

pub proof fn lemma_parse_array_rest(s: Seq<char>, i: int)
    requires
        0 <= i <= s.len(),
    ensures
        match parse_array_rest(s, i) {
            Option::Some(r) => i < r.1 <= s.len(),
            Option::None => true,
        },
    decreases s.len() - i,
{
    let k = skip_ws(s, i);
    lemma_skip_ws(s, i);
    if k < s.len() && s[k] == ']' {
    } else if k < s.len() && s[k] == ',' {
        let j = skip_ws(s, k + 1);
        lemma_skip_ws(s, k + 1);
        match parse_string(s, j) {
            Option::Some(r) => {
                lemma_parse_string(s, j);
                lemma_parse_array_rest(s, r.1);
            },
            Option::None => {},
        }
    }
}

/// Parses a string array whose opening bracket stands at `i`.
pub open spec fn parse_array(s: Seq<char>, i: int) -> Option<(Seq<Seq<char>>, int)> {
    if 0 <= i < s.len() && s[i] == '[' {
        let j = skip_ws(s, i + 1);
        if j < s.len() && s[j] == ']' {
            Option::Some((Seq::empty(), j + 1))
        } else {
            match parse_string(s, j) {
                Option::Some(r) => match parse_array_rest(s, r.1) {
                    Option::Some(q) => Option::Some((seq![r.0] + q.0, q.1)),
                    Option::None => Option::None,
                },
                Option::None => Option::None,
            }
        }
    } else {
        Option::None
    }
}

pub proof fn lemma_parse_array(s: Seq<char>, i: int)
    requires
        0 <= i <= s.len(),
    ensures
        match parse_array(s, i) {
            Option::Some(r) => i < r.1 <= s.len(),
            Option::None => true,
        },
{
    if 0 <= i < s.len() && s[i] == '[' {
        let j = skip_ws(s, i + 1);
        lemma_skip_ws(s, i + 1);
        if j < s.len() && s[j] == ']' {
        } else {
            lemma_parse_string(s, j);
            match parse_string(s, j) {
                Option::Some(r) => {
                    lemma_parse_array_rest(s, r.1);
                },
                Option::None => {},
            }
        }
    }
}

/// A member's value: a string, a string array, or `null`.
pub enum WireValue {
    VStr(Seq<char>),
    VArr(Seq<Seq<char>>),
    VNull,
}

/// Parses a member value standing at `i`.
pub open spec fn parse_value(s: Seq<char>, i: int) -> Option<(WireValue, int)> {
    if 0 <= i < s.len() && s[i] == '"' {
        match parse_string(s, i) {
            Option::Some(r) => Option::Some((WireValue::VStr(r.0), r.1)),
            Option::None => Option::None,
        }
    } else if 0 <= i < s.len() && s[i] == '[' {
        match parse_array(s, i) {
            Option::Some(r) => Option::Some((WireValue::VArr(r.0), r.1)),
            Option::None => Option::None,
        }
    } else if is_null_at(s, i) {
        Option::Some((WireValue::VNull, i + 4))
    } else {
        Option::None
    }
}

pub proof fn lemma_parse_value(s: Seq<char>, i: int)
    requires
        0 <= i <= s.len(),
    ensures
        match parse_value(s, i) {
            Option::Some(r) => i < r.1 <= s.len(),
            Option::None => true,
        },
{
    lemma_parse_string(s, i);
    lemma_parse_array(s, i);
}

// ---------------------------------------------------------------------------
// The frame grammar.
// ---------------------------------------------------------------------------

/// What has been collected of a frame's members so far.
pub struct FrameAcc {
    pub message_type: Option<Seq<char>>,
    pub data_array: Option<Seq<Seq<char>>>,
    pub data: Option<Seq<char>>,
    pub seen_array: bool,
    pub seen_data: bool,
}

/// The accumulator before any member has been read.
pub open spec fn empty_acc() -> FrameAcc {
    FrameAcc {
        message_type: Option::None,
        data_array: Option::None,
        data: Option::None,
        seen_array: false,
        seen_data: false,
    }
}

/// How many of the three member keys have not been seen yet.
pub open spec fn unseen_keys(acc: FrameAcc) -> int {
    (if acc.message_type is None {
        1int
    } else {
        0int
    }) + (if !acc.seen_array {
        1int
    } else {
        0int
    }) + (if !acc.seen_data {
        1int
    } else {
        0int
    })
}

/// Records one parsed member. A key seen twice, an unknown key, or a value of
/// the wrong shape for its key rejects the frame.
pub open spec fn assign_field(acc: FrameAcc, key: Seq<char>, value: WireValue) -> Option<FrameAcc> {
    if key == key_message_type() && acc.message_type is None {
        match value {
            WireValue::VStr(t) => Option::Some(
                FrameAcc { message_type: Option::Some(t), ..acc },
            ),
            _ => Option::None,
        }
    } else if key == key_data_array() && !acc.seen_array {
        match value {
            WireValue::VArr(a) => Option::Some(
                FrameAcc { data_array: Option::Some(a), seen_array: true, ..acc },
            ),
            WireValue::VNull => Option::Some(FrameAcc { seen_array: true, ..acc }),
            _ => Option::None,
        }
    } else if key == key_data() && !acc.seen_data {
        match value {
            WireValue::VStr(t) => Option::Some(
                FrameAcc { data: Option::Some(t), seen_data: true, ..acc },
            ),
            WireValue::VNull => Option::Some(FrameAcc { seen_data: true, ..acc }),
            _ => Option::None,
        }
    } else {
        Option::None
    }
}

/// Parses one `"key": value` member starting (after whitespace) at `i`.
pub open spec fn parse_member(s: Seq<char>, i: int, acc: FrameAcc) -> Option<(FrameAcc, int)> {
    let j = skip_ws(s, i);
    match parse_string(s, j) {
        Option::Some(k) => {
            let c = skip_ws(s, k.1);
            if c < s.len() && s[c] == ':' {
                let v = skip_ws(s, c + 1);
                match parse_value(s, v) {
                    Option::Some(val) => match assign_field(acc, k.0, val.0) {
                        Option::Some(acc2) => Option::Some((acc2, val.1)),
                        Option::None => Option::None,
                    },
                    Option::None => Option::None,
                }
            } else {
                Option::None
            }
        },
        Option::None => Option::None,
    }
}

pub proof fn lemma_parse_member(s: Seq<char>, i: int, acc: FrameAcc)
    requires
        0 <= i <= s.len(),
    ensures
        match parse_member(s, i, acc) {
            Option::Some(r) => unseen_keys(r.0) < unseen_keys(acc) && i < r.1 <= s.len()
                && 0 <= unseen_keys(r.0),
            Option::None => true,
        },
{
    let j = skip_ws(s, i);
    lemma_skip_ws(s, i);
    lemma_parse_string(s, j);
    match parse_string(s, j) {
        Option::Some(k) => {
            let c = skip_ws(s, k.1);
            lemma_skip_ws(s, k.1);
            if c < s.len() && s[c] == ':' {
                lemma_skip_ws(s, c + 1);
                lemma_parse_value(s, skip_ws(s, c + 1));
            }
        },
        Option::None => {},
    }
}

/// Parses the continuation of the member list: either the closing brace, or a
/// comma followed by another member.
pub open spec fn parse_members(s: Seq<char>, i: int, acc: FrameAcc) -> Option<(FrameAcc, int)>
    decreases unseen_keys(acc) when 0 <= i <= s.len()
{
    let k = skip_ws(s, i);
    proof {
        lemma_skip_ws(s, i);
    }
    if k < s.len() && s[k] == '}' {
        Option::Some((acc, k + 1))
    } else if k < s.len() && s[k] == ',' {
        match parse_member(s, k + 1, acc) {
            Option::Some(m) => {
                proof {
                    lemma_parse_member(s, k + 1, acc);
                }
                parse_members(s, m.1, m.0)
            },
            Option::None => Option::None,
        }
    } else {
        Option::None
    }
}

/// Turns a completed accumulator into a frame: the whole input must have been
/// consumed and the tag name must be one the protocol knows.
pub open spec fn finish_frame(s: Seq<char>, i: int, acc: FrameAcc) -> Option<SpecFrame> {
    if skip_ws(s, i) == s.len() {
        match acc.message_type {
            Option::Some(t) => match tag_of_name(t) {
                Option::Some(mt) => Option::Some(
                    SpecFrame { message_type: mt, data_array: acc.data_array, data: acc.data },
                ),
                Option::None => Option::None,
            },
            Option::None => Option::None,
        }
    } else {
        Option::None
    }
}

/// The frame a whole character sequence decodes to, if it is well-formed.
pub open spec fn parse_frame(s: Seq<char>) -> Option<SpecFrame> {
    let i = skip_ws(s, 0);
    if i < s.len() && s[i] == '{' {
        let j = skip_ws(s, i + 1);
        if j < s.len() && s[j] == '}' {
            finish_frame(s, j + 1, empty_acc())
        } else {
            match parse_member(s, i + 1, empty_acc()) {
                Option::Some(m) => {
                    match parse_members(s, m.1, m.0) {
                        Option::Some(r) => finish_frame(s, r.1, r.0),
                        Option::None => Option::None,
                    }
                },
                Option::None => Option::None,
            }
        }
    } else {
        Option::None
    }
}

// ---------------------------------------------------------------------------
// The nested payload grammar: `{ "from": string, "message": string }`.
// ---------------------------------------------------------------------------

/// What has been collected of a payload's members so far.
pub struct PayloadAcc {
    pub from: Option<Seq<char>>,
    pub message: Option<Seq<char>>,
}

pub open spec fn empty_payload_acc() -> PayloadAcc {
    PayloadAcc { from: Option::None, message: Option::None }
}

pub open spec fn unseen_payload_keys(acc: PayloadAcc) -> int {
    (if acc.from is None {
        1int
    } else {
        0int
    }) + (if acc.message is None {
        1int
    } else {
        0int
    })
}

/// Records one parsed payload member; both keys take string values only.
pub open spec fn assign_payload_field(acc: PayloadAcc, key: Seq<char>, value: Seq<char>) -> Option<
    PayloadAcc,
> {
    if key == key_from() && acc.from is None {
        Option::Some(PayloadAcc { from: Option::Some(value), ..acc })
    } else if key == key_message() && acc.message is None {
        Option::Some(PayloadAcc { message: Option::Some(value), ..acc })
    } else {
        Option::None
    }
}

/// Parses one `"key": "value"` payload member starting (after whitespace) at `i`.
pub open spec fn parse_payload_member(s: Seq<char>, i: int, acc: PayloadAcc) -> Option<
    (PayloadAcc, int),
> {
    let j = skip_ws(s, i);
    match parse_string(s, j) {
        Option::Some(k) => {
            let c = skip_ws(s, k.1);
            if c < s.len() && s[c] == ':' {
                let v = skip_ws(s, c + 1);
                match parse_string(s, v) {
                    Option::Some(val) => match assign_payload_field(acc, k.0, val.0) {
                        Option::Some(acc2) => Option::Some((acc2, val.1)),
                        Option::None => Option::None,
                    },
                    Option::None => Option::None,
                }
            } else {
                Option::None
            }
        },
        Option::None => Option::None,
    }
}

pub proof fn lemma_parse_payload_member(s: Seq<char>, i: int, acc: PayloadAcc)
    requires
        0 <= i <= s.len(),
    ensures
        match parse_payload_member(s, i, acc) {
            Option::Some(r) => unseen_payload_keys(r.0) < unseen_payload_keys(acc) && i < r.1
                <= s.len() && 0 <= unseen_payload_keys(r.0),
            Option::None => true,
        },
{
    let j = skip_ws(s, i);
    lemma_skip_ws(s, i);
    lemma_parse_string(s, j);
    match parse_string(s, j) {
        Option::Some(k) => {
            let c = skip_ws(s, k.1);
            lemma_skip_ws(s, k.1);
            if c < s.len() && s[c] == ':' {
                lemma_skip_ws(s, c + 1);
                lemma_parse_string(s, skip_ws(s, c + 1));
            }
        },
        Option::None => {},
    }
}

/// Parses the continuation of the payload member list.
pub open spec fn parse_payload_members(s: Seq<char>, i: int, acc: PayloadAcc) -> Option<
    (PayloadAcc, int),
>
    decreases unseen_payload_keys(acc) when 0 <= i <= s.len()
{
    let k = skip_ws(s, i);
    proof {
        lemma_skip_ws(s, i);
    }
    if k < s.len() && s[k] == '}' {
        Option::Some((acc, k + 1))
    } else if k < s.len() && s[k] == ',' {
        match parse_payload_member(s, k + 1, acc) {
            Option::Some(m) => {
                proof {
                    lemma_parse_payload_member(s, k + 1, acc);
                }
                parse_payload_members(s, m.1, m.0)
            },
            Option::None => Option::None,
        }
    } else {
        Option::None
    }
}

/// Turns a completed payload accumulator into a payload: both members are
/// required, and the whole input must have been consumed.
pub open spec fn finish_payload(s: Seq<char>, i: int, acc: PayloadAcc) -> Option<SpecPayload> {
    if skip_ws(s, i) == s.len() {
        match (acc.from, acc.message) {
            (Option::Some(f), Option::Some(m)) => Option::Some(SpecPayload { from: f, message: m }),
            _ => Option::None,
        }
    } else {
        Option::None
    }
}

/// The payload a whole character sequence decodes to, if it is well-formed.
pub open spec fn parse_payload(s: Seq<char>) -> Option<SpecPayload> {
    let i = skip_ws(s, 0);
    if i < s.len() && s[i] == '{' {
        let j = skip_ws(s, i + 1);
        if j < s.len() && s[j] == '}' {
            finish_payload(s, j + 1, empty_payload_acc())
        } else {
            match parse_payload_member(s, i + 1, empty_payload_acc()) {
                Option::Some(m) => {
                    match parse_payload_members(s, m.1, m.0) {
                        Option::Some(r) => finish_payload(s, r.1, r.0),
                        Option::None => Option::None,
                    }
                },
                Option::None => Option::None,
            }
        }
    } else {
        Option::None
    }
}

// ---------------------------------------------------------------------------
// Encoding.
// ---------------------------------------------------------------------------

/// The canonical text of a frame: the three members in declaration order,
/// with no whitespace.
pub open spec fn encode_opt_string(d: Option<Seq<char>>) -> Seq<char> {
    match d {
        Option::Some(s) => encode_string(s),
        Option::None => null_chars(),
    }
}

/// `null`, or the elements each encoded as a string, comma-separated.
pub open spec fn encode_items(items: Seq<Seq<char>>) -> Seq<char>
    decreases items.len(),
{
    if items.len() == 0 {
        Seq::empty()
    } else if items.len() == 1 {
        encode_string(items[0])
    } else {
        encode_string(items[0]) + seq![','] + encode_items(items.drop_first())
    }
}

pub open spec fn encode_opt_array(d: Option<Seq<Seq<char>>>) -> Seq<char> {
    match d {
        Option::Some(items) => seq!['['] + encode_items(items) + seq![']'],
        Option::None => null_chars(),
    }
}

/// The canonical wire text of a frame.
pub open spec fn encode_frame(f: SpecFrame) -> Seq<char> {
    seq!['{'] + encode_string(key_message_type()) + seq![':'] + encode_string(
        tag_name(f.message_type),
    ) + seq![','] + encode_string(key_data_array()) + seq![':'] + encode_opt_array(f.data_array)
        + seq![','] + encode_string(key_data()) + seq![':'] + encode_opt_string(f.data)
        + seq!['}']
}

/// The outbound frame registering a username.
pub open spec fn register_frame(username: Seq<char>) -> SpecFrame {
    SpecFrame {
        message_type: MsgTypes::Register,
        data_array: Option::None,
        data: Option::Some(username),
    }
}

/// The outbound frame carrying a submitted message body.
pub open spec fn send_frame(body: Seq<char>) -> SpecFrame {
    SpecFrame {
        message_type: MsgTypes::Message,
        data_array: Option::None,
        data: Option::Some(body),
    }
}

// ---------------------------------------------------------------------------
// The executable decoder.
// ---------------------------------------------------------------------------

fn exec_skip_ws(s: &Vec<char>, i: usize) -> (j: usize)
    requires
        i <= s@.len(),
    ensures
        j == skip_ws(s@, i as int),
        i <= j <= s@.len(),
{
    let mut j = i;
    while j < s.len() && (s[j] == ' ' || s[j] == '\t' || s[j] == '\n' || s[j] == '\r')
        invariant
            i <= j <= s@.len(),
            skip_ws(s@, i as int) == skip_ws(s@, j as int),
        decreases s@.len() - j,
    {
        j = j + 1;
    }
    j
}

fn exec_unescape(c: char) -> (r: Option<char>)
    ensures
        r == unescape(c),
{
    if c == '"' {
        Option::Some('"')
    } else if c == '\\' {
        Option::Some('\\')
    } else if c == '/' {
        Option::Some('/')
    } else if c == 'n' {
        Option::Some('\n')
    } else if c == 't' {
        Option::Some('\t')
    } else if c == 'r' {
        Option::Some('\r')
    } else if c == 'b' {
        Option::Some('\u{0008}')
    } else if c == 'f' {
        Option::Some('\u{000C}')
    } else {
        Option::None
    }
}

fn chars_eq(a: &Vec<char>, b: &Vec<char>) -> (r: bool)
    ensures
        r == (a@ == b@),
{
    if a.len() != b.len() {
        proof {
            assert(a@.len() != b@.len());
        }
        return false;
    }
    let mut i: usize = 0;
    while i < a.len()
        invariant
            i <= a@.len(),
            a@.len() == b@.len(),
            forall|k: int| 0 <= k < i ==> a@[k] == b@[k],
        decreases a@.len() - i,
    {
        if a[i] != b[i] {
            return false;
        }
        i = i + 1;
    }
    proof {
        assert(a@ =~= b@);
    }
    true
}

fn p_string_body(s: &Vec<char>, i: usize) -> (r: Option<(Vec<char>, usize)>)
    requires
        i <= s@.len(),
    ensures
        match (r, parse_string_body(s@, i as int)) {
            (Option::Some((v, j)), Option::Some(t)) => v@ == t.0 && j == t.1 && i < j <= s@.len(),
            (Option::None, Option::None) => true,
            _ => false,
        },
    decreases s@.len() - i,
{
    if i >= s.len() {
        Option::None
    } else {
        let c = s[i];
        if c == '"' {
            Option::Some((Vec::new(), i + 1))
        } else if c == '\\' {
            if i + 1 < s.len() {
                match exec_unescape(s[i + 1]) {
                    Option::Some(u) => match p_string_body(s, i + 2) {
                        Option::Some((mut v, j)) => {
                            v.insert(0, u);
                            proof {
                                let t = parse_string_body(s@, i + 2 as int)->0;
                                assert(v@ =~= seq![u] + t.0);
                            }
                            Option::Some((v, j))
                        },
                        Option::None => Option::None,
                    },
                    Option::None => Option::None,
                }
            } else {
                Option::None
            }
        } else {
            match p_string_body(s, i + 1) {
                Option::Some((mut v, j)) => {
                    v.insert(0, c);
                    proof {
                        let t = parse_string_body(s@, i + 1 as int)->0;
                        assert(v@ =~= seq![c] + t.0);
                    }
                    Option::Some((v, j))
                },
                Option::None => Option::None,
            }
        }
    }
}

fn p_string(s: &Vec<char>, i: usize) -> (r: Option<(Vec<char>, usize)>)
    requires
        i <= s@.len(),
    ensures
        match (r, parse_string(s@, i as int)) {
            (Option::Some((v, j)), Option::Some(t)) => v@ == t.0 && j == t.1 && i < j <= s@.len(),
            (Option::None, Option::None) => true,
            _ => false,
        },
{
    if i < s.len() && s[i] == '"' {
        p_string_body(s, i + 1)
    } else {
        Option::None
    }
}

fn p_array_rest(s: &Vec<char>, i: usize) -> (r: Option<(Vec<Vec<char>>, usize)>)
    requires
        i <= s@.len(),
    ensures
        match (r, parse_array_rest(s@, i as int)) {
            (Option::Some((v, j)), Option::Some(t)) => v.deep_view() == t.0 && j == t.1 && i < j
                <= s@.len(),
            (Option::None, Option::None) => true,
            _ => false,
        },
    decreases s@.len() - i,
{
    let k = exec_skip_ws(s, i);
    if k < s.len() && s[k] == ']' {
        let v: Vec<Vec<char>> = Vec::new();
        proof {
            assert(v.deep_view() =~= Seq::<Seq<char>>::empty());
        }
        Option::Some((v, k + 1))
    } else if k < s.len() && s[k] == ',' {
        let j = exec_skip_ws(s, k + 1);
        match p_string(s, j) {
            Option::Some((e, n)) => match p_array_rest(s, n) {
                Option::Some((mut v, m)) => {
                    v.insert(0, e);
                    proof {
                        let t = parse_array_rest(s@, n as int)->0;
                        let e0 = parse_string(s@, j as int)->0;
                        assert(v.deep_view() =~~= seq![e0.0] + t.0);
                    }
                    Option::Some((v, m))
                },
                Option::None => Option::None,
            },
            Option::None => Option::None,
        }
    } else {
        Option::None
    }
}

fn p_array(s: &Vec<char>, i: usize) -> (r: Option<(Vec<Vec<char>>, usize)>)
    requires
        i <= s@.len(),
    ensures
        match (r, parse_array(s@, i as int)) {
            (Option::Some((v, j)), Option::Some(t)) => v.deep_view() == t.0 && j == t.1 && i < j
                <= s@.len(),
            (Option::None, Option::None) => true,
            _ => false,
        },
{
    if i < s.len() && s[i] == '[' {
        let j = exec_skip_ws(s, i + 1);
        if j < s.len() && s[j] == ']' {
            let v: Vec<Vec<char>> = Vec::new();
            proof {
                assert(v.deep_view() =~= Seq::<Seq<char>>::empty());
            }
            Option::Some((v, j + 1))
        } else {
            match p_string(s, j) {
                Option::Some((e, n)) => {
                    proof {
                        lemma_parse_string(s@, j as int);
                    }
                    match p_array_rest(s, n) {
                        Option::Some((mut v, m)) => {
                            v.insert(0, e);
                            proof {
                                let t = parse_array_rest(s@, n as int)->0;
                                let e0 = parse_string(s@, j as int)->0;
                                assert(v.deep_view() =~~= seq![e0.0] + t.0);
                            }
                            Option::Some((v, m))
                        },
                        Option::None => Option::None,
                    }
                },
                Option::None => Option::None,
            }
        }
    } else {
        Option::None
    }
}

/// A decoded member value, before it is assigned to a member slot.
enum ValX {
    VStr(Vec<char>),
    VArr(Vec<Vec<char>>),
    VNull,
}

impl View for ValX {
    type V = WireValue;

    closed spec fn view(&self) -> WireValue {
        match self {
            ValX::VStr(v) => WireValue::VStr(v@),
            ValX::VArr(v) => WireValue::VArr(v.deep_view()),
            ValX::VNull => WireValue::VNull,
        }
    }
}

fn p_value(s: &Vec<char>, i: usize) -> (r: Option<(ValX, usize)>)
    requires
        i <= s@.len(),
    ensures
        match (r, parse_value(s@, i as int)) {
            (Option::Some((v, j)), Option::Some(t)) => v@ == t.0 && j == t.1 && i < j <= s@.len(),
            (Option::None, Option::None) => true,
            _ => false,
        },
{
    if i < s.len() && s[i] == '"' {
        match p_string(s, i) {
            Option::Some((v, j)) => Option::Some((ValX::VStr(v), j)),
            Option::None => Option::None,
        }
    } else if i < s.len() && s[i] == '[' {
        match p_array(s, i) {
            Option::Some((v, j)) => Option::Some((ValX::VArr(v), j)),
            Option::None => Option::None,
        }
    } else if s.len() >= 4 && i <= s.len() - 4 && s[i] == 'n' && s[i + 1] == 'u' && s[i + 2]
        == 'l' && s[i + 3] == 'l' {
        Option::Some((ValX::VNull, i + 4))
    } else {
        Option::None
    }
}

/// The members collected so far, as executable values.
struct FrameAccX {
    message_type: Option<Vec<char>>,
    data_array: Option<Vec<Vec<char>>>,
    data: Option<Vec<char>>,
    seen_array: bool,
    seen_data: bool,
}

impl View for FrameAccX {
    type V = FrameAcc;

    closed spec fn view(&self) -> FrameAcc {
        FrameAcc {
            message_type: match self.message_type {
                Option::Some(v) => Option::Some(v@),
                Option::None => Option::None,
            },
            data_array: match self.data_array {
                Option::Some(v) => Option::Some(v.deep_view()),
                Option::None => Option::None,
            },
            data: match self.data {
                Option::Some(v) => Option::Some(v@),
                Option::None => Option::None,
            },
            seen_array: self.seen_array,
            seen_data: self.seen_data,
        }
    }
}

fn exec_assign(acc: FrameAccX, key: Vec<char>, val: ValX) -> (r: Option<FrameAccX>)
    ensures
        match (r, assign_field(acc@, key@, val@)) {
            (Option::Some(a), Option::Some(t)) => a@ == t,
            (Option::None, Option::None) => true,
            _ => false,
        },
{
    let kmt = crate::text::str_chars("messageType");
    let kda = crate::text::str_chars("dataArray");
    let kd = crate::text::str_chars("data");
    if chars_eq(&key, &kmt) && acc.message_type.is_none() {
        match val {
            ValX::VStr(t) => Option::Some(
                FrameAccX {
                    message_type: Option::Some(t),
                    data_array: acc.data_array,
                    data: acc.data,
                    seen_array: acc.seen_array,
                    seen_data: acc.seen_data,
                },
            ),
            _ => Option::None,
        }
    } else if chars_eq(&key, &kda) && !acc.seen_array {
        match val {
            ValX::VArr(a) => Option::Some(
                FrameAccX {
                    message_type: acc.message_type,
                    data_array: Option::Some(a),
                    data: acc.data,
                    seen_array: true,
                    seen_data: acc.seen_data,
                },
            ),
            ValX::VNull => Option::Some(
                FrameAccX {
                    message_type: acc.message_type,
                    data_array: acc.data_array,
                    data: acc.data,
                    seen_array: true,
                    seen_data: acc.seen_data,
                },
            ),
            _ => Option::None,
        }
    } else if chars_eq(&key, &kd) && !acc.seen_data {
        match val {
            ValX::VStr(t) => Option::Some(
                FrameAccX {
                    message_type: acc.message_type,
                    data_array: acc.data_array,
                    data: Option::Some(t),
                    seen_array: acc.seen_array,
                    seen_data: true,
                },
            ),
            ValX::VNull => Option::Some(
                FrameAccX {
                    message_type: acc.message_type,
                    data_array: acc.data_array,
                    data: acc.data,
                    seen_array: acc.seen_array,
                    seen_data: true,
                },
            ),
            _ => Option::None,
        }
    } else {
        Option::None
    }
}

fn p_member(s: &Vec<char>, i: usize, acc: FrameAccX) -> (r: Option<(FrameAccX, usize)>)
    requires
        i <= s@.len(),
    ensures
        match (r, parse_member(s@, i as int, acc@)) {
            (Option::Some((a, j)), Option::Some(t)) => a@ == t.0 && j == t.1 && i <= j <= s@.len(),
            (Option::None, Option::None) => true,
            _ => false,
        },
{
    let j = exec_skip_ws(s, i);
    match p_string(s, j) {
        Option::Some((key, n)) => {
            let c = exec_skip_ws(s, n);
            if c < s.len() && s[c] == ':' {
                let v = exec_skip_ws(s, c + 1);
                match p_value(s, v) {
                    Option::Some((val, m)) => match exec_assign(acc, key, val) {
                        Option::Some(a2) => Option::Some((a2, m)),
                        Option::None => Option::None,
                    },
                    Option::None => Option::None,
                }
            } else {
                Option::None
            }
        },
        Option::None => Option::None,
    }
}

fn p_members(s: &Vec<char>, i: usize, acc: FrameAccX) -> (r: Option<(FrameAccX, usize)>)
    requires
        i <= s@.len(),
    ensures
        match (r, parse_members(s@, i as int, acc@)) {
            (Option::Some((a, j)), Option::Some(t)) => a@ == t.0 && j == t.1 && i <= j <= s@.len(),
            (Option::None, Option::None) => true,
            _ => false,
        },
    decreases unseen_keys(acc@),
{
    let k = exec_skip_ws(s, i);
    if k < s.len() && s[k] == '}' {
        Option::Some((acc, k + 1))
    } else if k < s.len() && s[k] == ',' {
        let ghost acc0 = acc@;
        match p_member(s, k + 1, acc) {
            Option::Some((a2, j)) => {
                proof {
                    lemma_parse_member(s@, k + 1 as int, acc0);
                }
                p_members(s, j, a2)
            },
            Option::None => Option::None,
        }
    } else {
        Option::None
    }
}

/// The decoded array elements, converted to `String`s.
fn strings_of(vs: Vec<Vec<char>>) -> (r: Vec<String>)
    ensures
        r.deep_view() == vs.deep_view(),
{
    let mut r: Vec<String> = Vec::new();
    let mut i: usize = 0;
    while i < vs.len()
        invariant
            i <= vs@.len(),
            r@.len() == i,
            forall|k: int| 0 <= k < i ==> r@[k]@ == vs@[k]@,
        decreases vs@.len() - i,
    {
        r.push(crate::text::chars_string(&vs[i]));
        i = i + 1;
    }
    proof {
        assert forall|k: int| 0 <= k < vs@.len() implies r.deep_view()[k] == vs.deep_view()[k] by {
            assert(r@[k]@ == vs@[k]@);
            assert(vs.deep_view()[k] =~= vs@[k]@);
        }
        assert(r.deep_view() =~= vs.deep_view());
    }
    r
}

/// Decodes one inbound text frame. Succeeds exactly on the frames the
/// protocol grammar accepts, and returns the frame that the grammar gives.
pub fn decode_frame(s: &str) -> (r: Result<WebSocketMessage, ProtocolDecodeError>)
    ensures
        match r {
            Result::Ok(m) => parse_frame(s@) == Option::Some(m@),
            Result::Err(e) => parse_frame(s@) is None && e == ProtocolDecodeError::MalformedFrame,
        },
{
    let chars = crate::text::str_chars(s);
    let i = exec_skip_ws(&chars, 0);
    if !(i < chars.len() && chars[i] == '{') {
        return Result::Err(ProtocolDecodeError::MalformedFrame);
    }
    let j = exec_skip_ws(&chars, i + 1);
    let acc0 = FrameAccX {
        message_type: Option::None,
        data_array: Option::None,
        data: Option::None,
        seen_array: false,
        seen_data: false,
    };
    proof {
        assert(acc0@ == empty_acc());
    }
    let parsed: Option<(FrameAccX, usize)>;
    if j < chars.len() && chars[j] == '}' {
        parsed = Option::Some((acc0, j + 1));
    } else {
        match p_member(&chars, i + 1, acc0) {
            Option::Some((a1, k)) => {
                proof {
                    lemma_parse_member(chars@, i + 1 as int, empty_acc());
                }
                parsed = p_members(&chars, k, a1);
            },
            Option::None => {
                parsed = Option::None;
            },
        }
    }
    match parsed {
        Option::None => Result::Err(ProtocolDecodeError::MalformedFrame),
        Option::Some((acc, end)) => {
            let fin = exec_skip_ws(&chars, end);
            if fin != chars.len() {
                return Result::Err(ProtocolDecodeError::MalformedFrame);
            }
            match acc.message_type {
                Option::None => Result::Err(ProtocolDecodeError::MalformedFrame),
                Option::Some(t) => {
                    let mt: Option<MsgTypes> = if chars_eq(&t, &crate::text::str_chars("users")) {
                        Option::Some(MsgTypes::Users)
                    } else if chars_eq(&t, &crate::text::str_chars("register")) {
                        Option::Some(MsgTypes::Register)
                    } else if chars_eq(&t, &crate::text::str_chars("message")) {
                        Option::Some(MsgTypes::Message)
                    } else {
                        Option::None
                    };
                    match mt {
                        Option::None => Result::Err(ProtocolDecodeError::MalformedFrame),
                        Option::Some(mt) => {
                            let data_array: Option<Vec<String>> = match acc.data_array {
                                Option::Some(vs) => Option::Some(strings_of(vs)),
                                Option::None => Option::None,
                            };
                            let data: Option<String> = match acc.data {
                                Option::Some(v) => Option::Some(crate::text::chars_string(&v)),
                                Option::None => Option::None,
                            };
                            let m = WebSocketMessage { message_type: mt, data_array, data };
                            Result::Ok(m)
                        },
                    }
                },
            }
        },
    }
}

// ---------------------------------------------------------------------------
// The executable encoder.
// ---------------------------------------------------------------------------

proof fn lemma_escape_str_snoc(s: Seq<char>, c: char)
    ensures
        escape_str(s.push(c)) == escape_str(s) + escape_char(c),
    decreases s.len(),
{
    if s.len() == 0 {
        assert(s.push(c).drop_first() =~= Seq::<char>::empty());
        assert(s.push(c)[0] == c);
        assert(escape_str(s.push(c).drop_first()) == Seq::<char>::empty());
        assert(escape_str(s.push(c)) == escape_char(c) + Seq::<char>::empty());
        assert(escape_str(s.push(c)) =~= escape_str(s) + escape_char(c));
    } else {
        assert(s.push(c).drop_first() =~= s.drop_first().push(c));
        assert(s.push(c)[0] == s[0]);
        lemma_escape_str_snoc(s.drop_first(), c);
        assert(escape_str(s.push(c)) == escape_char(s[0]) + (escape_str(s.drop_first())
            + escape_char(c)));
        assert(escape_str(s.push(c)) =~= escape_str(s) + escape_char(c));
    }
}

/// Appends the quoted, escaped form of `s`.
fn push_escaped(out: &mut String, s: &str)
    ensures
        final(out)@ == old(out)@ + encode_string(s@),
{
    crate::text::push_char(out, '"');
    let chars = crate::text::str_chars(s);
    let mut i: usize = 0;
    while i < chars.len()
        invariant
            i <= chars@.len(),
            chars@ == s@,
            out@ == old(out)@ + seq!['"'] + escape_str(s@.take(i as int)),
        decreases chars@.len() - i,
    {
        let c = chars[i];
        if c == '"' || c == '\\' {
            crate::text::push_char(out, '\\');
        }
        crate::text::push_char(out, c);
        i = i + 1;
        proof {
            lemma_escape_str_snoc(s@.take(i as int - 1), s@[i as int - 1]);
            assert(s@.take(i as int) =~= s@.take(i as int - 1).push(s@[i as int - 1]));
            assert(out@ =~= old(out)@ + seq!['"'] + escape_str(s@.take(i as int)));
        }
    }
    crate::text::push_char(out, '"');
    proof {
        assert(s@.take(s@.len() as int) =~= s@);
        assert(out@ =~= old(out)@ + encode_string(s@));
    }
}

/// The canonical text of a frame whose `dataArray` is null and whose `data`
/// is the given string, with the given tag text.
fn encode_data_frame(tag: &str, data: &str) -> (r: String)
    ensures
        r@ == seq!['{'] + encode_string(key_message_type()) + seq![':'] + encode_string(tag@)
            + seq![','] + encode_string(key_data_array()) + seq![':'] + null_chars() + seq![',']
            + encode_string(key_data()) + seq![':'] + encode_string(data@) + seq!['}'],
{
    let mut out = String::new();
    crate::text::push_char(&mut out, '{');
    push_escaped(&mut out, "messageType");
    crate::text::push_char(&mut out, ':');
    push_escaped(&mut out, tag);
    crate::text::push_char(&mut out, ',');
    push_escaped(&mut out, "dataArray");
    crate::text::push_char(&mut out, ':');
    crate::text::push_char(&mut out, 'n');
    crate::text::push_char(&mut out, 'u');
    crate::text::push_char(&mut out, 'l');
    crate::text::push_char(&mut out, 'l');
    crate::text::push_char(&mut out, ',');
    push_escaped(&mut out, "data");
    crate::text::push_char(&mut out, ':');
    push_escaped(&mut out, data);
    crate::text::push_char(&mut out, '}');
    proof {
        assert(out@ =~= seq!['{'] + encode_string(key_message_type()) + seq![':'] + encode_string(
            tag@,
        ) + seq![','] + encode_string(key_data_array()) + seq![':'] + null_chars() + seq![',']
            + encode_string(key_data()) + seq![':'] + encode_string(data@) + seq!['}']);
    }
    out
}

/// The outbound `register` command for a username, as wire text.
pub fn encode_register(username: &str) -> (r: String)
    ensures
        r@ == encode_frame(register_frame(username@)),
{
    let r = encode_data_frame("register", username);
    proof {
        assert(r@ =~= encode_frame(register_frame(username@)));
    }
    r
}

/// The outbound `message` command carrying a submitted body, as wire text.
pub fn encode_send(body: &str) -> (r: String)
    ensures
        r@ == encode_frame(send_frame(body@)),
{
    let r = encode_data_frame("message", body);
    proof {
        assert(r@ =~= encode_frame(send_frame(body@)));
    }
    r
}

// ---------------------------------------------------------------------------
// The round trip: decoding a canonical encoding gives the frame back.
// ---------------------------------------------------------------------------

proof fn lemma_parse_body_of_escaped(t: Seq<char>, i: int, s: Seq<char>)
    requires
        0 <= i,
        i + escape_str(s).len() + 1 <= t.len(),
        t.subrange(i, i + escape_str(s).len() + 1) == escape_str(s) + seq!['"'],
    ensures
        parse_string_body(t, i) == Option::Some((s, i + escape_str(s).len() + 1)),
    decreases s.len(),
{
    let es = escape_str(s);
    let q = seq!['"'];
    let ss = t.subrange(i, i + es.len() + 1);
    if s.len() == 0 {
        assert(es.len() == 0);
        assert(ss[0] == t[i]);
        assert(t[i] == '"');
        assert(parse_string_body(t, i) == Option::Some((Seq::<char>::empty(), i + 1)));
        assert(s =~= Seq::<char>::empty());
    } else {
        let c = s[0];
        let ec = escape_char(c);
        let s1 = s.drop_first();
        let es1 = escape_str(s1);
        assert(es == ec + es1);
        if c == '"' || c == '\\' {
            let x = if c == '"' {
                '"'
            } else {
                '\\'
            };
            assert(ec =~= seq!['\\', x]);
            assert(ss[0] == t[i]);
            assert((es + q)[0] == es[0]);
            assert(es[0] == ec[0]);
            assert(t[i] == '\\');
            assert(ss[1] == t[i + 1]);
            assert((es + q)[1] == es[1]);
            assert(es[1] == ec[1]);
            assert(t[i + 1] == x);
            assert(unescape(x) == Option::Some(c));
            let m = es1.len() + 1;
            assert(t.subrange(i + 2, i + 2 + m) =~= es1 + q) by {
                assert forall|k: int| 0 <= k < m implies t.subrange(i + 2, i + 2 + m)[k] == (es1
                    + q)[k] by {
                    assert(t.subrange(i + 2, i + 2 + m)[k] == t[i + 2 + k]);
                    assert(ss[2 + k] == t[i + 2 + k]);
                    assert(ss[2 + k] == (es + q)[2 + k]);
                    assert((es + q)[2 + k] == (es1 + q)[k]);
                }
            }
            lemma_parse_body_of_escaped(t, i + 2, s1);
            assert(parse_string_body(t, i) == Option::Some((seq![c] + s1, i + 2 + m)));
            assert(seq![c] + s1 =~= s);
        } else {
            assert(ec =~= seq![c]);
            assert(ss[0] == t[i]);
            assert((es + q)[0] == es[0]);
            assert(es[0] == c);
            assert(t[i] == c);
            let m = es1.len() + 1;
            assert(t.subrange(i + 1, i + 1 + m) =~= es1 + q) by {
                assert forall|k: int| 0 <= k < m implies t.subrange(i + 1, i + 1 + m)[k] == (es1
                    + q)[k] by {
                    assert(t.subrange(i + 1, i + 1 + m)[k] == t[i + 1 + k]);
                    assert(ss[1 + k] == t[i + 1 + k]);
                    assert(ss[1 + k] == (es + q)[1 + k]);
                    assert((es + q)[1 + k] == (es1 + q)[k]);
                }
            }
            lemma_parse_body_of_escaped(t, i + 1, s1);
            assert(parse_string_body(t, i) == Option::Some((seq![c] + s1, i + 1 + m)));
            assert(seq![c] + s1 =~= s);
        }
    }
}

proof fn lemma_parse_encoded_string(t: Seq<char>, i: int, s: Seq<char>)
    requires
        0 <= i,
        i + escape_str(s).len() + 2 <= t.len(),
        t.subrange(i, i + escape_str(s).len() + 2) == encode_string(s),
    ensures
        parse_string(t, i) == Option::Some((s, i + escape_str(s).len() + 2)),
{
    let es = escape_str(s);
    let q = seq!['"'];
    let ss = t.subrange(i, i + es.len() + 2);
    assert(ss[0] == t[i]);
    assert(encode_string(s)[0] == '"');
    assert(t[i] == '"');
    let m = es.len() + 1;
    assert(t.subrange(i + 1, i + 1 + m) =~= es + q) by {
        assert forall|k: int| 0 <= k < m implies t.subrange(i + 1, i + 1 + m)[k] == (es + q)[k] by {
            assert(t.subrange(i + 1, i + 1 + m)[k] == t[i + 1 + k]);
            assert(ss[1 + k] == t[i + 1 + k]);
            assert(ss[1 + k] == encode_string(s)[1 + k]);
            assert(encode_string(s)[1 + k] == (es + q)[k]);
        }
    }
    lemma_parse_body_of_escaped(t, i + 1, s);
}

/// Law: the decoder inverts the encoder. The canonical text of any frame
/// carrying a `data` string and no `dataArray` decodes to that very frame.
#[verifier::rlimit(100)]
pub proof fn lemma_parse_encode_frame(mt: MsgTypes, d: Seq<char>)
    ensures
        parse_frame(
            encode_frame(
                SpecFrame { message_type: mt, data_array: Option::None, data: Option::Some(d) },
            ),
        ) == Option::Some(
            SpecFrame { message_type: mt, data_array: Option::None, data: Option::Some(d) },
        ),
{
    reveal_strlit("messageType");
    reveal_strlit("dataArray");
    reveal_strlit("data");
    reveal_strlit("users");
    reveal_strlit("register");
    reveal_strlit("message");
    let f = SpecFrame { message_type: mt, data_array: Option::None, data: Option::Some(d) };
    let t = encode_frame(f);
    let tag = tag_name(mt);
    let k1 = encode_string(key_message_type());
    let vtag = encode_string(tag);
    let k2 = encode_string(key_data_array());
    let k3 = encode_string(key_data());
    let vd = encode_string(d);
    let o2 = 1 + k1.len() as int;
    let o3 = o2 + 1;
    let o4 = o3 + vtag.len() as int;
    let o5 = o4 + 1;
    let o6 = o5 + k2.len() as int;
    let o7 = o6 + 1;
    let o8 = o7 + 4;
    let o9 = o8 + 1;
    let o10 = o9 + k3.len() as int;
    let o11 = o10 + 1;
    let o12 = o11 + vd.len() as int;
    assert(t.len() == o12 + 1);
    // Character and piece facts about the canonical text.
    assert(t[0] == '{');
    assert(t.subrange(1, o2) =~= k1) by {
        assert forall|k: int| 0 <= k < k1.len() implies t.subrange(1, o2)[k] == k1[k] by {
            assert(t.subrange(1, o2)[k] == t[1 + k]);
        }
    }
    assert(t[o2] == ':');
    assert(t.subrange(o3, o4) =~= vtag) by {
        assert forall|k: int| 0 <= k < vtag.len() implies t.subrange(o3, o4)[k] == vtag[k] by {
            assert(t.subrange(o3, o4)[k] == t[o3 + k]);
        }
    }
    assert(t[o4] == ',');
    assert(t.subrange(o5, o6) =~= k2) by {
        assert forall|k: int| 0 <= k < k2.len() implies t.subrange(o5, o6)[k] == k2[k] by {
            assert(t.subrange(o5, o6)[k] == t[o5 + k]);
        }
    }
    assert(t[o6] == ':');
    assert(t[o7] == 'n');
    assert(t[o7 + 1] == 'u');
    assert(t[o7 + 2] == 'l');
    assert(t[o7 + 3] == 'l');
    assert(t[o8] == ',');
    assert(t.subrange(o9, o10) =~= k3) by {
        assert forall|k: int| 0 <= k < k3.len() implies t.subrange(o9, o10)[k] == k3[k] by {
            assert(t.subrange(o9, o10)[k] == t[o9 + k]);
        }
    }
    assert(t[o10] == ':');
    assert(t.subrange(o11, o12) =~= vd) by {
        assert forall|k: int| 0 <= k < vd.len() implies t.subrange(o11, o12)[k] == vd[k] by {
            assert(t.subrange(o11, o12)[k] == t[o11 + k]);
        }
    }
    assert(t[o12] == '}');
    // The members, one after the other.
    assert(t[1] == '"');
    assert(skip_ws(t, 0) == 0);
    assert(skip_ws(t, 1) == 1);
    lemma_parse_encoded_string(t, 1, key_message_type());
    assert(skip_ws(t, o2) == o2);
    assert(skip_ws(t, o3) == o3);
    assert(t[o3] == '"');
    lemma_parse_encoded_string(t, o3, tag);
    assert(parse_value(t, o3) == Option::Some((WireValue::VStr(tag), o4)));
    let acc1 = FrameAcc {
        message_type: Option::Some(tag),
        data_array: Option::None,
        data: Option::None,
        seen_array: false,
        seen_data: false,
    };
    assert(assign_field(empty_acc(), key_message_type(), WireValue::VStr(tag)) == Option::Some(
        acc1,
    ));
    assert(parse_member(t, 1, empty_acc()) == Option::Some((acc1, o4)));
    assert(skip_ws(t, o4) == o4);
    assert(skip_ws(t, o5) == o5);
    assert(t[o5] == '"');
    lemma_parse_encoded_string(t, o5, key_data_array());
    assert(skip_ws(t, o6) == o6);
    assert(skip_ws(t, o7) == o7);
    assert(t[o7] != '"' && t[o7] != '[');
    assert(is_null_at(t, o7));
    assert(parse_value(t, o7) == Option::Some((WireValue::VNull, o8)));
    assert(key_data_array() != key_message_type());
    let acc2 = FrameAcc {
        message_type: Option::Some(tag),
        data_array: Option::None,
        data: Option::None,
        seen_array: true,
        seen_data: false,
    };
    assert(assign_field(acc1, key_data_array(), WireValue::VNull) == Option::Some(acc2));
    assert(parse_member(t, o4 + 1, acc1) == Option::Some((acc2, o8)));
    assert(skip_ws(t, o8) == o8);
    assert(skip_ws(t, o9) == o9);
    assert(t[o9] == '"');
    lemma_parse_encoded_string(t, o9, key_data());
    assert(skip_ws(t, o10) == o10);
    assert(skip_ws(t, o11) == o11);
    assert(t[o11] == '"');
    lemma_parse_encoded_string(t, o11, d);
    assert(parse_value(t, o11) == Option::Some((WireValue::VStr(d), o12)));
    assert(key_data() != key_message_type());
    assert(key_data() != key_data_array());
    let acc3 = FrameAcc {
        message_type: Option::Some(tag),
        data_array: Option::None,
        data: Option::Some(d),
        seen_array: true,
        seen_data: true,
    };
    assert(assign_field(acc2, key_data(), WireValue::VStr(d)) == Option::Some(acc3));
    assert(parse_member(t, o8 + 1, acc2) == Option::Some((acc3, o12)));
    assert(skip_ws(t, o12) == o12);
    assert(parse_members(t, o12, acc3) == Option::Some((acc3, o12 + 1)));
    assert(parse_members(t, o8, acc2) == Option::Some((acc3, o12 + 1)));
    assert(parse_members(t, o4, acc1) == Option::Some((acc3, o12 + 1)));
    // The whole input is consumed and the tag name is recognised.
    assert(skip_ws(t, o12 + 1) == t.len());
    assert(tag_of_name(tag) == Option::Some(mt)) by {
        match mt {
            MsgTypes::Users => {},
            MsgTypes::Register => {
                assert("register"@ != "users"@);
            },
            MsgTypes::Message => {
                assert("message"@ != "users"@);
                assert("message"@ != "register"@);
            },
        }
    }
    assert(finish_frame(t, o12 + 1, acc3) == Option::Some(f));
    assert(t[1] != '}');
    assert(parse_frame(t) == Option::Some(f));
}

/// Law: a submitted body survives the round trip. Decoding the encoded
/// `message` command gives a `Message` frame whose `data` is the body.
pub proof fn lemma_round_trip_send(body: Seq<char>)
    ensures
        parse_frame(encode_frame(send_frame(body))) == Option::Some(send_frame(body)),
{
    lemma_parse_encode_frame(MsgTypes::Message, body);
}

/// Law: the registration round trip. Decoding the encoded `register` command
/// gives a `Register` frame whose `data` is the username.
pub proof fn lemma_round_trip_register(username: Seq<char>)
    ensures
        parse_frame(encode_frame(register_frame(username))) == Option::Some(
            register_frame(username),
        ),
{
    lemma_parse_encode_frame(MsgTypes::Register, username);
}

/// The payload accumulator, as executable values.
struct PayloadAccX {
    from: Option<Vec<char>>,
    message: Option<Vec<char>>,
}

impl View for PayloadAccX {
    type V = PayloadAcc;

    closed spec fn view(&self) -> PayloadAcc {
        PayloadAcc {
            from: match self.from {
                Option::Some(v) => Option::Some(v@),
                Option::None => Option::None,
            },
            message: match self.message {
                Option::Some(v) => Option::Some(v@),
                Option::None => Option::None,
            },
        }
    }
}

fn p_payload_member(s: &Vec<char>, i: usize, acc: PayloadAccX) -> (r: Option<(PayloadAccX, usize)>)
    requires
        i <= s@.len(),
    ensures
        match (r, parse_payload_member(s@, i as int, acc@)) {
            (Option::Some((a, j)), Option::Some(t)) => a@ == t.0 && j == t.1 && i <= j <= s@.len(),
            (Option::None, Option::None) => true,
            _ => false,
        },
{
    let j = exec_skip_ws(s, i);
    match p_string(s, j) {
        Option::Some((key, n)) => {
            let c = exec_skip_ws(s, n);
            if c < s.len() && s[c] == ':' {
                let v = exec_skip_ws(s, c + 1);
                match p_string(s, v) {
                    Option::Some((val, m)) => {
                        let kf = crate::text::str_chars("from");
                        let km = crate::text::str_chars("message");
                        if chars_eq(&key, &kf) && acc.from.is_none() {
                            Option::Some(
                                (
                                    PayloadAccX { from: Option::Some(val), message: acc.message },
                                    m,
                                ),
                            )
                        } else if chars_eq(&key, &km) && acc.message.is_none() {
                            Option::Some(
                                (PayloadAccX { from: acc.from, message: Option::Some(val) }, m),
                            )
                        } else {
                            Option::None
                        }
                    },
                    Option::None => Option::None,
                }
            } else {
                Option::None
            }
        },
        Option::None => Option::None,
    }
}

fn p_payload_members(s: &Vec<char>, i: usize, acc: PayloadAccX) -> (r: Option<
    (PayloadAccX, usize),
>)
    requires
        i <= s@.len(),
    ensures
        match (r, parse_payload_members(s@, i as int, acc@)) {
            (Option::Some((a, j)), Option::Some(t)) => a@ == t.0 && j == t.1 && i <= j <= s@.len(),
            (Option::None, Option::None) => true,
            _ => false,
        },
    decreases unseen_payload_keys(acc@),
{
    let k = exec_skip_ws(s, i);
    if k < s.len() && s[k] == '}' {
        Option::Some((acc, k + 1))
    } else if k < s.len() && s[k] == ',' {
        let ghost acc0 = acc@;
        match p_payload_member(s, k + 1, acc) {
            Option::Some((a2, j)) => {
                proof {
                    lemma_parse_payload_member(s@, k + 1 as int, acc0);
                }
                p_payload_members(s, j, a2)
            },
            Option::None => Option::None,
        }
    } else {
        Option::None
    }
}

/// Decodes the nested payload of an inbound `Message` frame. Succeeds exactly
/// on the payloads the grammar accepts.
pub fn decode_payload(s: &str) -> (r: Result<MessageData, ProtocolDecodeError>)
    ensures
        match r {
            Result::Ok(m) => parse_payload(s@) == Option::Some(m@),
            Result::Err(e) => parse_payload(s@) is None && e
                == ProtocolDecodeError::MalformedPayload,
        },
{
    let chars = crate::text::str_chars(s);
    let i = exec_skip_ws(&chars, 0);
    if !(i < chars.len() && chars[i] == '{') {
        return Result::Err(ProtocolDecodeError::MalformedPayload);
    }
    let j = exec_skip_ws(&chars, i + 1);
    let acc0 = PayloadAccX { from: Option::None, message: Option::None };
    proof {
        assert(acc0@ == empty_payload_acc());
    }
    let parsed: Option<(PayloadAccX, usize)>;
    if j < chars.len() && chars[j] == '}' {
        parsed = Option::Some((acc0, j + 1));
    } else {
        match p_payload_member(&chars, i + 1, acc0) {
            Option::Some((a1, k)) => {
                proof {
                    lemma_parse_payload_member(chars@, i + 1 as int, empty_payload_acc());
                }
                parsed = p_payload_members(&chars, k, a1);
            },
            Option::None => {
                parsed = Option::None;
            },
        }
    }
    match parsed {
        Option::None => Result::Err(ProtocolDecodeError::MalformedPayload),
        Option::Some((acc, end)) => {
            let fin = exec_skip_ws(&chars, end);
            if fin != chars.len() {
                return Result::Err(ProtocolDecodeError::MalformedPayload);
            }
            match (acc.from, acc.message) {
                (Option::Some(f), Option::Some(m)) => Result::Ok(
                    MessageData {
                        from: crate::text::chars_string(&f),
                        message: crate::text::chars_string(&m),
                    },
                ),
                _ => Result::Err(ProtocolDecodeError::MalformedPayload),
            }
        },
    }
}

} // verus!
