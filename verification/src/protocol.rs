//! Relay wire frames: JSON text messages over the WebSocket, discriminated by `op`. The
//! `payload` is opaque to the relay: it is the sealed envelope that the clients exchange,
//! and the relay carries it without looking inside.

use serde_json::Value;
use vstd::prelude::*;

use crate::json::{is_json, read_json, Json};
use crate::laws::wire::law_frames_read_back;

verus! {

/// Declares serde_json's value to the verifier; nothing inside it is visible.
#[verifier::external_type_specification]
#[verifier::external_body]
pub struct ExValue(serde_json::Value);

/// The compact JSON text that a value holds.
pub uninterp spec fn json_text(value: Value) -> Seq<char>;

/// `serde_json::to_string` on a value: its compact JSON text, which is one JSON value and
/// nothing more.
#[verifier::external_body]
fn value_to_json(value: &Value) -> (text: String)
    ensures
        text@ == json_text(*value),
        is_json(text@),
{
    serde_json::to_string(value).expect("a value serializes")
}

/// The lowercase hexadecimal digit of a number below sixteen.
pub open spec fn hex_digit(n: int) -> char {
    if n < 10 {
        ('0' as int + n) as char
    } else {
        ('a' as int + (n - 10)) as char
    }
}

/// How one character stands inside a JSON string: the quote, the backslash and the
/// control characters are escaped, every other character stands for itself.
pub open spec fn json_escape(c: char) -> Seq<char> {
    if c == '"' || c == '\\' {
        seq!['\\', c]
    } else if c == '\u{8}' {
        seq!['\\', 'b']
    } else if c == '\t' {
        seq!['\\', 't']
    } else if c == '\n' {
        seq!['\\', 'n']
    } else if c == '\u{c}' {
        seq!['\\', 'f']
    } else if c == '\r' {
        seq!['\\', 'r']
    } else if (c as int) < 0x20 {
        seq!['\\', 'u', '0', '0', hex_digit(c as int / 16), hex_digit(c as int % 16)]
    } else {
        seq![c]
    }
}

/// The characters of `s`, each as it stands inside a JSON string.
pub open spec fn json_escaped(s: Seq<char>) -> Seq<char>
    decreases s.len(),
{
    if s.len() == 0 {
        Seq::empty()
    } else {
        json_escape(s.first()) + json_escaped(s.drop_first())
    }
}

/// `s` as a JSON string, quotes included.
pub open spec fn json_string(s: Seq<char>) -> Seq<char> {
    seq!['"'] + json_escaped(s) + seq!['"']
}

/// `serde_json::to_string` on a string: the text in quotes, with the quote, the backslash
/// and the control characters below U+0020 escaped, each as `json_escape` says.
#[verifier::external_body]
fn str_to_json(s: &str) -> (text: String)
    ensures
        text@ == json_string(s@),
{
    serde_json::to_string(s).expect("a string serializes")
}

/// Frames a client may send to the relay.
#[derive(Debug)]
pub enum ClientFrame {
    Subscribe { topic: String },
    Unsubscribe { topic: String },
    Publish {
        topic: String,
        /// Publisher-chosen correlation id, echoed in the ack and in the deliver frame so
        /// receivers can de-duplicate redeliveries.
        id: Option<String>,
        payload: Value,
    },
}

/// Frames the relay sends to clients.
#[derive(Debug)]
pub enum ServerFrame<'a> {
    /// A publish forwarded to the other subscribers of the topic.
    Deliver { topic: &'a str, id: Option<&'a str>, payload: &'a Value },
    /// Confirms a publish was accepted: delivered now, or mailboxed for the time to live
    /// unless mailboxes hold nothing.
    Ack { topic: &'a str, id: Option<&'a str> },
    /// Protocol or limit violation. The connection may be closed right after.
    Error { code: &'a str, message: &'a str, id: Option<&'a str> },
}

/// The text of an optional string.
pub open spec fn opt_text(s: Option<&str>) -> Option<Seq<char>> {
    match s {
        Some(text) => Some(text@),
        None => None,
    }
}

/// The `id` member, with the comma before it; nothing where there is no id.
pub open spec fn id_member(id: Option<Seq<char>>) -> Seq<char> {
    match id {
        Some(text) => ",\"id\":"@ + json_string(text),
        None => Seq::empty(),
    }
}

/// The text of a `deliver` frame; `payload` is JSON text.
pub open spec fn deliver_json(
    topic: Seq<char>,
    id: Option<Seq<char>>,
    payload: Seq<char>,
) -> Seq<char> {
    "{\"op\":\"deliver\",\"topic\":"@ + json_string(topic) + id_member(id) + ",\"payload\":"@
        + payload + "}"@
}

/// The text of an `ack` frame.
pub open spec fn ack_json(topic: Seq<char>, id: Option<Seq<char>>) -> Seq<char> {
    "{\"op\":\"ack\",\"topic\":"@ + json_string(topic) + id_member(id) + "}"@
}

/// The text of an `error` frame.
pub open spec fn error_json(
    code: Seq<char>,
    message: Seq<char>,
    id: Option<Seq<char>>,
) -> Seq<char> {
    "{\"op\":\"error\",\"code\":"@ + json_string(code) + ",\"message\":"@ + json_string(message)
        + id_member(id) + "}"@
}

/// The `id` member of an object; nothing where there is no id.
pub open spec fn id_entry(id: Option<Seq<char>>) -> Seq<(Seq<char>, Json)> {
    match id {
        Some(text) => seq![("id"@, Json::Text(text))],
        None => Seq::empty(),
    }
}

impl<'a> ServerFrame<'a> {
    /// The frame's text on the wire.
    pub open spec fn json(self) -> Seq<char> {
        match self {
            ServerFrame::Deliver { topic, id, payload } => deliver_json(
                topic@,
                opt_text(id),
                json_text(*payload),
            ),
            ServerFrame::Ack { topic, id } => ack_json(topic@, opt_text(id)),
            ServerFrame::Error { code, message, id } => error_json(
                code@,
                message@,
                opt_text(id),
            ),
        }
    }

    /// The frame as a JSON object: `op` first, then the members in order, and no `id`
    /// member where there is no id. A payload is the value that its own text is.
    pub open spec fn object(self) -> Json {
        match self {
            ServerFrame::Deliver { topic, id, payload } => Json::Object(
                seq![("op"@, Json::Text("deliver"@)), ("topic"@, Json::Text(topic@))] + id_entry(
                    opt_text(id),
                ) + seq![("payload"@, read_json(json_text(*payload))->0)],
            ),
            ServerFrame::Ack { topic, id } => Json::Object(
                seq![("op"@, Json::Text("ack"@)), ("topic"@, Json::Text(topic@))] + id_entry(
                    opt_text(id),
                ),
            ),
            ServerFrame::Error { code, message, id } => Json::Object(
                seq![
                    ("op"@, Json::Text("error"@)),
                    ("code"@, Json::Text(code@)),
                    ("message"@, Json::Text(message@)),
                ] + id_entry(opt_text(id)),
            ),
        }
    }

    /// The frame as one compact JSON text, from which all of it can be read back.
    pub fn to_json(&self) -> (text: String)
        ensures
            text@ == self.json(),
            read_json(text@) == Some(self.object()),
    {
        let text = self.text();
        proof {
            law_frames_read_back(*self);
        }
        text
    }

    /// The frame as one compact JSON text.
    fn text(&self) -> (text: String)
        ensures
            text@ == self.json(),
            *self matches ServerFrame::Deliver { payload, .. } ==> is_json(json_text(*payload)),
    {
        match self {
            ServerFrame::Deliver { topic, id, payload } => {
                let mut text = String::from_str("{\"op\":\"deliver\",\"topic\":");
                text.append(str_to_json(topic).as_str());
                append_id(&mut text, id);
                text.append(",\"payload\":");
                text.append(value_to_json(payload).as_str());
                text.append("}");
                text
            },
            ServerFrame::Ack { topic, id } => {
                let mut text = String::from_str("{\"op\":\"ack\",\"topic\":");
                text.append(str_to_json(topic).as_str());
                append_id(&mut text, id);
                text.append("}");
                text
            },
            ServerFrame::Error { code, message, id } => {
                let mut text = String::from_str("{\"op\":\"error\",\"code\":");
                text.append(str_to_json(code).as_str());
                text.append(",\"message\":");
                text.append(str_to_json(message).as_str());
                append_id(&mut text, id);
                text.append("}");
                text
            },
        }
    }
}

/// Appends the `id` member, if there is an id.
fn append_id(text: &mut String, id: &Option<&str>)
    ensures
        final(text)@ == old(text)@ + id_member(opt_text(*id)),
{
    match id {
        Some(id) => {
            text.append(",\"id\":");
            text.append(str_to_json(id).as_str());
        },
        None => {},
    }
    assert(text@ =~= old(text)@ + id_member(opt_text(*id)));
}

/// The characters with Unicode's `White_Space` property.
pub open spec fn white_space(c: char) -> bool {
    ||| '\u{9}' <= c <= '\u{d}'
    ||| c == ' '
    ||| c == '\u{85}'
    ||| c == '\u{a0}'
    ||| c == '\u{1680}'
    ||| '\u{2000}' <= c <= '\u{200a}'
    ||| c == '\u{2028}'
    ||| c == '\u{2029}'
    ||| c == '\u{202f}'
    ||| c == '\u{205f}'
    ||| c == '\u{3000}'
}

/// Whether the character is white space.
fn is_white_space(c: char) -> (found: bool)
    ensures
        found == white_space(c),
{
    ('\u{9}' <= c && c <= '\u{d}') || c == ' ' || c == '\u{85}' || c == '\u{a0}' || c == '\u{1680}'
        || ('\u{2000}' <= c && c <= '\u{200a}') || c == '\u{2028}' || c == '\u{2029}' || c
        == '\u{202f}' || c == '\u{205f}' || c == '\u{3000}'
}

/// The longest topic that is accepted, in bytes of UTF-8.
pub const MAX_TOPIC_BYTES: usize = 128;

/// A topic that the relay accepts: not empty, of a sane length, without white space.
pub open spec fn valid_topic(topic: Seq<char>) -> bool {
    &&& topic.len() > 0
    &&& vstd::utf8::encode_utf8(topic).len() <= MAX_TOPIC_BYTES
    &&& forall|i: int| 0 <= i < topic.len() ==> !white_space(#[trigger] topic[i])
}

/// Topics are opaque bearer capabilities minted by the clients. The relay only bounds
/// them: non-empty, sane length, no white space.
pub fn topic_is_valid(topic: &str) -> (valid: bool)
    ensures
        valid == valid_topic(topic@),
{
    if topic.is_empty() || topic.as_bytes().len() > MAX_TOPIC_BYTES {
        return false;
    }
    for c in it: topic.chars()
        invariant
            it.seq() == topic@,
            forall|i: int| 0 <= i < it.index() ==> !white_space(#[trigger] topic@[i]),
    {
        if is_white_space(c) {
            assert(white_space(topic@[it.index()]));
            return false;
        }
    }
    true
}

} // verus!
