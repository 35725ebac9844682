//! A chat client's side: the name it joined under, the payloads it has
//! received, and what its join and send buttons do.
use vstd::prelude::*;
use crate::chat::payload::{Payload, PayloadInner};
use crate::text::opt_text;

verus! {

/// The lowercase hexadecimal digit of `n`, below sixteen.
pub open spec fn hex_digit(n: int) -> char {
    if n < 10 {
        (48 + n) as char
    } else {
        (87 + n) as char
    }
}

/// How one character stands inside a JSON string: the quote and the
/// backslash behind a backslash; backspace, tab, line feed, form feed and
/// carriage return as `\b`, `\t`, `\n`, `\f`, `\r`; any other character
/// below U+0020 as `\u00` and two lowercase hexadecimal digits; every other
/// character as itself.
pub open spec fn json_char_escape(c: char) -> Seq<char> {
    if c == '"' {
        seq!['\\', '"']
    } else if c == '\\' {
        seq!['\\', '\\']
    } else if c == '\u{8}' {
        seq!['\\', 'b']
    } else if c == '\t' {
        seq!['\\', 't']
    } else if c == '\n' {
        seq!['\\', 'n']
    } else if c == '\u{c}' {
        seq!['\\', 'f']
    } else if c == '\r' {
        seq!['\\', 'r']
    } else if (c as int) < 0x20 {
        seq!['\\', 'u', '0', '0', hex_digit((c as int) / 16), hex_digit((c as int) % 16)]
    } else {
        seq![c]
    }
}

/// The characters of `text`, each escaped as inside a JSON string.
pub open spec fn json_escaped(text: Seq<char>) -> Seq<char>
    decreases text.len(),
{
    if text.len() == 0 {
        Seq::empty()
    } else {
        json_escaped(text.drop_last()) + json_char_escape(text.last())
    }
}

/// The JSON text of the string `text`: a quote, the escaped characters and a
/// quote.
pub open spec fn json_string_text(text: Seq<char>) -> Seq<char> {
    seq!['"'] + json_escaped(text) + seq!['"']
}

/// The JSON text of `serde_json::Value::String(text)`, as its `Display`
/// writes it with the compact formatter. Claimed: the result is
/// [`json_string_text`] of the text, the escaping that serde_json's escape
/// table and `write_char_escape` perform.
#[verifier::external_body]
pub(crate) fn json_string(text: &str) -> (json: String)
    ensures
        json@ == json_string_text(text@),
{
    serde_json::Value::String(text.to_string()).to_string()
}

/// The name the client joined under, if it has joined.
pub struct Session {
    pub username: Option<String>,
}

impl Session {
    /// A client that has not joined.
    pub fn new() -> (s: Session)
        ensures
            s.username is None,
    {
        Session { username: None }
    }

    /// The name the client joined under.
    pub fn get_username(&self) -> (name: Option<String>)
        ensures
            opt_text(name) == opt_text(self.username),
    {
        match &self.username {
            Some(n) => Some(n.clone()),
            None => None,
        }
    }

    /// Records the name the client joined under.
    pub fn set_username(&mut self, name: String)
        ensures
            final(self).username == Some(name),
    {
        self.username = Some(name);
    }
}

/// What a client event asks of the payload list.
pub enum PayloadHandler {
    /// Show one more payload.
    AddPayload(Payload),
    /// Nothing to change.
    Nothing,
}

/// The payloads a client shows, oldest first.
pub struct PayloadList {
    pub payloads: Vec<Payload>,
}

impl PayloadList {
    /// An empty list.
    pub fn create() -> (list: PayloadList)
        ensures
            list.payloads@.len() == 0,
    {
        PayloadList { payloads: Vec::new() }
    }

    /// Applies an event: a payload to add is appended. Returns whether the list
    /// changed and is to be drawn again.
    pub fn update(&mut self, msg: PayloadHandler) -> (redraw: bool)
        ensures
            match msg {
                PayloadHandler::AddPayload(p) => redraw && final(self).payloads@ == old(self).payloads@.push(p),
                PayloadHandler::Nothing => !redraw && final(self).payloads@ == old(self).payloads@,
            },
    {
        match msg {
            PayloadHandler::AddPayload(item) => {
                self.payloads.push(item);
                true
            },
            PayloadHandler::Nothing => false,
        }
    }
}

/// The join button, with the name typed in `input` (none where the field
/// could not be read): the name is recorded as the client's and returned to
/// be sent to the server. Nothing happens without input.
pub fn join_clicked(session: &mut Session, input: Option<String>) -> (to_send: Option<String>)
    ensures
        match input {
            Some(v) => to_send == Some(v) && final(session).username == Some(v),
            None => to_send is None && final(session).username == old(session).username,
        },
{
    match input {
        Some(value) => {
            let sent = value.clone();
            session.set_username(value);
            Some(sent)
        },
        None => None,
    }
}

/// The send button, with the text typed in `input` (none where the field
/// could not be read): a message payload from the client's name, its content
/// the text as a JSON string. Nothing is sent before the client has joined, or
/// without input.
pub fn send_clicked(session: &Session, input: Option<String>) -> (handler: PayloadHandler)
    ensures
        match (session.username, input) {
            (Some(name), Some(v)) => handler matches PayloadHandler::AddPayload(p) && p.inner matches PayloadInner::Message(
                msg,
            ) && msg.sender@ == name@ && msg.content@ == json_string_text(v@),
            _ => handler is Nothing,
        },
{
    let name = match session.get_username() {
        Some(n) => n,
        None => return PayloadHandler::Nothing,
    };
    let value = match input {
        Some(v) => v,
        None => return PayloadHandler::Nothing,
    };
    PayloadHandler::AddPayload(Payload::new_message(name.as_str(), json_string(value.as_str())))
}

} // verus!
