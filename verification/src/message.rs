//! What travels between client and server: chat messages and handshakes,
//! and the per-user record that the server keeps.
use std::collections::VecDeque;
use vstd::prelude::*;
use crate::color::SerdeColor;

verus! {

/// A chat message; every part may be missing.
#[derive(Debug, PartialEq, Eq)]
pub struct Message {
    pub name: Option<String>,
    pub timestamp: Option<String>,
    pub message: Option<String>,
    pub color: Option<SerdeColor>,
}

/// A copy of an optional string.
pub fn copy_opt_string(s: &Option<String>) -> (res: Option<String>)
    ensures
        res == *s,
{
    match s {
        Some(t) => Some(t.clone()),
        None => None,
    }
}

impl Clone for Message {
    fn clone(&self) -> (res: Self)
        ensures
            res == *self,
    {
        Message {
            name: copy_opt_string(&self.name),
            timestamp: copy_opt_string(&self.timestamp),
            message: copy_opt_string(&self.message),
            color: self.color,
        }
    }
}

impl Message {
    pub fn new(
        name: Option<String>,
        timestamp: Option<String>,
        message: Option<String>,
        color: Option<SerdeColor>,
    ) -> (res: Self)
        ensures
            res.name == name,
            res.timestamp == timestamp,
            res.message == message,
            res.color == color,
    {
        Message { name, timestamp, message, color }
    }
}

/// A message together with the id of the user who sent it.
#[derive(Debug, PartialEq, Eq)]
pub struct MessageData {
    pub message: Message,
    pub sender_id: usize,
}

/// The first exchange of a connection: the user's name, the buffer size the
/// sender reads with, and (from the server) the color it assigned.
#[derive(Debug, PartialEq, Eq)]
pub struct Handshake {
    pub name: String,
    pub buffer_size: usize,
    pub color: Option<SerdeColor>,
}

impl Clone for Handshake {
    fn clone(&self) -> (res: Self)
        ensures
            res == *self,
    {
        Handshake { name: self.name.clone(), buffer_size: self.buffer_size, color: self.color }
    }
}

impl Handshake {
    pub fn new(name: String, buffer_size: usize, color: Option<SerdeColor>) -> (res: Self)
        ensures
            res.name == name,
            res.buffer_size == buffer_size,
            res.color == color,
    {
        Handshake { name, buffer_size, color }
    }
}

/// A connected user as the server keeps it: name, color, the messages the
/// user sent, and whether the user gave the sudo code.
#[derive(Debug)]
pub struct Client {
    pub name: String,
    pub color: SerdeColor,
    pub messages: VecDeque<Message>,
    pub sudo: bool,
}

/// A message from `name`, stamped `ts`, saying `text`, in `color`.
pub open spec fn message_is(
    m: Message,
    name: Seq<char>,
    text: Seq<char>,
    color: SerdeColor,
    ts: Seq<char>,
) -> bool {
    &&& m.name matches Some(n) && n@ == name
    &&& m.timestamp matches Some(t) && t@ == ts
    &&& m.message matches Some(x) && x@ == text
    &&& m.color == Some(color)
}

/// The text of an optional string, or `default` when it is missing.
pub open spec fn text_or(s: Option<String>, default: Seq<char>) -> Seq<char> {
    match s {
        Some(t) => t@,
        None => default,
    }
}

/// One line of a message history: `name: timestamp: text`.
pub open spec fn history_line(m: Message) -> Seq<char> {
    text_or(m.name, "Unknown"@) + ": "@ + text_or(m.timestamp, "Unknown time"@) + ": "@ + text_or(
        m.message,
        ""@,
    )
}

/// Lines joined with `"\n"` between them.
pub open spec fn join_lines(lines: Seq<Seq<char>>) -> Seq<char>
    decreases lines.len(),
{
    if lines.len() == 0 {
        seq![]
    } else if lines.len() == 1 {
        lines[0]
    } else {
        join_lines(lines.drop_last()) + "\n"@ + lines.last()
    }
}

/// The text of a whole history: its lines, oldest first, one per line.
pub open spec fn history_text_spec(msgs: Seq<Message>) -> Seq<char> {
    join_lines(msgs.map_values(|m: Message| history_line(m)))
}

/// The text of an optional string, or `default` when it is missing.
pub fn text_or_default(s: &Option<String>, default: &str) -> (res: String)
    ensures
        res@ == text_or(*s, default@),
{
    match s {
        Some(t) => t.clone(),
        None => String::from_str(default),
    }
}

/// One line of a message history.
pub fn format_history_line(m: &Message) -> (res: String)
    ensures
        res@ == history_line(*m),
{
    let mut line = text_or_default(&m.name, "Unknown");
    line.append(": ");
    line.append(text_or_default(&m.timestamp, "Unknown time").as_str());
    line.append(": ");
    line.append(text_or_default(&m.message, "").as_str());
    line
}

/// The text of a history, one line per message in order.
pub fn history_text(msgs: &VecDeque<Message>) -> (res: String)
    ensures
        res@ == history_text_spec(msgs@),
{
    let n = msgs.len();
    let ghost lines = msgs@.map_values(|m: Message| history_line(m));
    let mut out = String::new();
    let mut i: usize = 0;
    while i < n
        invariant
            n == msgs@.len(),
            i <= n,
            lines == msgs@.map_values(|m: Message| history_line(m)),
            out@ == join_lines(lines.take(i as int)),
        decreases n - i,
    {
        let line = format_history_line(&msgs[i]);
        assert(lines.take(i + 1).drop_last() =~= lines.take(i as int));
        if i > 0 {
            out.append("\n");
        } else {
            assert(lines.take(0) =~= Seq::<Seq<char>>::empty());
        }
        out.append(line.as_str());
        i = i + 1;
    }
    assert(lines.take(n as int) =~= lines);
    out
}

impl Client {
    /// A newly connected user: no messages yet, no sudo.
    pub fn new(name: String, color: SerdeColor) -> (res: Self)
        ensures
            res.name == name,
            res.color == color,
            res.messages@ == Seq::<Message>::empty(),
            !res.sudo,
    {
        Client { name, color, messages: VecDeque::new(), sudo: false }
    }

    /// Records a message the user sent.
    pub fn add_message(&mut self, message: Message)
        ensures
            final(self).messages@ == old(self).messages@.push(message),
            final(self).name == old(self).name,
            final(self).color == old(self).color,
            final(self).sudo == old(self).sudo,
    {
        self.messages.push_back(message);
    }

    /// The user's own history, or an error when the user has sent nothing.
    pub fn get_messages(&self) -> (res: Result<String, ()>)
        ensures
            self.messages@.len() == 0 ==> res is Err,
            self.messages@.len() > 0 ==> (res matches Ok(t) && t@ == history_text_spec(
                self.messages@,
            )),
    {
        if self.messages.len() == 0 {
            Err(())
        } else {
            Ok(history_text(&self.messages))
        }
    }
}

} // verus!
