//! The client's decisions: its handshake, how typed input is cut into
//! messages, what each typed line does, and how messages from the server
//! are shown. Reading, writing and printing stay with the caller.
use vstd::prelude::*;
use crate::color::{SerdeColor, color_or_red, color_or_red_spec};
use crate::command::{ClientCommand, client_command_spec};
use crate::message::{Handshake, Message, message_is, text_or, text_or_default};
use crate::text::{str_equal, trim, trim_str};

verus! {

/// Size of the buffers the client reads with.
pub const BUFFER_SIZE: usize = 1024;

/// Typed input longer than this is sent in chunks of this size.
pub const CHUNK_SIZE: usize = 1024;

/// Marks the start of a chunked message.
pub const CHUNKED_SIGNAL: &'static str = "START_CHUNK";

/// Marks the end of a chunked message.
pub const FINAL_CHUNK_SIGNAL: &'static str = "END_CHUNK";

/// Tells the client that the server closed the connection.
pub const CLOSE_SIGNAL: &'static str = "CLOSE_CONNECTION";

/// Tells the client that its color changed.
pub const COLOR_CHANGE_SIGNAL: &'static str = "COLOR_CHANGE";

/// Seconds after which the client stops trying to connect.
pub const CONNECTION_TIMEOUT: u64 = 30;

/// Seconds between two connection attempts.
pub const RETRY_DELAY: u64 = 3;

/// The help text the client shows for `/help`.
pub const HELP_MESSAGE: &'static str = "
Commands:
/toggle-color - Toggle color mode
/change-color to change your color
/view-messages to view your messages.
/help - Show this help message
/sudo (password) - Be granted admin privileges
/close - Close gracefully the connection
/quit - Forcefully quit the application
";

/// The text that `String::from_utf8_lossy` makes of some bytes: invalid
/// sequences become U+FFFD.
pub uninterp spec fn utf8_lossy_spec(bytes: Seq<u8>) -> Seq<char>;

/// Calls `String::from_utf8_lossy`. On valid UTF-8 it gives the decoded text
/// unchanged.
#[verifier::external_body]
fn utf8_lossy(bytes: &[u8]) -> (res: String)
    ensures
        res@ == utf8_lossy_spec(bytes@),
        vstd::utf8::valid_utf8(bytes@) ==> res@ == vstd::utf8::decode_utf8(bytes@),
{
    String::from_utf8_lossy(bytes).into_owned()
}

/// The user's name and color as this client knows them.
pub struct Instance {
    pub name: String,
    pub color: SerdeColor,
}

/// The handshake a client opens with: its name and buffer size, no color.
pub fn initial_handshake(name: &str) -> (res: Handshake)
    ensures
        res.name@ == name@,
        res.buffer_size == BUFFER_SIZE,
        res.color is None,
{
    Handshake::new(String::from_str(name), BUFFER_SIZE, None)
}

/// Takes in the server's handshake answer: the client adopts the name and
/// the color (red if none) that the server gave. Returns whether the server
/// kept the name the client asked for.
pub fn apply_handshake_response(instance: &mut Instance, handshake: Handshake) -> (res: bool)
    ensures
        res == (handshake.name@ == old(instance).name@),
        final(instance).name@ == handshake.name@,
        final(instance).color == color_or_red_spec(handshake.color),
{
    let matched = instance.name == handshake.name;
    instance.color = color_or_red(handshake.color);
    if !matched {
        instance.name = handshake.name;
    }
    matched
}

/// One chunk of typed input as it is sent: decoded (invalid UTF-8 replaced)
/// and trimmed.
pub open spec fn line_text(bytes: Seq<u8>) -> Seq<char> {
    trim(utf8_lossy_spec(bytes))
}

/// The `i`-th chunk of `CHUNK_SIZE` bytes of `bytes` (the last may be shorter).
pub open spec fn chunk_of(bytes: Seq<u8>, i: int) -> Seq<u8> {
    bytes.subrange(
        i * 1024,
        if (i + 1) * 1024 <= bytes.len() {
            (i + 1) * 1024
        } else {
            bytes.len() as int
        },
    )
}

/// Number of chunks of `CHUNK_SIZE` bytes in `n` bytes.
pub open spec fn chunk_count(n: int) -> int {
    (n + 1023) / 1024
}

/// The lines sent for one read of typed input: the input itself when it
/// fits in a chunk, else the start signal, each chunk, and the end signal.
pub open spec fn input_lines_spec(bytes: Seq<u8>) -> Seq<Seq<char>> {
    if bytes.len() > 1024 {
        seq![CHUNKED_SIGNAL@] + Seq::new(
            chunk_count(bytes.len() as int) as nat,
            |i: int| line_text(chunk_of(bytes, i)),
        ) + seq![FINAL_CHUNK_SIGNAL@]
    } else {
        seq![line_text(bytes)]
    }
}

/// Copies `bytes[start..end]`.
fn copy_range(bytes: &[u8], start: usize, end: usize) -> (res: Vec<u8>)
    requires
        start <= end <= bytes@.len(),
    ensures
        res@ == bytes@.subrange(start as int, end as int),
{
    let mut out: Vec<u8> = Vec::new();
    let mut i: usize = start;
    while i < end
        invariant
            start <= i <= end <= bytes@.len(),
            out@ == bytes@.subrange(start as int, i as int),
        decreases end - i,
    {
        out.push(bytes[i]);
        assert(bytes@.subrange(start as int, i + 1) =~= bytes@.subrange(start as int, i as int).push(
            bytes@[i as int],
        ));
        i = i + 1;
    }
    out
}

/// One chunk of typed input, decoded and trimmed; valid UTF-8 arrives as
/// the text it encodes.
pub fn input_line(bytes: &[u8]) -> (res: String)
    ensures
        res@ == line_text(bytes@),
        vstd::utf8::valid_utf8(bytes@) ==> res@ == trim(vstd::utf8::decode_utf8(bytes@)),
{
    let text = utf8_lossy(bytes);
    trim_str(text.as_str())
}

/// Cuts one read of typed input into the lines to send to the server.
pub fn split_input(buffer: &[u8]) -> (res: Vec<String>)
    ensures
        res@.len() == input_lines_spec(buffer@).len(),
        forall|i: int| 0 <= i < res@.len() ==> #[trigger] res@[i]@ == input_lines_spec(buffer@)[i],
        buffer@.len() <= 1024 && vstd::utf8::valid_utf8(buffer@) ==> res@[0]@ == trim(
            vstd::utf8::decode_utf8(buffer@),
        ),
        forall|i: int|
            buffer@.len() > 1024 && 0 <= i < chunk_count(buffer@.len() as int)
                && vstd::utf8::valid_utf8(#[trigger] chunk_of(buffer@, i)) ==> res@[i + 1]@ == trim(
                vstd::utf8::decode_utf8(chunk_of(buffer@, i)),
            ),
{
    let n = buffer.len();
    let mut out: Vec<String> = Vec::new();
    if n <= CHUNK_SIZE {
        out.push(input_line(buffer));
        return out;
    }
    let ghost expected = input_lines_spec(buffer@);
    let ghost count = chunk_count(n as int);
    out.push(String::from_str(CHUNKED_SIGNAL));
    let mut start: usize = 0;
    let mut i: usize = 0;
    while start < n
        invariant
            n == buffer@.len(),
            n > 1024,
            count == chunk_count(n as int),
            expected == input_lines_spec(buffer@),
            i * 1024 <= n ==> start == i * 1024,
            i * 1024 > n ==> start == n,
            start <= n,
            i <= count,
            start < n ==> i < count,
            start >= n ==> i == count,
            out@.len() == i + 1,
            forall|k: int| 0 <= k < out@.len() ==> #[trigger] out@[k]@ == expected[k],
            forall|k: int|
                0 <= k < i && vstd::utf8::valid_utf8(#[trigger] chunk_of(buffer@, k)) ==> out@[k
                    + 1]@ == trim(vstd::utf8::decode_utf8(chunk_of(buffer@, k))),
        decreases n - start,
    {
        let end = if n - start > CHUNK_SIZE {
            start + CHUNK_SIZE
        } else {
            n
        };
        let chunk = copy_range(buffer, start, end);
        let line = input_line(chunk.as_slice());
        assert(chunk@ == chunk_of(buffer@, i as int));
        assert(expected[i + 1] == line_text(chunk_of(buffer@, i as int)));
        out.push(line);
        start = end;
        i = i + 1;
    }
    out.push(String::from_str(FINAL_CHUNK_SIGNAL));
    out
}

/// What the client does with one line it read from the user.
pub enum OutgoingAction {
    /// Switch colored output on or off.
    ToggleColor,
    /// Print the help text.
    ShowHelp,
    /// Quit at once.
    Quit,
    /// Encrypt and send this message to the server.
    Send(Message),
}

/// The text sent for a typed line: chunk signals become chunk markers.
pub open spec fn outgoing_text(line: Seq<char>) -> Seq<char> {
    if line == CHUNKED_SIGNAL@ {
        "CHUNK_MESSAGE"@
    } else if line == FINAL_CHUNK_SIGNAL@ {
        "END_CHUNK"@
    } else {
        line
    }
}

/// Decides what a typed line does: a client command, or a message stamped
/// with the user's name, the time and the user's color.
pub fn outgoing_action(line: &str, name: &str, color: SerdeColor, timestamp: &str) -> (res:
    OutgoingAction)
    ensures
        client_command_spec(line@) == ClientCommand::ToogleColor ==> res is ToggleColor,
        client_command_spec(line@) == ClientCommand::Help ==> res is ShowHelp,
        client_command_spec(line@) == ClientCommand::Quit ==> res is Quit,
        client_command_spec(line@) == ClientCommand::Invalid ==> (res matches OutgoingAction::Send(m)
            && message_is(m, name@, outgoing_text(line@), color, timestamp@)),
{
    match ClientCommand::from_str(line) {
        ClientCommand::ToogleColor => OutgoingAction::ToggleColor,
        ClientCommand::Help => OutgoingAction::ShowHelp,
        ClientCommand::Quit => OutgoingAction::Quit,
        ClientCommand::Invalid => {
            let text = if str_equal(line, CHUNKED_SIGNAL) {
                String::from_str("CHUNK_MESSAGE")
            } else if str_equal(line, FINAL_CHUNK_SIGNAL) {
                String::from_str("END_CHUNK")
            } else {
                String::from_str(line)
            };
            OutgoingAction::Send(
                Message::new(
                    Some(String::from_str(name)),
                    Some(String::from_str(timestamp)),
                    Some(text),
                    Some(color),
                ),
            )
        },
    }
}

/// What the client keeps between messages from the server: whether a
/// chunked message is being received, and its chunks so far.
pub struct IncomingState {
    pub is_chunked_message: bool,
    pub chunk_buffer: Vec<String>,
}

/// What the client does with one message from the server.
pub enum IncomingAction {
    /// Nothing to show.
    Nothing,
    /// Show a notice in plain text.
    Notice(String),
    /// Show `text` in `color` (when colors are on).
    Show { text: String, color: SerdeColor },
    /// The server closed the connection: count down and exit.
    Close,
    /// The server changed the user's color.
    SetColor(SerdeColor),
}

/// The chunks put together, in order, with nothing between them.
pub open spec fn concat_all(chunks: Seq<Seq<char>>) -> Seq<char>
    decreases chunks.len(),
{
    if chunks.len() == 0 {
        seq![]
    } else {
        concat_all(chunks.drop_last()) + chunks.last()
    }
}

/// The views of a list of strings.
pub open spec fn views(v: Seq<String>) -> Seq<Seq<char>> {
    v.map_values(|s: String| s@)
}

/// A line as shown: `sender: text`, the sender "Unknown sender" when missing.
pub open spec fn shown_line(name: Option<String>, text: Seq<char>) -> Seq<char> {
    text_or(name, "Unknown sender"@) + ": "@ + text
}

/// What the client does with a message from the server, in mathematical terms.
pub enum IncomingEffect {
    Nothing,
    Notice(Seq<char>),
    Show(Seq<char>, SerdeColor),
    Close,
    SetColor(SerdeColor),
}

/// The state between messages from the server, in mathematical terms.
pub struct IncomingView {
    pub chunked: bool,
    pub chunks: Seq<Seq<char>>,
}

impl View for IncomingState {
    type V = IncomingView;

    open spec fn view(&self) -> IncomingView {
        IncomingView { chunked: self.is_chunked_message, chunks: views(self.chunk_buffer@) }
    }
}

impl View for IncomingAction {
    type V = IncomingEffect;

    open spec fn view(&self) -> IncomingEffect {
        match self {
            IncomingAction::Nothing => IncomingEffect::Nothing,
            IncomingAction::Notice(t) => IncomingEffect::Notice(t@),
            IncomingAction::Show { text, color } => IncomingEffect::Show(text@, *color),
            IncomingAction::Close => IncomingEffect::Close,
            IncomingAction::SetColor(c) => IncomingEffect::SetColor(*c),
        }
    }
}

impl IncomingView {
    /// Chunks are only ever held while a chunked message is being received.
    pub open spec fn wf(self) -> bool {
        !self.chunked ==> self.chunks.len() == 0
    }
}

/// How the client state and its output follow from one message.
pub open spec fn incoming_step(s: IncomingView, msg: Message) -> (IncomingView, IncomingEffect) {
    match msg.message {
        None => (s, IncomingEffect::Nothing),
        Some(m) => if m@ == CHUNKED_SIGNAL@ {
            (
                IncomingView { chunked: true, ..s },
                IncomingEffect::Notice("Starting to accumulate chunked messages"@),
            )
        } else if m@ == FINAL_CHUNK_SIGNAL@ {
            (
                IncomingView { chunked: false, chunks: seq![] },
                IncomingEffect::Show(
                    shown_line(msg.name, concat_all(s.chunks)),
                    color_or_red_spec(msg.color),
                ),
            )
        } else if m@ == CLOSE_SIGNAL@ {
            (s, IncomingEffect::Close)
        } else if m@ == COLOR_CHANGE_SIGNAL@ {
            (s, IncomingEffect::SetColor(color_or_red_spec(msg.color)))
        } else if s.chunked {
            (IncomingView { chunks: s.chunks.push(m@), ..s }, IncomingEffect::Nothing)
        } else {
            (s, IncomingEffect::Show(shown_line(msg.name, m@), color_or_red_spec(msg.color)))
        },
    }
}

impl IncomingState {
    /// Not in the middle of a chunked message.
    pub fn new() -> (res: Self)
        ensures
            res@ == (IncomingView { chunked: false, chunks: seq![] }),
            res@.wf(),
    {
        let res = IncomingState { is_chunked_message: false, chunk_buffer: Vec::new() };
        assert(res@.chunks =~= seq![]);
        res
    }

    /// The chunks received so far, put together in order.
    fn joined_chunks(&self) -> (res: String)
        ensures
            res@ == concat_all(views(self.chunk_buffer@)),
    {
        let mut out = String::new();
        let mut i: usize = 0;
        let ghost vs = views(self.chunk_buffer@);
        while i < self.chunk_buffer.len()
            invariant
                i <= self.chunk_buffer@.len(),
                vs == views(self.chunk_buffer@),
                out@ == concat_all(vs.take(i as int)),
            decreases self.chunk_buffer@.len() - i,
        {
            assert(vs.take(i + 1).drop_last() =~= vs.take(i as int));
            out.append(self.chunk_buffer[i].as_str());
            i = i + 1;
        }
        assert(vs.take(self.chunk_buffer@.len() as int) =~= vs);
        out
    }

    /// Reacts to one message from the server.
    pub fn on_server_message(&mut self, msg: Message) -> (res: IncomingAction)
        ensures
            (final(self)@, res@) == incoming_step(old(self)@, msg),
            old(self)@.wf() ==> final(self)@.wf(),
    {
        let ghost old_view = self@;
        let name = msg.name;
        let color = msg.color;
        let text = match msg.message {
            Some(m) => m,
            None => {
                return IncomingAction::Nothing;
            },
        };
        if str_equal(text.as_str(), CHUNKED_SIGNAL) {
            self.is_chunked_message = true;
            IncomingAction::Notice(String::from_str("Starting to accumulate chunked messages"))
        } else if str_equal(text.as_str(), FINAL_CHUNK_SIGNAL) {
            let complete = self.joined_chunks();
            self.chunk_buffer.clear();
            let mut shown = text_or_default(&name, "Unknown sender");
            shown.append(": ");
            shown.append(complete.as_str());
            self.is_chunked_message = false;
            assert(self@.chunks =~= seq![]);
            IncomingAction::Show { text: shown, color: color_or_red(color) }
        } else if str_equal(text.as_str(), CLOSE_SIGNAL) {
            IncomingAction::Close
        } else if str_equal(text.as_str(), COLOR_CHANGE_SIGNAL) {
            IncomingAction::SetColor(color_or_red(color))
        } else if self.is_chunked_message {
            let ghost t = text@;
            self.chunk_buffer.push(text);
            assert(self@.chunks =~= old_view.chunks.push(t));
            IncomingAction::Nothing
        } else {
            let mut shown = text_or_default(&name, "Unknown sender");
            shown.append(": ");
            shown.append(text.as_str());
            IncomingAction::Show { text: shown, color: color_or_red(color) }
        }
    }
}

/// A message whose text is a plain chunk, not one of the signals.
pub open spec fn is_plain_chunk(msg: Message) -> bool {
    msg.message matches Some(m) && m@ != CHUNKED_SIGNAL@ && m@ != FINAL_CHUNK_SIGNAL@ && m@
        != CLOSE_SIGNAL@ && m@ != COLOR_CHANGE_SIGNAL@
}

/// The name a message is shown under: its sender's, or "Unknown sender".
pub open spec fn sender_of(msg: Message) -> Seq<char> {
    match msg.name {
        Some(n) => n@,
        None => "Unknown sender"@,
    }
}

/// The state after a run of messages.
pub open spec fn incoming_after(s: IncomingView, msgs: Seq<Message>) -> IncomingView
    decreases msgs.len(),
{
    if msgs.len() == 0 {
        s
    } else {
        incoming_step(incoming_after(s, msgs.drop_last()), msgs.last()).0
    }
}

/// The texts of a run of messages.
pub open spec fn message_texts(msgs: Seq<Message>) -> Seq<Seq<char>> {
    msgs.map_values(|m: Message| m.message->0@)
}

/// While a chunked message is being received, each plain chunk is kept in
/// order and nothing else changes.
pub proof fn lemma_chunks_accumulate(s: IncomingView, msgs: Seq<Message>)
    requires
        s.chunked,
        forall|i: int| 0 <= i < msgs.len() ==> is_plain_chunk(#[trigger] msgs[i]),
    ensures
        incoming_after(s, msgs) == (IncomingView {
            chunked: true,
            chunks: s.chunks + message_texts(msgs),
        }),
        forall|i: int|
            0 <= i < msgs.len() ==> incoming_step(incoming_after(s, msgs.take(i)), #[trigger] msgs[i]).1
                == IncomingEffect::Nothing,
    decreases msgs.len(),
{
    if msgs.len() > 0 {
        let prev = msgs.drop_last();
        lemma_chunks_accumulate(s, prev);
        assert(is_plain_chunk(msgs[msgs.len() - 1]));
        assert(s.chunks + message_texts(msgs) =~= (s.chunks + message_texts(prev)).push(
            msgs.last().message->0@,
        ));
        assert forall|i: int|
            0 <= i < msgs.len() implies incoming_step(incoming_after(s, msgs.take(i)), #[trigger] msgs[i]).1
            == IncomingEffect::Nothing by {
            if i < msgs.len() - 1 {
                assert(msgs.take(i) =~= prev.take(i));
                assert(msgs[i] == prev[i]);
            } else {
                assert(msgs.take(i) =~= prev);
            }
        }
    } else {
        assert(s.chunks + message_texts(msgs) =~= s.chunks);
    }
}

/// A chunked message is shown whole: after the start signal, the chunks
/// and the end signal, the client shows the sender and all the chunks put
/// together in order, and is ready for the next message.
pub proof fn lemma_chunked_message_shown(
    s: IncomingView,
    start: Message,
    chunks: Seq<Message>,
    end: Message,
)
    requires
        s.chunks.len() == 0,
        start.message matches Some(m) && m@ == CHUNKED_SIGNAL@,
        forall|i: int| 0 <= i < chunks.len() ==> is_plain_chunk(#[trigger] chunks[i]),
        end.message matches Some(m) && m@ == FINAL_CHUNK_SIGNAL@,
    ensures
        ({
            let before_end = incoming_after(incoming_step(s, start).0, chunks);
            let (after, effect) = incoming_step(before_end, end);
            &&& effect == IncomingEffect::Show(
                sender_of(end) + ": "@ + concat_all(message_texts(chunks)),
                color_or_red_spec(end.color),
            )
            &&& after == (IncomingView { chunked: false, chunks: seq![] })
        }),
{
    reveal_strlit("START_CHUNK");
    reveal_strlit("END_CHUNK");
    assert(CHUNKED_SIGNAL@ != FINAL_CHUNK_SIGNAL@) by {
        assert(CHUNKED_SIGNAL@.len() != FINAL_CHUNK_SIGNAL@.len());
    }
    let s1 = incoming_step(s, start).0;
    assert(s1.chunked);
    lemma_chunks_accumulate(s1, chunks);
    assert(s1.chunks + message_texts(chunks) =~= message_texts(chunks));
}

/// Outside a chunked message, an ordinary message is shown at once as its
/// sender's name, `": "` and its text, in its color (red when it has none),
/// and the client's state does not change.
pub proof fn lemma_plain_message_shows_sender(s: IncomingView, msg: Message)
    requires
        !s.chunked,
        is_plain_chunk(msg),
    ensures
        incoming_step(s, msg) == (s, IncomingEffect::Show(
            sender_of(msg) + ": "@ + msg.message->0@,
            color_or_red_spec(msg.color),
        )),
{
}

/// A text sent in one message is shown just as the same text sent as a
/// chunked message of a single chunk, under the same sender and color.
pub proof fn lemma_single_chunk_shown_like_plain(
    s: IncomingView,
    start: Message,
    msg: Message,
    end: Message,
)
    requires
        !s.chunked,
        s.chunks.len() == 0,
        start.message matches Some(m) && m@ == CHUNKED_SIGNAL@,
        is_plain_chunk(msg),
        end.message matches Some(m) && m@ == FINAL_CHUNK_SIGNAL@,
        end.name == msg.name,
        end.color == msg.color,
    ensures
        incoming_step(s, msg).1 == incoming_step(
            incoming_after(incoming_step(s, start).0, seq![msg]),
            end,
        ).1,
{
    lemma_chunked_message_shown(s, start, seq![msg], end);
    let texts = message_texts(seq![msg]);
    assert(texts.drop_last() =~= Seq::<Seq<char>>::empty());
    assert(concat_all(texts.drop_last()) =~= Seq::<char>::empty());
    assert(concat_all(texts) =~= msg.message->0@);
}

/// Byte strings put together in order.
pub open spec fn concat_bytes(parts: Seq<Seq<u8>>) -> Seq<u8>
    decreases parts.len(),
{
    if parts.len() == 0 {
        seq![]
    } else {
        concat_bytes(parts.drop_last()) + parts.last()
    }
}

/// The chunks of a long input.
pub open spec fn chunks_of(bytes: Seq<u8>) -> Seq<Seq<u8>> {
    Seq::new(chunk_count(bytes.len() as int) as nat, |i: int| chunk_of(bytes, i))
}

/// Cutting input into chunks loses and repeats nothing: the chunks, put
/// back together in order, are the input, and each holds 1 to 1024 bytes.
pub proof fn lemma_chunks_cover(bytes: Seq<u8>)
    ensures
        concat_bytes(chunks_of(bytes)) == bytes,
        forall|i: int|
            0 <= i < chunks_of(bytes).len() ==> 1 <= (#[trigger] chunks_of(bytes)[i]).len() <= 1024,
{
    let n = bytes.len() as int;
    let cs = chunks_of(bytes);
    let count = chunk_count(n);
    assert forall|k: int| 0 <= k <= count implies #[trigger] concat_bytes(cs.take(k)) == bytes.take(
        if k * 1024 <= n {
            k * 1024
        } else {
            n
        },
    ) by {
        lemma_chunks_prefix(bytes, k);
    }
    assert(cs.take(count) =~= cs);
    assert(count * 1024 >= n);
    assert(bytes.take(n) =~= bytes);
    assert forall|i: int| 0 <= i < cs.len() implies 1 <= (#[trigger] cs[i]).len() <= 1024 by {
        assert(i * 1024 < n);
    }
}

proof fn lemma_chunks_prefix(bytes: Seq<u8>, k: int)
    requires
        0 <= k <= chunk_count(bytes.len() as int),
    ensures
        concat_bytes(chunks_of(bytes).take(k)) == bytes.take(
            if k * 1024 <= bytes.len() {
                k * 1024
            } else {
                bytes.len() as int
            },
        ),
    decreases k,
{
    let cs = chunks_of(bytes);
    let n = bytes.len() as int;
    if k == 0 {
        assert(cs.take(0) =~= Seq::<Seq<u8>>::empty());
        assert(bytes.take(0) =~= Seq::<u8>::empty());
    } else {
        lemma_chunks_prefix(bytes, k - 1);
        assert(cs.take(k).drop_last() =~= cs.take(k - 1));
        assert((k - 1) * 1024 < n);
        let prev_end = (k - 1) * 1024;
        let end = if k * 1024 <= n {
            k * 1024
        } else {
            n
        };
        assert(cs.take(k).last() == chunk_of(bytes, k - 1));
        assert(bytes.take(prev_end) + bytes.subrange(prev_end, end) =~= bytes.take(end));
    }
}

/// Whether the client gives up connecting after `elapsed_secs` seconds.
pub fn connection_timed_out(elapsed_secs: u64) -> (res: bool)
    ensures
        res == (elapsed_secs >= CONNECTION_TIMEOUT),
{
    elapsed_secs >= CONNECTION_TIMEOUT
}

} // verus!
