//! The server's state and decisions: the registry of connected users, name
//! and color assignment, the sudo code, the commands, the chat history and
//! who receives a broadcast. Sockets, tasks and timers stay with the caller.
use std::collections::{HashMap, VecDeque};
use vstd::prelude::*;
use crate::color::SerdeColor;
use crate::message::{Client, Handshake, Message, history_text, history_text_spec, message_is};
use crate::command::{ServerCommand, server_command_spec};
use vstd::std_specs::iter::IteratorSpec;
use crate::text::{dec, decimal, lemma_dec_value, has_prefix, starts_with, split_whitespace, words, str_equal};
use crate::hexcodec::hex_decode_spec;
use crate::cipher::generate_key;
use rand::Rng;

verus! {

broadcast use vstd::std_specs::hash::group_hash_axioms;

/// What the server knows of a user, in mathematical terms.
pub struct ClientView {
    pub name: Seq<char>,
    pub color: SerdeColor,
    pub messages: Seq<Message>,
    pub sudo: bool,
}

impl View for Client {
    type V = ClientView;

    open spec fn view(&self) -> ClientView {
        ClientView {
            name: self.name@,
            color: self.color,
            messages: self.messages@,
            sudo: self.sudo,
        }
    }
}

/// `s` is the name of some connected user.
pub open spec fn is_name_of(clients: Map<usize, Client>, s: Seq<char>) -> bool {
    exists|id: usize| clients.contains_key(id) && #[trigger] clients[id].name@ == s
}

/// No two connected users have the same color.
pub open spec fn colors_distinct(clients: Map<usize, ClientView>) -> bool {
    forall|a: usize, b: usize|
        clients.contains_key(a) && clients.contains_key(b) && a != b ==> #[trigger] clients[a].color
            != #[trigger] clients[b].color
}

/// The color of every connected user is recorded as handed out.
pub open spec fn colors_recorded(clients: Map<usize, ClientView>, assigned: Seq<SerdeColor>) -> bool {
    forall|a: usize| #[trigger] clients.contains_key(a) ==> assigned.contains(clients[a].color)
}

/// Every connected user's id is below `next_id`.
pub open spec fn ids_below(clients: Map<usize, ClientView>, next_id: usize) -> bool {
    forall|a: usize| #[trigger] clients.contains_key(a) ==> a < next_id
}

/// Everything the server shares between its connections: the connected
/// users by id, the colors handed out so far, the chat history, and the id
/// the next connection gets.
pub struct ServerState {
    pub clients: HashMap<usize, Client>,
    pub assigned_colors: Vec<SerdeColor>,
    pub history: VecDeque<Message>,
    pub next_id: usize,
}

impl ServerState {
    /// The server's bookkeeping: no color recorded twice, every connected
    /// user's color recorded, no two connected users with the same color,
    /// and every id in use below the next id to hand out.
    pub open spec fn wf(&self) -> bool {
        &&& self.assigned_colors@.no_duplicates()
        &&& colors_recorded(self.clients_view(), self.assigned_colors@)
        &&& colors_distinct(self.clients_view())
        &&& ids_below(self.clients_view(), self.next_id)
    }

    /// The connected users by id.
    pub open spec fn clients_view(&self) -> Map<usize, ClientView> {
        self.clients@.map_values(|c: Client| c@)
    }

    /// An empty server: nobody connected, no colors handed out, no history.
    pub fn new() -> (res: Self)
        ensures
            res.clients_view() =~= Map::<usize, ClientView>::empty(),
            res.assigned_colors@ == Seq::<SerdeColor>::empty(),
            res.history@ == Seq::<Message>::empty(),
            res.next_id == 0,
            res.wf(),
    {
        ServerState {
            clients: HashMap::new(),
            assigned_colors: Vec::new(),
            history: VecDeque::new(),
            next_id: 0,
        }
    }

    /// Reserves the id of a new connection: one that no connected user holds
    /// and that no later connection gets.
    pub fn get_client_id(&mut self) -> (res: usize)
        requires
            old(self).next_id < usize::MAX,
        ensures
            res == old(self).next_id,
            final(self).next_id == res + 1,
            final(self).clients_view() == old(self).clients_view(),
            final(self).assigned_colors@ == old(self).assigned_colors@,
            final(self).history@ == old(self).history@,
            old(self).wf() ==> !old(self).clients@.contains_key(res) && final(self).wf(),
    {
        let id = self.next_id;
        self.next_id = id + 1;
        proof {
            assert(self.clients_view() =~= old(self).clients_view());
            if old(self).wf() {
                if old(self).clients@.contains_key(id) {
                    assert(old(self).clients_view().contains_key(id));
                }
                assert forall|a: usize| #[trigger]
                    self.clients_view().contains_key(a) implies a < self.next_id by {
                    assert(old(self).clients_view().contains_key(a));
                }
            }
        }
        id
    }

    /// The names of the connected users, one per user, in no particular order.
    pub fn existing_names(&self) -> (res: Vec<String>)
        ensures
            res@.len() == self.clients@.len(),
            forall|i: int| 0 <= i < res@.len() ==> is_name_of(self.clients@, #[trigger] res@[i]@),
            forall|id: usize|
                #[trigger] self.clients@.contains_key(id) ==> exists|i: int|
                    0 <= i < res@.len() && res@[i]@ == self.clients@[id].name@,
    {
        let mut out: Vec<String> = Vec::new();
        let keys = self.clients.keys();
        let ghost ks = keys.remaining();
        proof {
            assert forall|i: int| 0 <= i < ks.len() implies self.clients@.contains_key(
                *#[trigger] ks[i],
            ) by {
                assert(ks.unref().to_set().contains(ks.unref()[i]));
            }
            assert forall|id: usize| #[trigger]
                self.clients@.contains_key(id) implies exists|i: int|
                0 <= i < ks.len() && *ks[i] == id by {
                assert(ks.unref().to_set().contains(id));
                let i = choose|i: int| 0 <= i < ks.unref().len() && ks.unref()[i] == id;
                assert(*ks[i] == id);
            }
        }
        for id in it: keys
            invariant
                it.seq() == ks,
                ks.len() == self.clients@.len(),
                forall|i: int| 0 <= i < ks.len() ==> self.clients@.contains_key(*#[trigger] ks[i]),
                out@.len() == it.index(),
                forall|i: int|
                    0 <= i < out@.len() ==> #[trigger] out@[i]@ == self.clients@[*ks[i]].name@,
        {
            let c = self.clients.get(id).unwrap();
            out.push(c.name.clone());
        }
        proof {
            assert forall|i: int| 0 <= i < out@.len() implies is_name_of(
                self.clients@,
                #[trigger] out@[i]@,
            ) by {
                assert(self.clients@.contains_key(*ks[i]));
            }
            assert forall|id: usize| #[trigger]
                self.clients@.contains_key(id) implies exists|i: int|
                0 <= i < out@.len() && out@[i]@ == self.clients@[id].name@ by {
                let i = choose|i: int| 0 <= i < ks.len() && *ks[i] == id;
                assert(out@[i]@ == self.clients@[*ks[i]].name@);
            }
        }
        out
    }

    /// The ids of all connected users but `sender`: who receives a broadcast.
    pub fn recipients(&self, sender: usize) -> (res: Vec<usize>)
        ensures
            res@.no_duplicates(),
            forall|i: int|
                0 <= i < res@.len() ==> self.clients@.contains_key(#[trigger] res@[i]) && res@[i]
                    != sender,
            forall|id: usize|
                #[trigger] self.clients@.contains_key(id) && id != sender ==> res@.contains(id),
    {
        let mut out: Vec<usize> = Vec::new();
        let keys = self.clients.keys();
        let ghost ks = keys.remaining();
        proof {
            assert forall|i: int| 0 <= i < ks.len() implies self.clients@.contains_key(
                *#[trigger] ks[i],
            ) by {
                assert(ks.unref().to_set().contains(ks.unref()[i]));
            }
            assert forall|id: usize| #[trigger]
                self.clients@.contains_key(id) implies exists|i: int|
                0 <= i < ks.len() && *ks[i] == id by {
                assert(ks.unref().to_set().contains(id));
                let i = choose|i: int| 0 <= i < ks.unref().len() && ks.unref()[i] == id;
                assert(*ks[i] == id);
            }
            assert forall|i: int, j: int|
                0 <= i < ks.len() && 0 <= j < ks.len() && i != j implies *ks[i] != *ks[j] by {
                assert(ks[i] != ks[j]);
            }
        }
        for id in it: keys
            invariant
                it.seq() == ks,
                forall|i: int| 0 <= i < ks.len() ==> self.clients@.contains_key(*#[trigger] ks[i]),
                forall|i: int, j: int|
                    0 <= i < ks.len() && 0 <= j < ks.len() && i != j ==> *ks[i] != *ks[j],
                0 <= it.index() <= ks.len(),
                forall|k: int, i: int|
                    0 <= k < out@.len() && it.index() <= i < ks.len() ==> #[trigger] out@[k]
                        != *#[trigger] ks[i],
                forall|i: int|
                    0 <= i < it.index() && *ks[i] != sender ==> out@.contains(*#[trigger] ks[i]),
                forall|k: int|
                    0 <= k < out@.len() ==> #[trigger] out@[k] != sender
                        && self.clients@.contains_key(out@[k]),
                out@.no_duplicates(),
        {
            let ghost idx = it.index();
            assert(*id == *ks[idx]);
            let ghost old_out = out@;
            if *id != sender {
                proof {
                    assert forall|k: int| 0 <= k < out@.len() implies out@[k] != *id by {
                        assert(out@[k] != *ks[idx]);
                    }
                }
                out.push(*id);
            }
            proof {
                assert forall|k: int, i: int|
                    0 <= k < out@.len() && idx + 1 <= i < ks.len() implies #[trigger] out@[k]
                    != *#[trigger] ks[i] by {
                    if k < old_out.len() {
                        assert(old_out[k] == out@[k]);
                        assert(old_out[k] != *ks[i]);
                    } else {
                        assert(*ks[idx] == out@[k]);
                    }
                }
                assert forall|i: int|
                    0 <= i < idx + 1 && *ks[i] != sender implies out@.contains(
                    *#[trigger] ks[i],
                ) by {
                    if i < idx {
                        assert(old_out.contains(*ks[i]));
                        let k = choose|k: int| 0 <= k < old_out.len() && old_out[k] == *ks[i];
                        assert(out@[k] == *ks[i]);
                    } else {
                        assert(out@[out@.len() - 1] == *ks[i]);
                    }
                }
            }
        }
        proof {
            assert forall|id: usize| #[trigger]
                self.clients@.contains_key(id) && id != sender implies out@.contains(id) by {
                let i = choose|i: int| 0 <= i < ks.len() && *ks[i] == id;
            }
        }
        out
    }
}

/// The `c`-th name tried for a user who asked for `initial`: the name
/// itself, then `initial-1`, `initial-2`, and so on.
pub open spec fn candidate_name(initial: Seq<char>, c: nat) -> Seq<char> {
    if c == 0 {
        initial
    } else {
        initial + seq!['-'] + dec(c)
    }
}

/// `s` is one of the strings of `names`.
pub open spec fn in_names(names: Seq<String>, s: Seq<char>) -> bool {
    exists|i: int| 0 <= i < names.len() && #[trigger] names[i]@ == s
}

/// Different counters give different candidate names.
pub proof fn lemma_candidate_injective(initial: Seq<char>, a: nat, b: nat)
    requires
        candidate_name(initial, a) == candidate_name(initial, b),
    ensures
        a == b,
{
    lemma_dec_value(a);
    lemma_dec_value(b);
    if a != 0 && b != 0 {
        let k = initial.len() + 1;
        let ca = candidate_name(initial, a);
        assert(ca.subrange(k as int, ca.len() as int) =~= dec(a));
        assert(candidate_name(initial, b).subrange(k as int, ca.len() as int) =~= dec(b));
    } else if a == 0 && b != 0 {
        assert(candidate_name(initial, a).len() < candidate_name(initial, b).len());
    } else if a != 0 && b == 0 {
        assert(candidate_name(initial, b).len() < candidate_name(initial, a).len());
    }
}

/// If the first `c` candidates are all taken, there are at least `c` names.
pub proof fn lemma_taken_candidates_bound(initial: Seq<char>, names: Seq<String>, c: nat)
    requires
        forall|k: nat| k < c ==> in_names(names, #[trigger] candidate_name(initial, k)),
    ensures
        c <= names.len(),
{
    let cs = Seq::new(c, |k: int| candidate_name(initial, k as nat));
    let views = names.map_values(|s: String| s@);
    assert forall|i: int, j: int| 0 <= i < cs.len() && 0 <= j < cs.len() && i != j implies cs[i]
        != cs[j] by {
        assert(cs[i] == candidate_name(initial, i as nat));
        assert(cs[j] == candidate_name(initial, j as nat));
        if cs[i] == cs[j] {
            lemma_candidate_injective(initial, i as nat, j as nat);
        }
    }
    assert(cs.no_duplicates());
    cs.unique_seq_to_set();
    vstd::seq_lib::seq_to_set_is_finite(views);
    assert forall|x: Seq<char>| cs.to_set().contains(x) implies views.to_set().contains(x) by {
        let k = choose|k: int| 0 <= k < cs.len() && cs[k] == x;
        assert(in_names(names, candidate_name(initial, k as nat)));
        let i = choose|i: int| 0 <= i < names.len() && #[trigger] names[i]@ == candidate_name(
            initial,
            k as nat,
        );
        assert(views[i] == x);
    }
    views.lemma_cardinality_of_set();
    assert(cs.to_set().subset_of(views.to_set()));
    vstd::set_lib::lemma_len_subset(cs.to_set(), views.to_set());
    assert(views.len() == names.len());
}

/// Whether `name` is among `names`.
pub fn names_contain(names: &Vec<String>, name: &String) -> (res: bool)
    ensures
        res == in_names(names@, name@),
{
    let mut i: usize = 0;
    while i < names.len()
        invariant
            i <= names@.len(),
            forall|j: int| 0 <= j < i ==> names@[j]@ != name@,
        decreases names@.len() - i,
    {
        if names[i] == *name {
            return true;
        }
        i = i + 1;
    }
    false
}

/// The name a new user gets: the asked-for name if nobody has it, else the
/// first of `name-1`, `name-2`, ... that nobody has.
pub fn unique_name(initial_name: &String, existing_names: &Vec<String>) -> (res: String)
    requires
        existing_names@.len() < usize::MAX,
    ensures
        !in_names(existing_names@, res@),
        exists|c: nat|
            res@ == #[trigger] candidate_name(initial_name@, c) && forall|k: nat|
                k < c ==> in_names(existing_names@, #[trigger] candidate_name(initial_name@, k)),
{
    let mut name = initial_name.clone();
    let mut counter: usize = 1;
    proof {
        reveal_strlit("-");
    }
    while names_contain(existing_names, &name)
        invariant
            1 <= counter,
            counter - 1 <= existing_names@.len() < usize::MAX,
            name@ == candidate_name(initial_name@, (counter - 1) as nat),
            forall|k: nat|
                k < counter - 1 ==> in_names(
                    existing_names@,
                    #[trigger] candidate_name(initial_name@, k),
                ),
        decreases existing_names@.len() - (counter - 1),
    {
        proof {
            assert forall|k: nat| k < counter implies in_names(
                existing_names@,
                #[trigger] candidate_name(initial_name@, k),
            ) by {
                if k == counter - 1 {
                }
            }
            lemma_taken_candidates_bound(initial_name@, existing_names@, counter as nat);
            reveal_strlit("-");
        }
        let mut next = initial_name.clone();
        next.append("-");
        next.append(decimal(counter as u64).as_str());
        name = next;
        counter = counter + 1;
    }
    name
}

/// What the server sends to a user who gave the right sudo code.
pub const SUDO_MESSAGE: &'static str = "
You have been granted sudo privileges.
Use /change-color to change your color.
Use /view-messages to view your messages.
Use /view-history to view global chat history.
Use /view-key to view the AES key.
";

/// Builds a message from the server, signed `name` or else "Server".
pub fn server_message(name: Option<&str>, text: &str, color: SerdeColor, timestamp: &str) -> (res:
    Message)
    ensures
        message_is(
            res,
            match name {
                Some(n) => n@,
                None => "Server"@,
            },
            text@,
            color,
            timestamp@,
        ),
{
    let sender = match name {
        Some(n) => String::from_str(n),
        None => String::from_str("Server"),
    };
    Message::new(
        Some(sender),
        Some(String::from_str(timestamp)),
        Some(String::from_str(text)),
        Some(color),
    )
}

/// The greeting a user gets after the handshake.
pub fn welcome_message(name: &str, color: SerdeColor, timestamp: &str) -> (res: Message)
    ensures
        message_is(
            res,
            "Server"@,
            "Welcome "@ + name@ + " to the chat! Use /help for available commands"@,
            color,
            timestamp@,
        ),
{
    let mut text = String::from_str("Welcome ");
    text.append(name);
    text.append(" to the chat! Use /help for available commands");
    server_message(None, text.as_str(), color, timestamp)
}

/// The server's answer to a client's handshake: the name the user got, the
/// server's buffer size and the user's color.
pub fn handshake_response(name: &str, color: SerdeColor) -> (res: Handshake)
    ensures
        res.name@ == name@,
        res.buffer_size == 1024,
        res.color == Some(color),
{
    Handshake::new(String::from_str(name), 1024, Some(color))
}

/// Calls `rand::thread_rng().gen_range(1000..9999)`, which gives a number
/// from 1000 up to but not including 9999.
#[verifier::external_body]
fn random_code() -> (res: i32)
    ensures
        1000 <= res < 9999,
{
    rand::thread_rng().gen_range(1000..9999)
}

/// The four-digit code that grants sudo, drawn at random.
pub fn set_sudo_key() -> (res: String)
    ensures
        exists|n: nat| 1000 <= n < 9999 && res@ == #[trigger] dec(n),
{
    let code = random_code();
    decimal(code as u64)
}

/// The AES key the server uses: the one given, or a fresh random 32-byte key in hex.
pub fn set_aes_key(key: Option<String>) -> (res: String)
    ensures
        key matches Some(k) ==> res == k,
        key is None ==> (hex_decode_spec(res@) matches Some(b) && b.len() == 32),
{
    match key {
        Some(k) => k,
        None => generate_key(32),
    }
}

/// The port tried after binding to `port` failed: ten further on.
pub fn next_bind_port(port: u16) -> (res: u16)
    requires
        port <= 65525,
    ensures
        res == port + 10,
{
    port + 10
}

/// The user's own history as the server reports it.
pub open spec fn client_history_spec(clients: Map<usize, ClientView>, id: usize) -> Seq<char> {
    if !clients.contains_key(id) {
        "Couldn't get client with id "@ + dec(id as nat)
    } else if clients[id].messages.len() == 0 {
        "No message history"@
    } else {
        history_text_spec(clients[id].messages)
    }
}

/// The message text starts a sudo request.
pub open spec fn is_sudo_attempt(text: Seq<char>) -> bool {
    has_prefix(text, "/sudo"@)
}

/// The sudo request carries exactly one argument, equal to the code.
pub open spec fn sudo_accepted(text: Seq<char>, sudo_key: Seq<char>) -> bool {
    words(text).len() == 2 && words(text)[1] == sudo_key
}

/// The user has sudo privileges.
pub open spec fn acts_as_sudo(clients: Map<usize, ClientView>, id: usize) -> bool {
    clients.contains_key(id) && clients[id].sudo
}

/// The reply the server sends back for a message text, as (signature,
/// text, color), or none.
pub open spec fn reply_spec(
    clients: Map<usize, ClientView>,
    history: Seq<Message>,
    id: usize,
    key: Seq<char>,
    sudo_key: Seq<char>,
    color: SerdeColor,
    text: Seq<char>,
    fresh: SerdeColor,
) -> Option<(Seq<char>, Seq<char>, SerdeColor)> {
    if is_sudo_attempt(text) {
        if sudo_accepted(text, sudo_key) {
            Some(("Server"@, SUDO_MESSAGE@, color))
        } else {
            Some(("Server"@, "Incorrect sudo password"@, SerdeColor::Red))
        }
    } else if acts_as_sudo(clients, id) {
        match server_command_spec(text) {
            ServerCommand::Close => Some(("Server"@, "CLOSE_CONNECTION"@, color)),
            ServerCommand::ViewMessages => Some(("Server"@, client_history_spec(clients, id), color)),
            ServerCommand::ViewHistory => Some(
                ("Your chat history: \n"@, history_text_spec(history), color),
            ),
            ServerCommand::ViewKey => Some(("Server"@, "AES Key: "@ + key, color)),
            ServerCommand::ChangeColor => Some(("Server"@, "Color changed"@, fresh)),
            ServerCommand::Invalid => None,
        }
    } else {
        match server_command_spec(text) {
            ServerCommand::ViewMessages => Some(
                ("Your chat history: \n"@, client_history_spec(clients, id), color),
            ),
            ServerCommand::ChangeColor => Some(("Server"@, "COLOR_CHANGE"@, fresh)),
            ServerCommand::Close => Some(("Server"@, "CLOSE_CONNECTION"@, color)),
            _ => None,
        }
    }
}

/// The users after the server has read a message text from user `id`
/// (before the text is stored): sudo granted or a new color set.
pub open spec fn clients_after_command(
    clients: Map<usize, ClientView>,
    id: usize,
    sudo_key: Seq<char>,
    text: Seq<char>,
    fresh: SerdeColor,
) -> Map<usize, ClientView> {
    if !clients.contains_key(id) {
        clients
    } else if is_sudo_attempt(text) {
        if sudo_accepted(text, sudo_key) {
            clients.insert(id, ClientView { sudo: true, ..clients[id] })
        } else {
            clients
        }
    } else if server_command_spec(text) == ServerCommand::ChangeColor {
        clients.insert(id, ClientView { color: fresh, ..clients[id] })
    } else {
        clients
    }
}

/// A message text that is chat rather than a command: stored and broadcast.
pub open spec fn is_chat(text: Seq<char>) -> bool {
    !has_prefix(text, "/"@)
}

/// The users after a chat message of user `id` has been stored.
pub open spec fn clients_after_chat(
    clients: Map<usize, ClientView>,
    id: usize,
    msg: Message,
) -> Map<usize, ClientView> {
    if clients.contains_key(id) {
        clients.insert(id, ClientView { messages: clients[id].messages.push(msg), ..clients[id] })
    } else {
        clients
    }
}

/// What the connection handler does after the server has read a message.
pub struct ServerReaction {
    /// A message to send back to the sender.
    pub reply: Option<Message>,
    /// Wait a second after the reply (the user asked to close).
    pub pause: bool,
    /// `Some(true)` when a sudo request succeeded, `Some(false)` when it failed.
    pub sudo_result: Option<bool>,
    /// A chat message to encrypt once and send to every id in `recipients`.
    pub broadcast: Option<Message>,
    /// The users who receive the broadcast: everyone connected but the sender.
    pub recipients: Vec<usize>,
}

impl ServerState {
    /// Registers a newly connected user under `id`, with no messages and no
    /// sudo, in a color that was not handed out before; the color is
    /// recorded as handed out.
    pub fn admit_client(&mut self, id: usize, name: String, color: SerdeColor)
        requires
            !old(self).assigned_colors@.contains(color),
        ensures
            final(self).clients_view() == old(self).clients_view().insert(
                id,
                ClientView { name: name@, color, messages: Seq::empty(), sudo: false },
            ),
            final(self).assigned_colors@ == old(self).assigned_colors@.push(color),
            final(self).history@ == old(self).history@,
            final(self).next_id == old(self).next_id,
            old(self).wf() && id < old(self).next_id ==> final(self).wf(),
    {
        let client = Client::new(name, color);
        self.clients.insert(id, client);
        self.assigned_colors.push(color);
        proof {
            let newc = ClientView { name: name@, color, messages: Seq::empty(), sudo: false };
            assert(final(self).clients_view() =~= old(self).clients_view().insert(id, newc));
            if old(self).wf() && id < old(self).next_id {
                lemma_wf_after_new_color(
                    old(self).clients_view(),
                    old(self).assigned_colors@,
                    old(self).next_id,
                    id,
                    newc,
                );
            }
        }
    }

    /// Forgets a user who disconnected.
    pub fn cleanup_client(&mut self, id: usize)
        ensures
            final(self).clients_view() == old(self).clients_view().remove(id),
            final(self).assigned_colors@ == old(self).assigned_colors@,
            final(self).history@ == old(self).history@,
            final(self).next_id == old(self).next_id,
            old(self).wf() ==> final(self).wf(),
    {
        self.clients.remove(&id);
        proof {
            assert(final(self).clients_view() =~= old(self).clients_view().remove(id));
        }
    }

    /// Whether a color was already handed out.
    pub fn color_taken(&self, color: SerdeColor) -> (res: bool)
        ensures
            res == self.assigned_colors@.contains(color),
    {
        let mut i: usize = 0;
        while i < self.assigned_colors.len()
            invariant
                i <= self.assigned_colors@.len(),
                forall|j: int| 0 <= j < i ==> self.assigned_colors@[j] != color,
            decreases self.assigned_colors@.len() - i,
        {
            if self.assigned_colors[i] == color {
                return true;
            }
            i = i + 1;
        }
        false
    }

    /// The chat history of all users, one line per message.
    pub fn get_global_message_history(&self) -> (res: String)
        ensures
            res@ == history_text_spec(self.history@),
    {
        history_text(&self.history)
    }

    /// The history of user `id`, or why there is none.
    pub fn get_client_message_history(&self, id: usize) -> (res: String)
        ensures
            res@ == client_history_spec(self.clients_view(), id),
    {
        match self.clients.get(&id) {
            Some(client) => match client.get_messages() {
                Ok(messages) => messages,
                Err(_) => String::from_str("No message history"),
            },
            None => {
                let mut s = String::from_str("Couldn't get client with id ");
                s.append(decimal(id as u64).as_str());
                s
            },
        }
    }
}

/// The message from user `id` is a color change that takes effect.
pub open spec fn changes_color(clients: Map<usize, ClientView>, id: usize, msg: Message) -> bool {
    &&& msg.message matches Some(t) && !is_sudo_attempt(t@) && server_command_spec(t@)
        == ServerCommand::ChangeColor
    &&& clients.contains_key(id)
}

/// Giving user `id` (a new user or one already connected) a color that was
/// not handed out before keeps the bookkeeping sound.
proof fn lemma_wf_after_new_color(
    clients: Map<usize, ClientView>,
    assigned: Seq<SerdeColor>,
    next_id: usize,
    id: usize,
    c: ClientView,
)
    requires
        assigned.no_duplicates(),
        colors_recorded(clients, assigned),
        colors_distinct(clients),
        ids_below(clients, next_id),
        id < next_id,
        !assigned.contains(c.color),
    ensures
        assigned.push(c.color).no_duplicates(),
        colors_recorded(clients.insert(id, c), assigned.push(c.color)),
        colors_distinct(clients.insert(id, c)),
        ids_below(clients.insert(id, c), next_id),
{
    let after = clients.insert(id, c);
    let pushed = assigned.push(c.color);
    assert forall|i: int, j: int|
        0 <= i < pushed.len() && 0 <= j < pushed.len() && i != j implies pushed[i] != pushed[j] by {
        if i < assigned.len() && j < assigned.len() {
            assert(pushed[i] == assigned[i] && pushed[j] == assigned[j]);
        } else if i < assigned.len() {
            assert(pushed[i] == assigned[i]);
        } else {
            assert(pushed[j] == assigned[j]);
        }
    }
    assert forall|a: usize| #[trigger] after.contains_key(a) implies pushed.contains(after[a].color) by {
        if a == id {
            assert(pushed[assigned.len() as int] == c.color);
        } else {
            assert(assigned.contains(clients[a].color));
            let k = choose|k: int| 0 <= k < assigned.len() && assigned[k] == clients[a].color;
            assert(pushed[k] == clients[a].color);
        }
    }
    assert forall|a: usize, b: usize|
        after.contains_key(a) && after.contains_key(b) && a != b implies #[trigger] after[a].color
        != #[trigger] after[b].color by {
        if a == id {
            assert(assigned.contains(clients[b].color));
        } else if b == id {
            assert(assigned.contains(clients[a].color));
        }
    }
}

/// Changing what users hold but their colors, without adding or removing
/// users, keeps the bookkeeping sound.
proof fn lemma_wf_same_colors(
    before: Map<usize, ClientView>,
    after: Map<usize, ClientView>,
    assigned: Seq<SerdeColor>,
    next_id: usize,
)
    requires
        forall|a: usize| #[trigger] after.contains_key(a) == before.contains_key(a),
        forall|a: usize| #[trigger] before.contains_key(a) ==> after[a].color == before[a].color,
    ensures
        colors_recorded(before, assigned) ==> colors_recorded(after, assigned),
        colors_distinct(before) ==> colors_distinct(after),
        ids_below(before, next_id) ==> ids_below(after, next_id),
{
    if colors_distinct(before) {
        assert forall|a: usize, b: usize|
            after.contains_key(a) && after.contains_key(b) && a != b implies #[trigger] after[a].color
            != #[trigger] after[b].color by {
            assert(before.contains_key(a) && before.contains_key(b));
            assert(before[a].color != before[b].color);
        }
    }
    if colors_recorded(before, assigned) {
        assert forall|a: usize| #[trigger] after.contains_key(a) implies assigned.contains(
            after[a].color,
        ) by {
            assert(before.contains_key(a));
        }
    }
    if ids_below(before, next_id) {
        assert forall|a: usize| #[trigger] after.contains_key(a) implies a < next_id by {
            assert(before.contains_key(a));
        }
    }
}

/// The reply sent matches the expected (signature, text, color), or there is none.
pub open spec fn reply_matches(
    reply: Option<Message>,
    expected: Option<(Seq<char>, Seq<char>, SerdeColor)>,
    ts: Seq<char>,
) -> bool {
    match expected {
        Some((n, x, c)) => reply matches Some(m) && message_is(m, n, x, c, ts),
        None => reply is None,
    }
}

impl ServerState {
    /// Marks user `id` as having sudo privileges, if registered.
    fn grant_sudo(&mut self, id: usize)
        ensures
            final(self).clients_view() == (if old(self).clients@.contains_key(id) {
                old(self).clients_view().insert(id, ClientView { sudo: true, ..old(self).clients_view()[id] })
            } else {
                old(self).clients_view()
            }),
            final(self).assigned_colors@ == old(self).assigned_colors@,
            final(self).history@ == old(self).history@,
            final(self).next_id == old(self).next_id,
            old(self).wf() ==> final(self).wf(),
    {
        proof {
            lemma_wf_same_colors(old(self).clients_view(), if old(self).clients@.contains_key(id) {
                old(self).clients_view().insert(id, ClientView { sudo: true, ..old(self).clients_view()[id] })
            } else {
                old(self).clients_view()
            }, old(self).assigned_colors@, old(self).next_id);
        }
        if let Some(mut client) = self.clients.remove(&id) {
            client.sudo = true;
            self.clients.insert(id, client);
            proof {
                assert(self.clients_view() =~= old(self).clients_view().insert(
                    id,
                    ClientView { sudo: true, ..old(self).clients_view()[id] },
                ));
            }
        } else {
            proof {
                assert(self.clients_view() =~= old(self).clients_view());
            }
        }
    }

    /// Gives user `id`, if registered, a color that was not handed out
    /// before, and records it as handed out.
    pub fn change_client_color(&mut self, id: usize, color: SerdeColor)
        requires
            !old(self).assigned_colors@.contains(color),
        ensures
            final(self).clients_view() == (if old(self).clients@.contains_key(id) {
                old(self).clients_view().insert(id, ClientView { color, ..old(self).clients_view()[id] })
            } else {
                old(self).clients_view()
            }),
            final(self).assigned_colors@ == (if old(self).clients@.contains_key(id) {
                old(self).assigned_colors@.push(color)
            } else {
                old(self).assigned_colors@
            }),
            final(self).history@ == old(self).history@,
            final(self).next_id == old(self).next_id,
            old(self).wf() ==> final(self).wf(),
    {
        if let Some(mut client) = self.clients.remove(&id) {
            let ghost before = old(self).clients_view()[id];
            client.color = color;
            self.clients.insert(id, client);
            self.assigned_colors.push(color);
            proof {
                let newc = ClientView { color, ..before };
                assert(self.clients_view() =~= old(self).clients_view().insert(id, newc));
                if old(self).wf() {
                    assert(old(self).clients_view().contains_key(id));
                    lemma_wf_after_new_color(
                        old(self).clients_view(),
                        old(self).assigned_colors@,
                        old(self).next_id,
                        id,
                        newc,
                    );
                }
            }
        } else {
            proof {
                assert(self.clients_view() =~= old(self).clients_view());
            }
        }
    }

    /// Stores a chat message in the history of its sender (if registered) and
    /// in the global history.
    pub fn store_message_in_history(&mut self, message: Message, id: usize)
        ensures
            final(self).clients_view() == clients_after_chat(old(self).clients_view(), id, message),
            final(self).history@ == old(self).history@.push(message),
            final(self).assigned_colors@ == old(self).assigned_colors@,
            final(self).next_id == old(self).next_id,
            old(self).wf() ==> final(self).wf(),
    {
        proof {
            lemma_wf_same_colors(
                old(self).clients_view(),
                clients_after_chat(old(self).clients_view(), id, message),
                old(self).assigned_colors@,
                old(self).next_id,
            );
        }
        if let Some(mut client) = self.clients.remove(&id) {
            client.add_message(message.clone());
            self.clients.insert(id, client);
            proof {
                assert(self.clients_view() =~= clients_after_chat(old(self).clients_view(), id, message));
            }
        } else {
            proof {
                assert(self.clients_view() =~= old(self).clients_view());
            }
        }
        self.history.push_back(message);
    }

    /// Reacts to a message that user `id` sent: a sudo request, a command,
    /// or chat to store and broadcast. `color` is the color the user was
    /// given at connection, `fresh_color` the color that a color change
    /// hands out, and `timestamp` the time stamped on any reply.
    pub fn handle_message(
        &mut self,
        id: usize,
        key: &str,
        sudo_key: &str,
        color: SerdeColor,
        msg: Message,
        fresh_color: SerdeColor,
        timestamp: &str,
    ) -> (res: ServerReaction)
        requires
            !old(self).assigned_colors@.contains(fresh_color),
        ensures
            final(self).assigned_colors@ == (if changes_color(old(self).clients_view(), id, msg) {
                old(self).assigned_colors@.push(fresh_color)
            } else {
                old(self).assigned_colors@
            }),
            final(self).next_id == old(self).next_id,
            old(self).wf() ==> final(self).wf(),
            msg.message is None ==> {
                &&& res.reply is None
                &&& !res.pause
                &&& res.sudo_result is None
                &&& res.broadcast is None
                &&& res.recipients@.len() == 0
                &&& final(self).clients_view() == old(self).clients_view()
                &&& final(self).history@ == old(self).history@
            },
            msg.message matches Some(t) ==> {
                let mid = clients_after_command(
                    old(self).clients_view(),
                    id,
                    sudo_key@,
                    t@,
                    fresh_color,
                );
                &&& reply_matches(
                    res.reply,
                    reply_spec(
                        old(self).clients_view(),
                        old(self).history@,
                        id,
                        key@,
                        sudo_key@,
                        color,
                        t@,
                        fresh_color,
                    ),
                    timestamp@,
                )
                &&& res.pause == (!is_sudo_attempt(t@) && server_command_spec(t@)
                    == ServerCommand::Close)
                &&& res.sudo_result == (if is_sudo_attempt(t@) {
                    Some(sudo_accepted(t@, sudo_key@))
                } else {
                    None
                })
                &&& is_chat(t@) ==> {
                    &&& final(self).clients_view() == clients_after_chat(mid, id, msg)
                    &&& final(self).history@ == old(self).history@.push(msg)
                    &&& res.broadcast == Some(msg)
                    &&& res.recipients@.no_duplicates()
                    &&& forall|r: usize|
                        #[trigger] res.recipients@.contains(r) <==> (
                        final(self).clients@.contains_key(r) && r != id)
                }
                &&& !is_chat(t@) ==> {
                    &&& final(self).clients_view() == mid
                    &&& final(self).history@ == old(self).history@
                    &&& res.broadcast is None
                    &&& res.recipients@.len() == 0
                }
            },
    {
        let text: String = match &msg.message {
            Some(t) => t.clone(),
            None => {
                return ServerReaction {
                    reply: None,
                    pause: false,
                    sudo_result: None,
                    broadcast: None,
                    recipients: Vec::new(),
                };
            },
        };
        let ghost old_clients = self.clients_view();
        let ghost old_history = self.history@;
        proof {
            reveal_strlit("/sudo");
            reveal_strlit("/");
        }
        if starts_with(text.as_str(), "/sudo") {
            let parts = split_whitespace(text.as_str());
            let accepted = parts.len() == 2 && str_equal(parts[1].as_str(), sudo_key);
            assert(accepted == sudo_accepted(text@, sudo_key@));
            let reply = if accepted {
                self.grant_sudo(id);
                server_message(None, SUDO_MESSAGE, color, timestamp)
            } else {
                server_message(None, "Incorrect sudo password", SerdeColor::Red, timestamp)
            };
            proof {
                assert(!is_chat(text@)) by {
                    assert(text@.subrange(0, 1) =~= text@.subrange(0, 5).subrange(0, 1));
                    assert("/sudo"@.subrange(0, 1) =~= "/"@) by {
                        reveal_strlit("/sudo");
                        reveal_strlit("/");
                    }
                }
                assert(self.clients_view() =~= clients_after_command(
                    old_clients,
                    id,
                    sudo_key@,
                    text@,
                    fresh_color,
                ));
            }
            return ServerReaction {
                reply: Some(reply),
                pause: false,
                sudo_result: Some(accepted),
                broadcast: None,
                recipients: Vec::new(),
            };
        }
        let client_sudo = match self.clients.get(&id) {
            Some(client) => client.sudo,
            None => false,
        };
        let command = ServerCommand::from_str(text.as_str());
        let mut pause = false;
        let reply: Option<Message> = if client_sudo {
            match command {
                ServerCommand::Close => {
                    pause = true;
                    Some(server_message(None, "CLOSE_CONNECTION", color, timestamp))
                },
                ServerCommand::ViewMessages => {
                    let history = self.get_client_message_history(id);
                    Some(server_message(None, history.as_str(), color, timestamp))
                },
                ServerCommand::ViewHistory => {
                    let history = self.get_global_message_history();
                    Some(
                        server_message(
                            Some("Your chat history: \n"),
                            history.as_str(),
                            color,
                            timestamp,
                        ),
                    )
                },
                ServerCommand::ViewKey => {
                    let mut shown = String::from_str("AES Key: ");
                    shown.append(key);
                    Some(server_message(None, shown.as_str(), color, timestamp))
                },
                ServerCommand::ChangeColor => {
                    self.change_client_color(id, fresh_color);
                    Some(server_message(None, "Color changed", fresh_color, timestamp))
                },
                ServerCommand::Invalid => None,
            }
        } else {
            match command {
                ServerCommand::ViewMessages => {
                    let history = self.get_client_message_history(id);
                    Some(
                        server_message(
                            Some("Your chat history: \n"),
                            history.as_str(),
                            color,
                            timestamp,
                        ),
                    )
                },
                ServerCommand::ChangeColor => {
                    self.change_client_color(id, fresh_color);
                    Some(server_message(None, "COLOR_CHANGE", fresh_color, timestamp))
                },
                ServerCommand::Close => {
                    pause = true;
                    Some(server_message(None, "CLOSE_CONNECTION", color, timestamp))
                },
                _ => None,
            }
        };
        proof {
            assert(self.clients_view() =~= clients_after_command(
                old_clients,
                id,
                sudo_key@,
                text@,
                fresh_color,
            ));
        }
        if !starts_with(text.as_str(), "/") {
            let stored = msg.clone();
            self.store_message_in_history(stored, id);
            let recipients = self.recipients(id);
            ServerReaction { reply, pause, sudo_result: None, broadcast: Some(msg), recipients }
        } else {
            ServerReaction { reply, pause, sudo_result: None, broadcast: None, recipients: Vec::new() }
        }
    }
}

/// Sudo is granted only by a request with the right code, and never taken
/// away: after the server has read any message text from user `id`, a user
/// has sudo exactly when it had it before or `id` just gave the right code.
pub proof fn lemma_sudo_only_by_code(
    clients: Map<usize, ClientView>,
    id: usize,
    sudo_key: Seq<char>,
    text: Seq<char>,
    fresh: SerdeColor,
    msg: Message,
    other: usize,
)
    ensures
        ({
            let mid = clients_after_command(clients, id, sudo_key, text, fresh);
            let after = if is_chat(text) {
                clients_after_chat(mid, id, msg)
            } else {
                mid
            };
            acts_as_sudo(after, other) <==> (acts_as_sudo(clients, other) || (other == id
                && clients.contains_key(id) && is_sudo_attempt(text) && sudo_accepted(
                text,
                sudo_key,
            )))
        }),
{
}

/// A user's own history as text: their messages one per line, or "No
/// message history" when they have sent none.
pub open spec fn own_history_text(c: ClientView) -> Seq<char> {
    if c.messages.len() == 0 {
        "No message history"@
    } else {
        history_text_spec(c.messages)
    }
}

/// A user with sudo rights who asks for `/view-messages` gets, signed
/// "Server" and in their color, their own messages and nobody else's.
pub proof fn lemma_sudo_view_messages_own_history(
    clients: Map<usize, ClientView>,
    history: Seq<Message>,
    id: usize,
    key: Seq<char>,
    sudo_key: Seq<char>,
    color: SerdeColor,
    text: Seq<char>,
    fresh: SerdeColor,
)
    requires
        acts_as_sudo(clients, id),
        !is_sudo_attempt(text),
        server_command_spec(text) == ServerCommand::ViewMessages,
    ensures
        reply_spec(clients, history, id, key, sudo_key, color, text, fresh) == Some(
            ("Server"@, own_history_text(clients[id]), color),
        ),
{
}

/// The answer to `/view-messages` depends only on the asking user: with or
/// without sudo rights, it is the same whatever the other users hold and
/// whatever the global history is.
pub proof fn lemma_view_messages_ignores_others(
    c1: Map<usize, ClientView>,
    c2: Map<usize, ClientView>,
    h1: Seq<Message>,
    h2: Seq<Message>,
    id: usize,
    key: Seq<char>,
    sudo_key: Seq<char>,
    color: SerdeColor,
    text: Seq<char>,
    fresh: SerdeColor,
)
    requires
        c1.contains_key(id),
        c2.contains_key(id),
        c1[id] == c2[id],
        !is_sudo_attempt(text),
        server_command_spec(text) == ServerCommand::ViewMessages,
    ensures
        reply_spec(c1, h1, id, key, sudo_key, color, text, fresh) == reply_spec(
            c2,
            h2,
            id,
            key,
            sudo_key,
            color,
            text,
            fresh,
        ),
        reply_spec(c1, h1, id, key, sudo_key, color, text, fresh) matches Some((_, t, _)) && t
            == own_history_text(c1[id]),
{
}

impl ServerState {
    /// The name a newly connected user gets: the asked-for name, or the first
    /// of `name-1`, `name-2`, ... that no connected user has.
    pub fn choose_name(&self, initial_name: &String) -> (res: String)
        requires
            self.clients@.len() < usize::MAX,
        ensures
            !is_name_of(self.clients@, res@),
            exists|c: nat|
                res@ == #[trigger] candidate_name(initial_name@, c) && forall|k: nat|
                    k < c ==> is_name_of(self.clients@, #[trigger] candidate_name(initial_name@, k)),
    {
        let existing = self.existing_names();
        let name = unique_name(initial_name, &existing);
        proof {
            if is_name_of(self.clients@, name@) {
                let id = choose|id: usize|
                    self.clients@.contains_key(id) && #[trigger] self.clients@[id].name@ == name@;
                let i = choose|i: int| 0 <= i < existing@.len() && existing@[i]@ == self.clients@[id].name@;
                assert(in_names(existing@, name@));
            }
            let c = choose|c: nat|
                name@ == #[trigger] candidate_name(initial_name@, c) && forall|k: nat|
                    k < c ==> in_names(existing@, #[trigger] candidate_name(initial_name@, k));
            assert forall|k: nat| k < c implies is_name_of(
                self.clients@,
                #[trigger] candidate_name(initial_name@, k),
            ) by {
                assert(in_names(existing@, candidate_name(initial_name@, k)));
                let i = choose|i: int|
                    0 <= i < existing@.len() && #[trigger] existing@[i]@ == candidate_name(
                        initial_name@,
                        k,
                    );
                assert(is_name_of(self.clients@, existing@[i]@));
            }
        }
        name
    }
}

} // verus!
