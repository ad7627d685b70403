use crypted_messages::color::SerdeColor;
use crypted_messages::message::{Client, Message};
use crypted_messages::server::{
    handshake_response, next_bind_port, server_message, set_aes_key, set_sudo_key, unique_name,
    welcome_message, ServerState, SUDO_MESSAGE,
};

fn msg(name: &str, text: &str) -> Message {
    Message::new(
        Some(name.to_string()),
        Some("2024-01-01 00:00:00".to_string()),
        Some(text.to_string()),
        Some(SerdeColor::Green),
    )
}

fn server_with(names: &[&str]) -> ServerState {
    let mut st = ServerState::new();
    for (i, n) in names.iter().enumerate() {
        let id = st.get_client_id();
        assert_eq!(id, i);
        st.admit_client(id, n.to_string(), SerdeColor::AnsiValue(i as u8));
    }
    st
}

fn distinct_colors(st: &ServerState) -> bool {
    let colors: Vec<SerdeColor> = st.clients.values().map(|c| c.color).collect();
    colors.iter().enumerate().all(|(i, a)| colors[i + 1..].iter().all(|b| a != b))
}

#[test]
fn unique_names_get_the_first_free_suffix() {
    let existing = vec!["bob".to_string(), "bob-1".to_string(), "alice".to_string()];
    assert_eq!(unique_name(&"bob".to_string(), &existing), "bob-2");
    assert_eq!(unique_name(&"carol".to_string(), &existing), "carol");
    assert_eq!(unique_name(&"alice".to_string(), &existing), "alice-1");
    let many: Vec<String> = std::iter::once("x".to_string())
        .chain((1..12).map(|i| format!("x-{}", i)))
        .collect();
    assert_eq!(unique_name(&"x".to_string(), &many), "x-12");
}

#[test]
fn choose_name_avoids_connected_users() {
    let st = server_with(&["dan", "dan-1"]);
    assert_eq!(st.next_id, 2);
    assert_eq!(st.choose_name(&"dan".to_string()), "dan-2");
    let mut names = st.existing_names();
    names.sort();
    assert_eq!(names, vec!["dan".to_string(), "dan-1".to_string()]);
}

#[test]
fn chat_is_stored_and_broadcast_to_everyone_else() {
    let mut st = server_with(&["a", "b", "c"]);
    let r = st.handle_message(1, "key", "4321", SerdeColor::Blue, msg("b", "hello"), SerdeColor::Cyan, "t0");
    assert!(r.reply.is_none());
    assert_eq!(r.broadcast, Some(msg("b", "hello")));
    let mut to = r.recipients.clone();
    to.sort();
    assert_eq!(to, vec![0, 2]);
    assert_eq!(st.history.len(), 1);
    assert_eq!(st.clients.get(&1).unwrap().messages.len(), 1);
    assert_eq!(st.get_global_message_history(), "b: 2024-01-01 00:00:00: hello");
}

#[test]
fn sudo_needs_the_exact_code() {
    let mut st = server_with(&["a"]);
    let r = st.handle_message(0, "key", "4321", SerdeColor::Blue, msg("a", "/sudo 1111"), SerdeColor::Cyan, "t1");
    assert_eq!(r.sudo_result, Some(false));
    let reply = r.reply.unwrap();
    assert_eq!(reply.message.as_deref(), Some("Incorrect sudo password"));
    assert_eq!(reply.color, Some(SerdeColor::Red));
    assert_eq!(reply.name.as_deref(), Some("Server"));
    assert!(!st.clients.get(&0).unwrap().sudo);
    assert!(r.broadcast.is_none());

    let r = st.handle_message(0, "key", "4321", SerdeColor::Blue, msg("a", "/sudo 4321 extra"), SerdeColor::Cyan, "t1");
    assert_eq!(r.sudo_result, Some(false));

    let r = st.handle_message(0, "key", "4321", SerdeColor::Blue, msg("a", "/sudo   4321 "), SerdeColor::Cyan, "t2");
    assert_eq!(r.sudo_result, Some(true));
    let reply = r.reply.unwrap();
    assert_eq!(reply.message.as_deref(), Some(SUDO_MESSAGE));
    assert_eq!(reply.color, Some(SerdeColor::Blue));
    assert_eq!(reply.timestamp.as_deref(), Some("t2"));
    assert!(st.clients.get(&0).unwrap().sudo);
}

#[test]
fn view_key_only_for_sudo() {
    let mut st = server_with(&["a"]);
    let r = st.handle_message(0, "abcd", "4321", SerdeColor::Blue, msg("a", "/view-key"), SerdeColor::Cyan, "t");
    assert!(r.reply.is_none());
    st.handle_message(0, "abcd", "4321", SerdeColor::Blue, msg("a", "/sudo 4321"), SerdeColor::Cyan, "t");
    let r = st.handle_message(0, "abcd", "4321", SerdeColor::Blue, msg("a", "/view-key"), SerdeColor::Cyan, "t");
    assert_eq!(r.reply.unwrap().message.as_deref(), Some("AES Key: abcd"));
}

#[test]
fn history_commands() {
    let mut st = server_with(&["a", "b"]);
    let r = st.handle_message(0, "k", "1", SerdeColor::Blue, msg("a", "/view-messages"), SerdeColor::Cyan, "t");
    let reply = r.reply.unwrap();
    assert_eq!(reply.message.as_deref(), Some("No message history"));
    assert_eq!(reply.name.as_deref(), Some("Your chat history: \n"));
    st.handle_message(0, "k", "1", SerdeColor::Blue, msg("a", "one"), SerdeColor::Cyan, "t");
    st.handle_message(1, "k", "1", SerdeColor::Blue, msg("b", "two"), SerdeColor::Cyan, "t");
    st.handle_message(0, "k", "1", SerdeColor::Blue, msg("a", "three"), SerdeColor::Cyan, "t");
    assert_eq!(
        st.get_client_message_history(0),
        "a: 2024-01-01 00:00:00: one\na: 2024-01-01 00:00:00: three"
    );
    assert_eq!(st.get_client_message_history(9), "Couldn't get client with id 9");
    st.handle_message(0, "k", "1", SerdeColor::Blue, msg("a", "/sudo 1"), SerdeColor::Cyan, "t");
    let r = st.handle_message(0, "k", "1", SerdeColor::Blue, msg("a", "/view-history"), SerdeColor::Cyan, "t");
    let reply = r.reply.unwrap();
    assert_eq!(reply.name.as_deref(), Some("Your chat history: \n"));
    assert_eq!(
        reply.message.as_deref(),
        Some("a: 2024-01-01 00:00:00: one\nb: 2024-01-01 00:00:00: two\na: 2024-01-01 00:00:00: three")
    );
    let r = st.handle_message(0, "k", "1", SerdeColor::Blue, msg("a", "/view-messages"), SerdeColor::Cyan, "t");
    assert_eq!(r.reply.unwrap().name.as_deref(), Some("Server"));
}

#[test]
fn close_and_color_change() {
    let mut st = server_with(&["a"]);
    let r = st.handle_message(0, "k", "1", SerdeColor::Blue, msg("a", "/close"), SerdeColor::Cyan, "t");
    assert!(r.pause);
    assert_eq!(r.reply.unwrap().message.as_deref(), Some("CLOSE_CONNECTION"));
    let r = st.handle_message(0, "k", "1", SerdeColor::Blue, msg("a", "/change-color"), SerdeColor::Cyan, "t");
    let reply = r.reply.unwrap();
    assert_eq!(reply.message.as_deref(), Some("COLOR_CHANGE"));
    assert_eq!(reply.color, Some(SerdeColor::Cyan));
    assert_eq!(st.clients.get(&0).unwrap().color, SerdeColor::Cyan);
    assert!(st.color_taken(SerdeColor::Cyan));
    assert_eq!(st.assigned_colors, vec![SerdeColor::AnsiValue(0), SerdeColor::Cyan]);
    let r = st.handle_message(0, "k", "1", SerdeColor::Blue, Message::new(None, None, None, None), SerdeColor::Cyan, "t");
    assert!(r.reply.is_none() && r.broadcast.is_none() && !r.pause);
}

#[test]
fn colors_are_recorded_at_admission() {
    let mut st = ServerState::new();
    let id = st.get_client_id();
    st.admit_client(id, "a".to_string(), SerdeColor::Custom(1, 2, 3));
    assert!(st.color_taken(SerdeColor::Custom(1, 2, 3)));
    assert!(!st.color_taken(SerdeColor::Yellow));
    assert_eq!(st.clients.get(&id).unwrap().color, SerdeColor::Custom(1, 2, 3));
    let other = st.get_client_id();
    st.admit_client(other, "b".to_string(), SerdeColor::Yellow);
    assert!(distinct_colors(&st));
    st.cleanup_client(id);
    assert!(st.color_taken(SerdeColor::Custom(1, 2, 3)));
}

#[test]
fn ids_are_never_reused() {
    let mut st = server_with(&["a", "b"]);
    st.cleanup_client(0);
    let id = st.get_client_id();
    assert_eq!(id, 2);
    assert!(!st.clients.contains_key(&id));
    st.admit_client(id, "c".to_string(), SerdeColor::Yellow);
    assert_eq!(st.clients.len(), 2);
    assert_eq!(st.clients.get(&1).unwrap().name, "b");
    st.cleanup_client(1);
    assert_eq!(st.clients.get(&2).unwrap().name, "c");
}

#[test]
fn a_color_change_keeps_colors_distinct() {
    let mut st = server_with(&["a", "b"]);
    st.handle_message(0, "k", "1", SerdeColor::Blue, msg("a", "/change-color"), SerdeColor::Green, "t");
    assert_eq!(st.clients.get(&0).unwrap().color, SerdeColor::Green);
    assert_eq!(st.clients.get(&1).unwrap().color, SerdeColor::AnsiValue(1));
    assert!(distinct_colors(&st));
    st.handle_message(5, "k", "1", SerdeColor::Blue, msg("x", "/change-color"), SerdeColor::Red, "t");
    assert!(!st.color_taken(SerdeColor::Red));
}

#[test]
fn server_messages_and_handshakes() {
    let w = welcome_message("eve", SerdeColor::Magenta, "ts");
    assert_eq!(w.name.as_deref(), Some("Server"));
    assert_eq!(w.message.as_deref(), Some("Welcome eve to the chat! Use /help for available commands"));
    assert_eq!(w.color, Some(SerdeColor::Magenta));
    let m = server_message(Some("Ops"), "hi", SerdeColor::Red, "ts");
    assert_eq!(m.name.as_deref(), Some("Ops"));
    let h = handshake_response("eve", SerdeColor::AnsiValue(7));
    assert_eq!(h.name, "eve");
    assert_eq!(h.buffer_size, 1024);
    assert_eq!(h.color, Some(SerdeColor::AnsiValue(7)));
}

#[test]
fn keys_codes_and_ports() {
    let code = set_sudo_key();
    let n: u32 = code.parse().unwrap();
    assert!((1000..9999).contains(&n));
    assert_eq!(set_aes_key(Some("given".to_string())), "given");
    let k = set_aes_key(None);
    assert_eq!(k.len(), 64);
    assert_eq!(next_bind_port(5555), 5565);
}

#[test]
fn client_records() {
    let mut c = Client::new("z".to_string(), SerdeColor::White);
    assert!(c.get_messages().is_err());
    c.add_message(msg("z", "yo"));
    assert_eq!(c.get_messages().unwrap(), "z: 2024-01-01 00:00:00: yo");
    let partial = Message::new(None, None, Some("x".to_string()), None);
    c.add_message(partial);
    assert_eq!(c.get_messages().unwrap(), "z: 2024-01-01 00:00:00: yo\nUnknown: Unknown time: x");
}
