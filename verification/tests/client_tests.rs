use crypted_messages::client::{
    apply_handshake_response, connection_timed_out, initial_handshake, outgoing_action, split_input,
    IncomingAction, IncomingState, Instance, OutgoingAction, BUFFER_SIZE,
};
use crypted_messages::color::SerdeColor;
use crypted_messages::message::{Handshake, Message};

fn server_msg(name: Option<&str>, text: &str, color: Option<SerdeColor>) -> Message {
    Message::new(name.map(|n| n.to_string()), None, Some(text.to_string()), color)
}

#[test]
fn short_input_is_one_trimmed_line() {
    assert_eq!(split_input(b"hello there\r\n"), vec!["hello there".to_string()]);
    assert_eq!(split_input(b"\n"), vec!["".to_string()]);
    assert_eq!(split_input(&[0x66, 0xff, 0x6f]), vec!["f\u{fffd}o".to_string()]);
}

#[test]
fn long_input_is_chunked() {
    let mut input = vec![b'a'; 1024];
    input.extend(vec![b'b'; 1024]);
    input.extend(b"cc\n".to_vec());
    let lines = split_input(&input);
    assert_eq!(lines.len(), 5);
    assert_eq!(lines[0], "START_CHUNK");
    assert_eq!(lines[1], "a".repeat(1024));
    assert_eq!(lines[2], "b".repeat(1024));
    assert_eq!(lines[3], "cc");
    assert_eq!(lines[4], "END_CHUNK");
    let exact = vec![b'z'; 1025];
    let lines = split_input(&exact);
    assert_eq!(lines, vec!["START_CHUNK".to_string(), "z".repeat(1024), "z".to_string(), "END_CHUNK".to_string()]);
    assert_eq!(split_input(&vec![b'q'; 1024]), vec!["q".repeat(1024)]);
}

#[test]
fn typed_lines_become_actions() {
    assert!(matches!(outgoing_action("/toggle-color", "me", SerdeColor::Red, "t"), OutgoingAction::ToggleColor));
    assert!(matches!(outgoing_action("/help", "me", SerdeColor::Red, "t"), OutgoingAction::ShowHelp));
    assert!(matches!(outgoing_action("/quit", "me", SerdeColor::Red, "t"), OutgoingAction::Quit));
    match outgoing_action("hi all", "me", SerdeColor::Yellow, "t9") {
        OutgoingAction::Send(m) => {
            assert_eq!(m, Message::new(Some("me".to_string()), Some("t9".to_string()), Some("hi all".to_string()), Some(SerdeColor::Yellow)));
        }
        _ => panic!("expected a message"),
    }
    match outgoing_action("START_CHUNK", "me", SerdeColor::Yellow, "t") {
        OutgoingAction::Send(m) => assert_eq!(m.message.as_deref(), Some("CHUNK_MESSAGE")),
        _ => panic!("expected a message"),
    }
    match outgoing_action("END_CHUNK", "me", SerdeColor::Yellow, "t") {
        OutgoingAction::Send(m) => assert_eq!(m.message.as_deref(), Some("END_CHUNK")),
        _ => panic!("expected a message"),
    }
}

#[test]
fn chunked_messages_are_shown_whole() {
    let mut st = IncomingState::new();
    match st.on_server_message(server_msg(Some("bob"), "START_CHUNK", None)) {
        IncomingAction::Notice(t) => assert_eq!(t, "Starting to accumulate chunked messages"),
        _ => panic!("expected a notice"),
    }
    assert!(matches!(st.on_server_message(server_msg(Some("bob"), "part one ", None)), IncomingAction::Nothing));
    assert!(matches!(st.on_server_message(server_msg(Some("bob"), "part two", None)), IncomingAction::Nothing));
    match st.on_server_message(server_msg(Some("bob"), "END_CHUNK", Some(SerdeColor::Blue))) {
        IncomingAction::Show { text, color } => {
            assert_eq!(text, "bob: part one part two");
            assert_eq!(color, SerdeColor::Blue);
        }
        _ => panic!("expected text"),
    }
    assert!(!st.is_chunked_message);
    assert!(st.chunk_buffer.is_empty());
}

#[test]
fn plain_and_signal_messages() {
    let mut st = IncomingState::new();
    match st.on_server_message(server_msg(None, "hey", None)) {
        IncomingAction::Show { text, color } => {
            assert_eq!(text, "Unknown sender: hey");
            assert_eq!(color, SerdeColor::Red);
        }
        _ => panic!("expected text"),
    }
    assert!(matches!(st.on_server_message(server_msg(None, "CLOSE_CONNECTION", None)), IncomingAction::Close));
    match st.on_server_message(server_msg(None, "COLOR_CHANGE", Some(SerdeColor::Green))) {
        IncomingAction::SetColor(c) => assert_eq!(c, SerdeColor::Green),
        _ => panic!("expected a color"),
    }
    assert!(matches!(st.on_server_message(Message::new(None, None, None, None)), IncomingAction::Nothing));
}

#[test]
fn handshakes() {
    let h = initial_handshake("ann");
    assert_eq!(h, Handshake::new("ann".to_string(), BUFFER_SIZE, None));
    let mut inst = Instance { name: "ann".to_string(), color: SerdeColor::Yellow };
    assert!(apply_handshake_response(&mut inst, Handshake::new("ann".to_string(), 1024, None)));
    assert_eq!(inst.color, SerdeColor::Red);
    assert!(!apply_handshake_response(&mut inst, Handshake::new("ann-1".to_string(), 1024, Some(SerdeColor::Blue))));
    assert_eq!(inst.name, "ann-1");
    assert_eq!(inst.color, SerdeColor::Blue);
}

#[test]
fn connection_timeout() {
    assert!(!connection_timed_out(29));
    assert!(connection_timed_out(30));
}

#[test]
fn chunks_put_back_together_give_the_input() {
    let input: Vec<u8> = (0..3000u32).map(|i| b'a' + (i % 26) as u8).collect();
    let lines = split_input(&input);
    assert_eq!(lines.first().map(|s| s.as_str()), Some("START_CHUNK"));
    assert_eq!(lines.last().map(|s| s.as_str()), Some("END_CHUNK"));
    let joined: String = lines[1..lines.len() - 1].concat();
    assert_eq!(joined.as_bytes(), &input[..]);
}
