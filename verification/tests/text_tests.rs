use crypted_messages::address::{
    default_ip, default_port, host_from_input, ip_prompt, port_from_argument, port_from_input,
    port_prompt, AdressMode,
};
use crypted_messages::command::{ClientCommand, ServerCommand};
use crypted_messages::text::{
    decimal, is_whitespace, pad_zeros, parse_u16, split_whitespace, starts_with, str_equal, trim_str,
};

#[test]
fn trimming_matches_std() {
    for s in ["  hi  ", "\r\nline\r\n", "", "   ", "a b", "\u{3000}x\u{a0}", "\tmixed \n"] {
        assert_eq!(trim_str(s), s.trim());
    }
}

#[test]
fn whitespace_matches_std() {
    for c in [' ', '\t', '\n', '\u{85}', '\u{2000}', '\u{3000}', 'a', '0', '\u{200b}'] {
        assert_eq!(is_whitespace(c), c.is_whitespace());
    }
}

#[test]
fn splitting_matches_std() {
    for s in ["/sudo 1234", "  a  b   c ", "", "one", "/sudo", "x\ty\nz"] {
        let expected: Vec<String> = s.split_whitespace().map(|w| w.to_string()).collect();
        assert_eq!(split_whitespace(s), expected);
    }
}

#[test]
fn string_comparisons() {
    assert!(str_equal("abc", "abc"));
    assert!(!str_equal("abc", "abd"));
    assert!(!str_equal("ab", "abc"));
    assert!(starts_with("/sudo 1", "/sudo"));
    assert!(starts_with("/", "/"));
    assert!(!starts_with("hello", "/"));
    assert!(!starts_with("/s", "/sudo"));
}

#[test]
fn decimal_and_padding() {
    assert_eq!(decimal(0), "0");
    assert_eq!(decimal(42), "42");
    assert_eq!(decimal(u64::MAX), u64::MAX.to_string());
    assert_eq!(pad_zeros("7".to_string(), 3), "007");
    assert_eq!(pad_zeros("12345".to_string(), 2), "12345");
}

#[test]
fn port_parsing_matches_std() {
    for s in ["80", "+80", "-1", "65535", "65536", "", "+", "0", "00080", "8 0", "99999999999"] {
        assert_eq!(parse_u16(s), s.parse::<u16>().ok(), "input {:?}", s);
    }
}

#[test]
fn port_lines_and_defaults() {
    assert_eq!(port_from_input("  \n", AdressMode::Client), Some(5555));
    assert_eq!(port_from_input("\n", AdressMode::Server), Some(0));
    assert_eq!(port_from_input(" 8080 \r\n", AdressMode::Client), Some(8080));
    assert_eq!(port_from_input("eighty\n", AdressMode::Client), None);
    assert_eq!(port_from_argument(" 80"), None);
    assert_eq!(port_from_argument("80"), Some(80));
    assert_eq!(default_port(AdressMode::Client), 5555);
    assert_eq!(default_port(AdressMode::Server), 0);
}

#[test]
fn address_lines_and_prompts() {
    assert_eq!(host_from_input("\n", AdressMode::Server), "0.0.0.0");
    assert_eq!(host_from_input("   ", AdressMode::Client), "127.0.0.1");
    assert_eq!(host_from_input(" 10.0.0.2\n", AdressMode::Client), "10.0.0.2");
    assert_eq!(default_ip(AdressMode::Server), "0.0.0.0");
    assert_eq!(ip_prompt(Some("Enter IP: "), AdressMode::Server), "> Enter IP: ");
    assert_eq!(
        ip_prompt(None, AdressMode::Client),
        "Enter Destination IP (leave blank for 127.0.0.1): "
    );
    assert_eq!(
        port_prompt(None, AdressMode::Server),
        "Enter destination port (leave blank for 0): "
    );
    assert_eq!(port_prompt(Some("Port? "), AdressMode::Client), "> Port? ");
}

#[test]
fn commands_are_read_exactly() {
    assert_eq!(ServerCommand::from_str("/close"), ServerCommand::Close);
    assert_eq!(ServerCommand::from_str("/view-messages"), ServerCommand::ViewMessages);
    assert_eq!(ServerCommand::from_str("/view-key"), ServerCommand::ViewKey);
    assert_eq!(ServerCommand::from_str("/view-history"), ServerCommand::ViewHistory);
    assert_eq!(ServerCommand::from_str("/change-color"), ServerCommand::ChangeColor);
    assert_eq!(ServerCommand::from_str("/close "), ServerCommand::Invalid);
    assert_eq!(ClientCommand::from_str("/quit"), ClientCommand::Quit);
    assert_eq!(ClientCommand::from_str("/toggle-color"), ClientCommand::ToogleColor);
    assert_eq!(ClientCommand::from_str("/help"), ClientCommand::Help);
    assert_eq!(ClientCommand::from_str("help"), ClientCommand::Invalid);
}

#[test]
fn written_ports_read_back() {
    for n in [0u16, 7, 80, 5555, 65535] {
        assert_eq!(parse_u16(&decimal(n as u64)), Some(n));
    }
}
