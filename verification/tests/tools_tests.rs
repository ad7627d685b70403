use crypted_messages::cipher::{decrypt, encrypt, encrypt_with_nonce, generate_key, CryptoError};
use crypted_messages::color::SerdeColor;
use crypted_messages::hexcodec::{bytes_to_hex, hex_to_bytes, HexError};
use crypted_messages::message::{Handshake, Message};
use crypted_messages::timestamp::{format_timestamp, format_year, get_timestamp};
use regex::Regex;
use serde_json::Value;

fn message_json(name: &str, timestamp: &str, message: &str, color: &str) -> Value {
    let mut m = serde_json::Map::new();
    m.insert("name".to_string(), Value::String(name.to_string()));
    m.insert("timestamp".to_string(), Value::String(timestamp.to_string()));
    m.insert("message".to_string(), Value::String(message.to_string()));
    m.insert("color".to_string(), Value::String(color.to_string()));
    Value::Object(m)
}

fn handshake_json(name: &str, buffer_size: u64, color: &str) -> Value {
    let mut m = serde_json::Map::new();
    m.insert("name".to_string(), Value::String(name.to_string()));
    m.insert("buffer_size".to_string(), Value::Number(buffer_size.into()));
    m.insert("color".to_string(), Value::String(color.to_string()));
    Value::Object(m)
}

#[test]
fn test_aes_encryption_decryption() {
    // Define a shared key (32 bytes for AES-256)
    let key = generate_key(32);

    // Create a Message
    let message = Message {
        name: Some("Alice".to_string()),
        timestamp: Some("2024-09-12T12:34:56Z".to_string()),
        message: Some("Hello, Bob!".to_string()),
        color: Some(SerdeColor::Red),
    };
    let message_value = message_json("Alice", "2024-09-12T12:34:56Z", "Hello, Bob!", "Red");
    let message_bytes = serde_json::to_vec(&message_value).unwrap();

    // Encrypt and Decrypt a Message
    let encrypted_message = encrypt(&key, &message_bytes).unwrap();
    println!("Encrypted Message: {:?}", encrypted_message);
    let decrypted_message = decrypt(&key, &encrypted_message).unwrap();
    let decrypted_value: Value = serde_json::from_slice(&decrypted_message).unwrap();
    println!("Decrypted Message: {:?}", decrypted_value);

    // Create a Handshake
    let handshake = Handshake {
        name: "Alice".to_string(),
        buffer_size: 1024,
        color: Some(SerdeColor::Blue),
    };
    let handshake_value = handshake_json("Alice", 1024, "Blue");
    let handshake_bytes = serde_json::to_vec(&handshake_value).unwrap();

    // Encrypt and Decrypt a Handshake
    let encrypted_handshake = encrypt(&key, &handshake_bytes).unwrap();
    println!("Encrypted Handshake: {:?}", encrypted_handshake);
    let decrypted_handshake = decrypt(&key, &encrypted_handshake).unwrap();
    let decrypted_handshake_value: Value = serde_json::from_slice(&decrypted_handshake).unwrap();
    println!("Decrypted Handshake: {:?}", decrypted_handshake_value);

    // Verify the decrypted data matches what was encrypted
    assert_eq!(message_value, decrypted_value);
    assert_eq!(handshake_value, decrypted_handshake_value);
    assert_eq!(decrypted_value["name"], Value::String(message.name.clone().unwrap()));
    assert_eq!(decrypted_handshake_value["buffer_size"], Value::Number(handshake.buffer_size.into()));
}

#[test]
fn test_get_timestamp_format() {
    // Get the current timestamp string
    let timestamp = get_timestamp();

    // Define the regex pattern for the timestamp (YYYY-MM-DD HH:MM::SS)
    let re = Regex::new(r"^\d{4}-\d{2}-\d{2} \d{2}:\d{2}:\d{2}$").unwrap();

    // Assert that the timestamp matches the regex pattern
    assert!(re.is_match(&timestamp), "Timestamp format is incorrect");

    // Optionally, split the string to validate each part is in a valid range
    let parts: Vec<&str> = timestamp.split(&['-', ' ', ':'][..]).collect();
    let year: i32 = parts[0].parse().unwrap();
    let month: u32 = parts[1].parse().unwrap();
    let day: u32 = parts[2].parse().unwrap();
    let hour: u32 = parts[3].parse().unwrap();
    let minute: u32 = parts[4].parse().unwrap();
    let second: u32 = parts[5].parse().unwrap();

    // Check if each component of the timestamp is within a valid range
    assert!(year > 1970, "Year is out of range");
    assert!(month >= 1 && month <= 12, "Month is out of range");
    assert!(day >= 1 && day <= 31, "Day is out of range");
    assert!(hour < 24, "Hour is out of range");
    assert!(minute < 60, "Minute is out of range");
    assert!(second < 60, "Second is out of range");
}

#[test]
fn format_timestamp_pads_every_field() {
    assert_eq!(format_timestamp(2024, 9, 5, 7, 3, 9), "2024-09-05 07:03:09");
    assert_eq!(format_timestamp(1999, 12, 31, 23, 59, 59), "1999-12-31 23:59:59");
    assert_eq!(format_timestamp(33, 1, 1, 0, 0, 0), "0033-01-01 00:00:00");
}

#[test]
fn format_year_handles_signs_and_width() {
    assert_eq!(format_year(-5), "-005");
    assert_eq!(format_year(-1234), "-1234");
    assert_eq!(format_year(12345), "12345");
    assert_eq!(format_year(0), "0000");
}

#[test]
fn timestamp_matches_std_formatting() {
    for (y, mo, d, h, mi, s) in [(2023, 2, 28, 13, 5, 0), (-7, 10, 10, 10, 10, 10), (9, 1, 2, 3, 4, 5)] {
        let expected = format!("{:04}-{:02}-{:02} {:02}:{:02}:{:02}", y, mo, d, h, mi, s);
        assert_eq!(format_timestamp(y, mo, d, h, mi, s), expected);
    }
}

#[test]
fn generated_keys_are_hex_of_the_requested_length() {
    let key = generate_key(32);
    assert_eq!(key.len(), 64);
    assert!(key.chars().all(|c| c.is_ascii_hexdigit() && !c.is_ascii_uppercase()));
    assert_eq!(hex_to_bytes(&key).unwrap().len(), 32);
    let other = generate_key(32);
    assert_ne!(key, other);
    assert_eq!(generate_key(0), "");
}

#[test]
fn hex_decoding_and_encoding() {
    assert_eq!(hex_to_bytes("0aFf10").unwrap(), vec![0x0a, 0xff, 0x10]);
    assert_eq!(hex_to_bytes("").unwrap(), Vec::<u8>::new());
    assert_eq!(hex_to_bytes("abc"), Err(HexError::InvalidHex));
    assert_eq!(hex_to_bytes("zz"), Err(HexError::InvalidHex));
    assert_eq!(bytes_to_hex(&[0x00, 0xab, 0x7f]), "00ab7f");
    let bytes: Vec<u8> = (0u8..=255).collect();
    assert_eq!(hex_to_bytes(&bytes_to_hex(&bytes)).unwrap(), bytes);
}

#[test]
fn encryption_with_a_fixed_nonce_is_deterministic_and_framed() {
    let key = "00112233445566778899aabbccddeeff00112233445566778899aabbccddeeff";
    let nonce = [7u8; 12];
    let data = b"{\"message\":\"hi\"}";
    let a = encrypt_with_nonce(key, data, &nonce).unwrap();
    let b = encrypt_with_nonce(key, data, &nonce).unwrap();
    assert_eq!(a, b);
    assert_eq!(&a[..12], &nonce);
    assert_eq!(a.len(), 12 + data.len() + 16);
    assert_ne!(&a[12..12 + data.len()], &data[..]);
    assert_eq!(decrypt(key, &a).unwrap(), data.to_vec());
}

#[test]
fn long_payloads_are_cut_to_1024_bytes() {
    let key = generate_key(32);
    let data = vec![b'x'; 3000];
    let frame = encrypt(&key, &data).unwrap();
    assert_eq!(frame.len(), 12 + 1024 + 16);
    assert_eq!(decrypt(&key, &frame).unwrap(), vec![b'x'; 1024]);
}

#[test]
fn fresh_nonces_differ() {
    let key = generate_key(32);
    let a = encrypt(&key, b"same").unwrap();
    let b = encrypt(&key, b"same").unwrap();
    assert_ne!(&a[..12], &b[..12]);
}

#[test]
fn key_and_frame_errors() {
    let key = generate_key(32);
    let other = generate_key(32);
    let frame = encrypt(&key, b"secret").unwrap();
    assert_eq!(decrypt(&other, &frame), Err(CryptoError::Decryption));
    let mut tampered = frame.clone();
    let last = tampered.len() - 1;
    tampered[last] ^= 1;
    assert_eq!(decrypt(&key, &tampered), Err(CryptoError::Decryption));
    assert_eq!(decrypt(&key, &frame[..20]), Err(CryptoError::Decryption));
    assert_eq!(encrypt("not hex", b"x"), Err(CryptoError::KeyHex));
    assert_eq!(decrypt("xyz", &[1, 2, 3]), Err(CryptoError::KeyHex));
}
