use ftp_client::frame::{encode_message, encode_message_size};
use ftp_client::reply::{ack_text, check_ack, decode_message_size, try_decode_message_size};
use ftp_client::transfer::FileReceiver;

fn announced_size(s: &str) -> Option<i32> {
    FileReceiver::start(s).map(|rx| rx.remaining())
}

#[test]
fn message_frame_is_ascii_then_carriage_return() {
    assert_eq!(encode_message("ls-remote").unwrap(), b"ls-remote\r".to_vec());
    assert_eq!(encode_message("").unwrap(), b"\r".to_vec());
    assert_eq!(encode_message("ACK").unwrap(), vec![65u8, 67, 75, 13]);
}

#[test]
fn message_outside_ascii_is_refused() {
    let e = encode_message("get caf\u{e9}.txt").unwrap_err();
    assert_eq!(e, "unrepresentable character");
}

#[test]
fn size_frame_announces_message_frame_length() {
    assert_eq!(encode_message_size("ls-remote").unwrap(), b"10\r".to_vec());
    assert_eq!(encode_message_size("").unwrap(), b"1\r".to_vec());
    assert_eq!(encode_message_size("get a.txt").unwrap(), b"10\r".to_vec());
    // The size counts bytes, and is announced even for text outside ASCII.
    assert_eq!(encode_message_size("\u{e9}").unwrap(), b"3\r".to_vec());
    let long = "x".repeat(99);
    assert_eq!(encode_message_size(&long).unwrap(), b"100\r".to_vec());
}

#[test]
fn size_reply_keeps_as_many_bytes_as_digits() {
    let mut buf = *b"12\r\0\0\0\0\0";
    assert_eq!(decode_message_size(&mut buf), "12");
    let buf = *b"7\r\0\0\0\0\0\0";
    assert_eq!(decode_message_size(&buf), "7");
    // Digits are counted wherever they stand; the cut is made from the front.
    let buf = *b"5\rK\r9\0\0\0";
    assert_eq!(decode_message_size(&buf), "5\r");
    let buf = *b"ACK\r\0\0\0\0";
    assert_eq!(decode_message_size(&buf), "");
}

#[test]
fn digits_of_other_scripts_count_as_numeric() {
    // Two Arabic-Indic digits (two bytes each), then two ASCII digits: four
    // numeric characters, so the first four bytes are kept.
    let buf = [0xd9u8, 0xa3, 0xd9, 0xa3, b'1', b'2', b'\r', 0];
    assert_eq!(decode_message_size(&buf), "\u{663}\u{663}");
    // One numeric character, but its encoding takes two bytes.
    let buf = [0xd9u8, 0xa3, b'\r', 0, 0, 0, 0, 0];
    assert_eq!(try_decode_message_size(&buf), None);
}

#[test]
fn undecodable_size_reply_is_reported() {
    let buf = [0xffu8, b'1', 0, 0, 0, 0, 0, 0];
    assert_eq!(try_decode_message_size(&buf), None);
    // Two numeric characters, but the second byte is inside a two-byte character.
    let buf = [b'1', 0xc3, 0xa9, b'2', 0, 0, 0, 0];
    assert_eq!(try_decode_message_size(&buf), None);
    let buf = *b"42\r\0\0\0\0\0";
    assert_eq!(try_decode_message_size(&buf), Some(String::from("42")));
}

#[test]
fn acknowledgement_is_checked_before_last_carriage_return() {
    let mut buf = *b"ACK\r\0\0\0\0";
    assert_eq!(check_ack(&mut buf), "ACK");
    let buf = *b"NAK\r\0\0\0\0";
    assert_eq!(check_ack(&buf), "error");
    // Stale bytes after the frame do not matter unless they hold a carriage return.
    let buf = *b"ACK\r12\r\0";
    assert_eq!(check_ack(&buf), "error");
    assert_eq!(ack_text(&buf), "ACK\r12");
    let buf = *b"ACK\rxyz\0";
    assert_eq!(check_ack(&buf), "ACK");
}

#[test]
fn announced_size_is_read_as_i32() {
    assert_eq!(announced_size("12"), Some(12));
    assert_eq!(announced_size("+12"), Some(12));
    assert_eq!(announced_size("-3"), Some(-3));
    assert_eq!(announced_size("007"), Some(7));
    assert_eq!(announced_size(""), None);
    assert_eq!(announced_size("+"), None);
    assert_eq!(announced_size("1 2"), None);
    assert_eq!(announced_size("2147483647"), Some(i32::MAX));
    assert_eq!(announced_size("2147483648"), None);
    assert_eq!(announced_size("-2147483648"), Some(i32::MIN));
}
