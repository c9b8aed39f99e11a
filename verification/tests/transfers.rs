use ftp_client::transfer::{FileReceiver, TextReceiver};

fn chunk(bytes: &[u8]) -> [u8; 8] {
    let mut b = [0u8; 8];
    b[..bytes.len()].copy_from_slice(bytes);
    b
}

#[test]
fn text_receiver_reassembles_a_message() {
    let mut rx = TextReceiver::start("12").unwrap();
    assert!(!rx.is_done());
    rx.on_read(&chunk(b"file fou"), Some(8));
    assert_eq!(rx.remaining(), 4);
    rx.on_read(&chunk(b"nd\r"), None);
    assert_eq!(rx.remaining(), 4);
    rx.on_read(&chunk(b"nd\r\0"), Some(4));
    assert!(rx.is_done());
    assert_eq!(rx.into_message(), "file found");
}

#[test]
fn text_receiver_keeps_whole_buffer_while_a_buffer_is_awaited() {
    // With eight or more bytes awaited the whole buffer is taken, even after a short read.
    let mut rx = TextReceiver::start("9").unwrap();
    rx.on_read(b"abcdefgh", Some(3));
    assert_eq!(rx.remaining(), 6);
    rx.on_read(b"xyz\r\0\0\0\0", Some(6));
    assert!(rx.is_done());
    assert_eq!(rx.into_text(), "abcdefghxyz\r\0\0");
}

#[test]
fn text_receiver_rejects_size_that_is_not_a_number() {
    assert!(TextReceiver::start("1x").is_none());
    assert!(FileReceiver::start("").is_none());
}

#[test]
fn empty_text_transfer_is_done_at_once() {
    let rx = TextReceiver::start("0").unwrap();
    assert!(rx.is_done());
    assert_eq!(rx.into_text(), "");
}

#[test]
fn file_receiver_writes_exactly_the_announced_bytes() {
    let content: Vec<u8> = (0u8..21).collect();
    let mut fx = FileReceiver::start("21").unwrap();
    let mut written: Vec<u8> = Vec::new();
    let mut pos = 0;
    while !fx.is_done() {
        let n = std::cmp::min(8, content.len() - pos);
        let buf = chunk(&content[pos..pos + n]);
        if let Some(bytes) = fx.on_read(&buf, Some(n)) {
            written.extend_from_slice(&bytes);
        }
        pos += n;
    }
    assert_eq!(written, content);
}

#[test]
fn file_receiver_failed_read_writes_nothing() {
    let mut fx = FileReceiver::start("3").unwrap();
    assert_eq!(fx.on_read(&[1, 2, 3, 4, 5, 6, 7, 8], None), None);
    assert_eq!(fx.remaining(), 3);
    assert_eq!(fx.on_read(&[1, 2, 3, 4, 5, 6, 7, 8], Some(3)), Some(vec![1, 2, 3]));
    assert!(fx.is_done());
}

#[test]
fn file_receiver_writes_whole_buffer_on_short_read() {
    // While eight or more bytes are awaited the whole buffer goes to the file.
    let mut fx = FileReceiver::start("10").unwrap();
    assert_eq!(fx.on_read(b"abcdefgh", Some(5)), Some(b"abcdefgh".to_vec()));
    assert_eq!(fx.remaining(), 5);
    assert_eq!(fx.on_read(b"ijklmnop", Some(5)), Some(b"ijklm".to_vec()));
    assert!(fx.is_done());
}
