use ftp_client::frame::{encode_message, encode_message_size};
use ftp_client::listing::format_response;
use ftp_client::paths::{local_file_name, shared_path};
use ftp_client::reply::{check_ack, decode_message_size};
use ftp_client::transfer::{FileReceiver, TextReceiver};

fn padded(bytes: &[u8]) -> [u8; 8] {
    let mut b = [0u8; 8];
    b[..bytes.len()].copy_from_slice(bytes);
    b
}

#[test]
fn size_frame_reads_back_as_frame_length() {
    for cmd in ["", "ls-remote", "get a-rather-long-file-name.txt", "put x"] {
        let announced = decode_message_size(&padded(&encode_message_size(cmd).unwrap()));
        assert_eq!(
            FileReceiver::start(&announced).map(|rx| rx.remaining()),
            Some(encode_message(cmd).unwrap().len() as i32)
        );
    }
}

#[test]
fn acknowledgement_frame_is_accepted() {
    assert_eq!(check_ack(&padded(&encode_message("ACK").unwrap())), "ACK");
    let mut stale = *b"ACK\rxyz!";
    stale[..4].copy_from_slice(&encode_message("ACK").unwrap());
    assert_eq!(check_ack(&stale), "ACK");
}

#[test]
fn framed_message_is_received_as_itself() {
    for msg in ["file found", "file not found", "", "a message of thirty bytes, long", "a\rb"] {
        let bytes = encode_message(msg).unwrap();
        let mut rx = TextReceiver::start(&bytes.len().to_string()).unwrap();
        for chunk in bytes.chunks(8) {
            rx.on_read(&padded(chunk), Some(chunk.len()));
        }
        assert!(rx.is_done());
        assert_eq!(rx.into_message(), msg);
    }
}

#[test]
fn stored_name_reads_back() {
    for name in ["notes.txt", "a", "x y z", "./src/shar"] {
        assert_eq!(local_file_name(&shared_path(name)), name);
    }
}

#[test]
fn rendered_listing_reads_back() {
    let entries = [("a.txt", "12"), ("b[1].bin", "3"), ("report.pdf", "1048576"), ("9lives", "0")];
    let mut listing = String::new();
    for (n, s) in entries.iter() {
        listing.push_str(&format!("{}  [{} bytes]\n", n, s));
    }
    let parsed = format_response(&listing);
    assert_eq!(parsed.len(), entries.len());
    for (e, (n, s)) in parsed.iter().zip(entries.iter()) {
        assert_eq!(e.f_name, *n);
        assert_eq!(e.f_size, *s);
    }
}
