use ftp_client::exchange::{Action, Fault, GetExchange, ListExchange, Notice, PutExchange};
use ftp_client::frame::encode_message;

/// A buffer holding `bytes` then zeros.
fn padded(bytes: &[u8]) -> Vec<u8> {
    let mut b = vec![0u8; 8];
    b[..bytes.len()].copy_from_slice(bytes);
    b
}

/// The reads that deliver `m` without loss.
fn deliveries(m: &[u8]) -> Vec<(Vec<u8>, Option<usize>)> {
    m.chunks(8).map(|c| (padded(c), Some(c.len()))).collect()
}

fn frame(text: &str) -> Vec<u8> {
    encode_message(text).unwrap()
}

/// Runs an exchange against scripted reads, returning every action.
fn run<E>(
    start: (E, Vec<Action>),
    mut on_read: impl FnMut(&mut E, Vec<u8>, Option<usize>) -> Vec<Action>,
    reads: Vec<(Vec<u8>, Option<usize>)>,
) -> Vec<Action> {
    let (mut ex, mut actions) = start;
    let mut all = Vec::new();
    let mut reads = reads.into_iter();
    loop {
        let waiting = matches!(actions.last(), Some(Action::Read(_)));
        all.extend(actions);
        if !waiting {
            return all;
        }
        match reads.next() {
            Some((buf, res)) => actions = on_read(&mut ex, buf, res),
            None => return all,
        }
    }
}

fn sent(actions: &[Action]) -> Vec<Vec<u8>> {
    actions.iter().filter_map(|a| match a { Action::Send(b) => Some(b.clone()), _ => None }).collect()
}

fn written(actions: &[Action]) -> Vec<u8> {
    let mut out = Vec::new();
    for a in actions {
        if let Action::WriteFile(b) = a {
            out.extend_from_slice(b);
        }
    }
    out
}

fn outcome(actions: &[Action]) -> Option<Result<String, String>> {
    match actions.last() {
        Some(Action::Finish(r)) => Some(r.clone()),
        _ => None,
    }
}

fn fault(actions: &[Action]) -> Option<Fault> {
    match actions.last() {
        Some(Action::Abort(f)) => Some(*f),
        _ => None,
    }
}

#[test]
fn upload_announcement_ends_with_acknowledgement() {
    let actions = run(
        PutExchange::start("put a.txt"),
        |ex, b, r| ex.on_read(b, r),
        vec![(padded(b"ACK\r"), Some(4)), (padded(b"3\r"), Some(2))],
    );
    assert_eq!(sent(&actions), vec![b"10\r".to_vec(), b"put a.txt\r".to_vec()]);
    assert!(matches!(actions[0], Action::Notify(Notice::Sending(10))));
    assert!(actions.iter().any(|a| matches!(a, Action::Notify(Notice::ReceivedAck))));
    assert!(actions.iter().any(|a| matches!(a, Action::Notify(Notice::Receiving(s)) if s == "3")));
    assert_eq!(outcome(&actions), Some(Ok(String::from("ACK"))));
}

#[test]
fn upload_announcement_keeps_other_acknowledgement_text() {
    let actions = run(
        PutExchange::start("put a.txt"),
        |ex, b, r| ex.on_read(b, r),
        vec![(padded(b"NO\r"), Some(3)), (padded(b"0\r"), Some(2))],
    );
    assert!(!actions.iter().any(|a| matches!(a, Action::Notify(Notice::ReceivedAck))));
    assert_eq!(outcome(&actions), Some(Ok(String::from("NO"))));
}

#[test]
fn upload_announcement_outside_ascii_is_refused_before_sending() {
    let actions = run(PutExchange::start("put \u{e9}t\u{e9}"), |ex, b, r| ex.on_read(b, r), vec![]);
    assert!(sent(&actions).is_empty());
    assert!(matches!(actions[0], Action::Notify(Notice::Sending(10))));
    assert_eq!(outcome(&actions), Some(Err(String::from("unrepresentable character"))));
}

#[test]
fn listing_request_returns_the_listing() {
    let listing = b"a.txt  [12 bytes]\nb.bin  [3 bytes]\n";
    let mut reads = vec![(padded(b"ACK\r"), Some(4)), (padded(b"35\r"), Some(3))];
    reads.extend(deliveries(listing));
    let actions = run(ListExchange::start("ls-remote"), |ex, b, r| ex.on_read(b, r), reads);
    assert_eq!(sent(&actions), vec![b"10\r".to_vec(), b"ls-remote\r".to_vec(), b"ACK\r".to_vec()]);
    assert_eq!(outcome(&actions), Some(Ok(String::from_utf8(listing.to_vec()).unwrap())));
}

#[test]
fn listing_request_of_empty_listing_ends_at_once() {
    let reads = vec![(padded(b"ACK\r"), Some(4)), (padded(b"0\r"), Some(2))];
    let actions = run(ListExchange::start("ls-remote"), |ex, b, r| ex.on_read(b, r), reads);
    assert_eq!(outcome(&actions), Some(Ok(String::new())));
}

#[test]
fn listing_request_retries_failed_reads_of_the_listing() {
    let reads = vec![
        (padded(b"ACK\r"), Some(4)),
        (padded(b"5\r"), Some(2)),
        (padded(b""), None),
        (padded(b"a  [1"), Some(5)),
    ];
    let actions = run(ListExchange::start("ls-remote"), |ex, b, r| ex.on_read(b, r), reads);
    assert_eq!(outcome(&actions), Some(Ok(String::from("a  [1"))));
}

#[test]
fn listing_request_gives_up_on_failed_acknowledgement_read() {
    let actions = run(ListExchange::start("ls-remote"), |ex, b, r| ex.on_read(b, r), vec![(padded(b""), None)]);
    assert_eq!(fault(&actions), Some(Fault::ReadFailed));
}

#[test]
fn listing_request_gives_up_on_unreadable_replies() {
    let actions = run(
        ListExchange::start("ls-remote"),
        |ex, b, r| ex.on_read(b, r),
        vec![(padded(b"ACK"), Some(3))],
    );
    assert_eq!(fault(&actions), Some(Fault::AckUnreadable));
    let actions = run(
        ListExchange::start("ls-remote"),
        |ex, b, r| ex.on_read(b, r),
        vec![(padded(b"ACK\r"), Some(4)), (vec![0xff, 0, 0, 0, 0, 0, 0, 0], Some(1))],
    );
    assert_eq!(fault(&actions), Some(Fault::SizeUnreadable));
    let actions = run(
        ListExchange::start("ls-remote"),
        |ex, b, r| ex.on_read(b, r),
        vec![(padded(b"ACK\r"), Some(4)), (padded(b"\r"), Some(1))],
    );
    assert_eq!(fault(&actions), Some(Fault::SizeNotNumber));
    // The acknowledgement of the size is sent before the size is found unusable.
    assert_eq!(sent(&actions).last().unwrap(), &b"ACK\r".to_vec());
    let actions = run(
        ListExchange::start("ls-remote"),
        |ex, b, r| ex.on_read(b, r),
        vec![(padded(b"ACK\r"), Some(4)), (padded(b"9\r"), Some(2)), (vec![0xc3; 8], Some(8))],
    );
    assert_eq!(fault(&actions), Some(Fault::ChunkUnreadable));
}

fn found_reads(content: &[u8]) -> Vec<(Vec<u8>, Option<usize>)> {
    let mut reads = vec![(padded(b"ACK\r"), Some(4)), (padded(b"11\r"), Some(3))];
    reads.extend(deliveries(&frame("file found")));
    let size = format!("{}\r", content.len());
    reads.push((padded(size.as_bytes()), Some(size.len())));
    reads.extend(deliveries(content));
    reads
}

#[test]
fn download_writes_the_file_under_the_shared_directory() {
    let content: Vec<u8> = (0u8..=40).collect();
    let actions = run(GetExchange::start("get notes.txt"), |ex, b, r| ex.on_read(b, r), found_reads(&content));
    assert!(matches!(&actions[0], Action::Notify(Notice::AttemptingGet(n)) if n == "notes.txt"));
    assert_eq!(
        sent(&actions),
        vec![b"14\r".to_vec(), b"get notes.txt\r".to_vec(), b"ACK\r".to_vec(), b"ACK\r".to_vec(), b"ACK\r".to_vec()]
    );
    assert!(actions.iter().any(|a| matches!(a, Action::CreateFile(p) if p == "./src/shared/notes.txt")));
    assert!(actions.iter().any(|a| matches!(a, Action::Notify(Notice::FileFound))));
    assert_eq!(written(&actions), content);
    assert_eq!(outcome(&actions), Some(Ok(String::from("get_file default response"))));
}

#[test]
fn download_of_empty_file_creates_it() {
    let actions = run(GetExchange::start("get e"), |ex, b, r| ex.on_read(b, r), found_reads(b""));
    assert!(actions.iter().any(|a| matches!(a, Action::CreateFile(p) if p == "./src/shared/e")));
    assert!(written(&actions).is_empty());
    assert_eq!(outcome(&actions), Some(Ok(String::from("get_file default response"))));
}

#[test]
fn download_of_missing_file_writes_nothing() {
    let mut reads = vec![(padded(b"ACK\r"), Some(4)), (padded(b"15\r"), Some(3))];
    reads.extend(deliveries(&frame("file not found")));
    let actions = run(GetExchange::start("get nope"), |ex, b, r| ex.on_read(b, r), reads);
    assert!(actions.iter().any(|a| matches!(a, Action::Notify(Notice::FileNotFound))));
    assert!(!actions.iter().any(|a| matches!(a, Action::CreateFile(_))));
    assert!(written(&actions).is_empty());
    assert_eq!(outcome(&actions), Some(Ok(String::from("get_file default response"))));
}

#[test]
fn download_with_unknown_answer_ends() {
    let mut reads = vec![(padded(b"NAK\r"), Some(4)), (padded(b"4\r"), Some(2))];
    reads.extend(deliveries(&frame("huh")));
    let actions = run(GetExchange::start("get x"), |ex, b, r| ex.on_read(b, r), reads);
    assert!(actions.iter().any(|a| matches!(a, Action::Notify(Notice::GetAckFailed))));
    assert!(actions.iter().any(|a| matches!(a, Action::Notify(Notice::ReplyUnrecognized))));
    assert_eq!(outcome(&actions), Some(Ok(String::from("get_file default response"))));
}

#[test]
fn download_gives_up_where_it_cannot_go_on() {
    let actions = run(GetExchange::start("get"), |ex, b, r| ex.on_read(b, r), vec![]);
    assert_eq!(fault(&actions), Some(Fault::BadCommand));
    let actions = run(GetExchange::start("get caf\u{e9}"), |ex, b, r| ex.on_read(b, r), vec![]);
    assert_eq!(fault(&actions), Some(Fault::CommandNotAscii));
    // An answer without its carriage return.
    let mut reads = vec![(padded(b"ACK\r"), Some(4)), (padded(b"3\r"), Some(2))];
    reads.extend(deliveries(b"abc"));
    let actions = run(GetExchange::start("get x"), |ex, b, r| ex.on_read(b, r), reads);
    assert_eq!(fault(&actions), Some(Fault::MessageUnterminated));
    // A negative file size.
    let mut reads = vec![(padded(b"ACK\r"), Some(4)), (padded(b"11\r"), Some(3))];
    reads.extend(deliveries(&frame("file found")));
    // Only as many bytes as there are digits are kept: "-55" is read as "-5".
    reads.push((padded(b"-55\r"), Some(4)));
    reads.push((padded(b"abc"), Some(3)));
    let actions = run(GetExchange::start("get x"), |ex, b, r| ex.on_read(b, r), reads);
    assert_eq!(fault(&actions), Some(Fault::FileSizeNegative));
}

#[test]
fn remote_listing_gives_the_server_entries() {
    let listing = "notes.txt  [120 bytes]\nphoto.jpg  [34567 bytes]\nempty  [0 bytes]\n";
    let mut reads = vec![(padded(b"ACK\r"), Some(4)), (padded(format!("{}\r", listing.len()).as_bytes()), Some(3))];
    reads.extend(deliveries(listing.as_bytes()));
    let actions = run(ListExchange::start("ls-remote"), |ex, b, r| ex.on_read(b, r), reads);
    let text = match outcome(&actions) {
        Some(Ok(t)) => t,
        other => panic!("unexpected outcome {:?}", other),
    };
    let entries = ftp_client::listing::format_response(&text);
    let got: Vec<(String, String)> = entries.into_iter().map(|e| (e.f_name, e.f_size)).collect();
    assert_eq!(
        got,
        vec![
            (String::from("notes.txt"), String::from("120")),
            (String::from("photo.jpg"), String::from("34567")),
            (String::from("empty"), String::from("0")),
        ]
    );
}
