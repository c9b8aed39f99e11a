use ftp_client::command::{classify_get_reply, parse_command, requested_file_name, Command, GetReply};
use ftp_client::paths::{local_file_name, remove_occurrences, shared_path};

#[test]
fn commands_are_recognised() {
    assert_eq!(parse_command("get a.txt"), Command::Get);
    assert_eq!(parse_command("get "), Command::Get);
    assert_eq!(parse_command("put b"), Command::Put);
    assert_eq!(parse_command("ls-remote"), Command::ListRemote);
    assert_eq!(parse_command("ls-local"), Command::ListLocal);
    assert_eq!(parse_command("help"), Command::Help);
    assert_eq!(parse_command("exit"), Command::Exit);
    assert_eq!(parse_command("quit"), Command::Exit);
    assert_eq!(parse_command("get"), Command::Invalid);
    assert_eq!(parse_command("ls-remote "), Command::Invalid);
    assert_eq!(parse_command(""), Command::Invalid);
}

#[test]
fn requested_name_follows_get() {
    assert_eq!(requested_file_name("get notes.txt"), "notes.txt");
    assert_eq!(requested_file_name("get "), "");
}

#[test]
fn get_replies_are_classified() {
    assert_eq!(classify_get_reply("file found"), GetReply::Found);
    assert_eq!(classify_get_reply("file not found"), GetReply::NotFound);
    assert_eq!(classify_get_reply("file found "), GetReply::Unrecognized);
}

#[test]
fn shared_path_and_local_name() {
    assert_eq!(shared_path("notes.txt"), "./src/shared/notes.txt");
    assert_eq!(local_file_name("./src/shared/notes.txt"), "notes.txt");
    assert_eq!(local_file_name(&shared_path("a b.c")), "a b.c");
    assert_eq!(remove_occurrences("x./src/sharedy./src/shared", "./src/shared"), "xy");
    assert_eq!(remove_occurrences("aaa", "aa"), "a");
    assert_eq!(remove_occurrences("abc", ""), "abc");
}
