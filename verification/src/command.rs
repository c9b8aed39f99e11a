//! The commands a user types at the prompt, and what the client makes of the
//! text typed for a download.

use vstd::prelude::*;
use vstd::string::*;
use vstd::utf8::*;
use crate::text::{has_prefix, lemma_skip_ascii_prefix, same_text, starts_with_text};

verus! {

/// What a line typed at the prompt asks for.
#[derive(PartialEq, Eq, Structural, Clone, Copy, Debug)]
pub enum Command {
    /// `get <name>`: download a file from the server.
    Get,
    /// `put <name>`: announce an upload to the server.
    Put,
    /// `ls-remote`: list the server's files.
    ListRemote,
    /// `ls-local`: list the client's files.
    ListLocal,
    /// `help`: show the commands.
    Help,
    /// `exit` or `quit`.
    Exit,
    /// Anything else.
    Invalid,
}

/// The command a typed line asks for: a line beginning with `get ` or `put `
/// is a transfer, otherwise the whole line must be one of the other words.
pub open spec fn command_of(line: Seq<char>) -> Command {
    if has_prefix(line, "get "@) {
        Command::Get
    } else if has_prefix(line, "put "@) {
        Command::Put
    } else if line == "ls-remote"@ {
        Command::ListRemote
    } else if line == "ls-local"@ {
        Command::ListLocal
    } else if line == "help"@ {
        Command::Help
    } else if line == "exit"@ || line == "quit"@ {
        Command::Exit
    } else {
        Command::Invalid
    }
}

/// Reads the command of a typed line.
pub fn parse_command(line: &str) -> (r: Command)
    ensures
        r == command_of(line@),
        has_prefix(line@, "get "@) ==> r == Command::Get,
        has_prefix(line@, "put "@) ==> r == Command::Put,
{
    proof {
        reveal_strlit("get ");
        reveal_strlit("put ");
        if has_prefix(line@, "put "@) {
            assert(line@.take(4)[0] == 'p');
            assert(!has_prefix(line@, "get "@));
        }
    }
    if starts_with_text(line, "get ") {
        Command::Get
    } else if starts_with_text(line, "put ") {
        Command::Put
    } else if same_text(line, "ls-remote") {
        Command::ListRemote
    } else if same_text(line, "ls-local") {
        Command::ListLocal
    } else if same_text(line, "help") {
        Command::Help
    } else if same_text(line, "exit") || same_text(line, "quit") {
        Command::Exit
    } else {
        Command::Invalid
    }
}

/// The file a download command names: what follows its first four bytes.
pub open spec fn requested_name(command: &str) -> Seq<char> {
    decode_utf8(command.spec_bytes().skip(4))
}

/// The name of the file a `get` command asks for: the command without its
/// first four bytes, which must end on a character boundary.
pub fn requested_file_name(command: &str) -> (r: String)
    requires
        is_char_boundary(command.spec_bytes(), 4),
    ensures
        r@ == requested_name(command),
        command@.len() >= 4 && is_ascii_chars(command@.take(4)) ==> r@ == command@.skip(4),
{
    proof {
        if command@.len() >= 4 && is_ascii_chars(command@.take(4)) {
            lemma_skip_ascii_prefix(command, 4);
        }
    }
    let (_head, tail) = command.split_at(4);
    proof {
        encode_utf8_decode_utf8(tail@);
        assert(command.spec_bytes().skip(4) =~= command.spec_bytes().subrange(
            4,
            command.spec_bytes().len() as int,
        ));
    }
    tail.to_owned()
}

/// Law: every line that begins with `get ` asks for a download, and every
/// line that begins with `put ` for an upload, whatever follows.
pub proof fn law_transfer_lines(rest: Seq<char>)
    ensures
        command_of("get "@ + rest) == Command::Get,
        command_of("put "@ + rest) == Command::Put,
{
    reveal_strlit("get ");
    reveal_strlit("put ");
    assert(("get "@ + rest).take(4) =~= "get "@);
    assert(("put "@ + rest).take(4) =~= "put "@);
    assert(("put "@ + rest).take(4)[0] != "get "@[0]);
}

/// Law: the file a download command names is everything after `get `,
/// spaces and all, and such a command is read as a download.
pub proof fn law_requested_name_is_rest(command: &str, name: Seq<char>)
    requires
        command@ == "get "@ + name,
    ensures
        is_char_boundary(command.spec_bytes(), 4),
        requested_name(command) == name,
        command_of(command@) == Command::Get,
{
    reveal_strlit("get ");
    law_transfer_lines(name);
    let head = command@.take(4);
    assert(head =~= "get "@);
    assert(is_ascii_chars(head));
    lemma_skip_ascii_prefix(command, 4);
    assert(command@.skip(4) =~= name);
    // The first four bytes are the four ASCII characters.
    let tail = command@.skip(4);
    assert(command@ =~= head + tail);
    crate::text::lemma_encode_utf8_concat(head, tail);
    is_ascii_chars_encode_utf8(head);
    encode_utf8_valid_utf8(head);
    encode_utf8_valid_utf8(tail);
    crate::text::lemma_decode_utf8_concat(encode_utf8(head), encode_utf8(tail));
}

/// What the server answered to a download request.
#[derive(PartialEq, Eq, Structural, Clone, Copy, Debug)]
pub enum GetReply {
    /// `file not found`.
    NotFound,
    /// `file found`: the file follows.
    Found,
    /// Anything else.
    Unrecognized,
}

/// The meaning of the server's answer to a download request.
pub open spec fn get_reply_of(msg: Seq<char>) -> GetReply {
    if msg == "file not found"@ {
        GetReply::NotFound
    } else if msg == "file found"@ {
        GetReply::Found
    } else {
        GetReply::Unrecognized
    }
}

/// Reads the server's answer to a download request.
pub fn classify_get_reply(msg: &str) -> (r: GetReply)
    ensures
        r == get_reply_of(msg@),
{
    if same_text(msg, "file not found") {
        GetReply::NotFound
    } else if same_text(msg, "file found") {
        GetReply::Found
    } else {
        GetReply::Unrecognized
    }
}

} // verus!
