//! The client's side of the exchanges with the server, as state machines.
//!
//! Each exchange is driven by its caller: the machine hands out actions
//! (send bytes, read into a buffer, report something, write to a file) and,
//! after each read it asked for, takes back the buffer and the read's result.
//! The machine never performs input or output itself. Where the client gives
//! up (an unreadable reply, a failed read where one is required), the machine
//! ends with an `Abort` action that names the reason.

use vstd::prelude::*;
use vstd::string::*;
use vstd::utf8::*;
use crate::command::{classify_get_reply, get_reply_of, requested_file_name, requested_name, GetReply};
use crate::frame::{encode_message, encode_message_size, frame, size_frame, unrepresentable};
use crate::paths::{shared_dir, shared_path};
use crate::reply::{
    ack_reply_decodable, ack_text, ack_word, check_ack, reply_text, size_reply_decodable,
    size_text, try_decode_message_size,
};
use crate::text::{before_last, chars_vec, find_last, same_text, str_from_utf8, text_before_last};
use crate::transfer::{
    file_read_ok, file_step, parse_i32, text_read_ok, text_step, zeros, FileReceiver,
    ReadOutcome, TextReceiver, BUFFER_SIZE,
};

verus! {

broadcast use vstd::string::group_string_axioms;

/// Something the client reports to its user.
pub enum Notice {
    /// A request of this many bytes is about to be sent.
    Sending(usize),
    /// The server acknowledged the announced size.
    ReceivedAck,
    /// The server announced a reply of this (textual) size.
    Receiving(String),
    /// A download of the named file starts.
    AttemptingGet(String),
    /// The server did not acknowledge a download request.
    GetAckFailed,
    /// The requested file does not exist on the server.
    FileNotFound,
    /// The requested file exists; its content follows.
    FileFound,
    /// The server's answer to a download request was not understood.
    ReplyUnrecognized,
    /// The content of the named file is about to be received.
    ReceivingFile(String),
    /// The server announced a file of this (textual) size.
    AnnouncedSize(String),
    /// A read of this many bytes of a reply was taken in.
    WroteBytes(usize),
    /// A read of this many bytes filled the buffer written to the file.
    WroteToFile(usize),
    /// The last bytes of the file, this many, were written.
    WroteToFileSmall(i32),
}

/// Why an exchange gave up.
#[derive(PartialEq, Eq, Structural, Clone, Copy, Debug)]
pub enum Fault {
    /// A read that the exchange cannot do without failed.
    ReadFailed,
    /// An acknowledgement was not UTF-8 or held no carriage return.
    AckUnreadable,
    /// A size announcement could not be decoded.
    SizeUnreadable,
    /// A size announcement was not a number.
    SizeNotNumber,
    /// A read of a reply was not UTF-8, or cut a character.
    ChunkUnreadable,
    /// A reply held no carriage return.
    MessageUnterminated,
    /// The announced file size was negative.
    FileSizeNegative,
    /// A download command was shorter than `get ` or cut a character there.
    BadCommand,
    /// A download command held a character outside ASCII.
    CommandNotAscii,
}

/// What the machine asks its caller to do.
pub enum Action {
    /// Report something to the user.
    Notify(Notice),
    /// Send these bytes to the server.
    Send(Vec<u8>),
    /// Read from the server into a buffer that holds these bytes, then hand
    /// back the buffer and the result of the read.
    Read(Vec<u8>),
    /// Create (or empty) the file at this path.
    CreateFile(String),
    /// Write these bytes to the file and flush it.
    WriteFile(Vec<u8>),
    /// The exchange is over, with this outcome.
    Finish(Result<String, String>),
    /// The exchange gives up.
    Abort(Fault),
}

/// The abstract value of a notice.
pub enum NoticeView {
    Sending(nat),
    ReceivedAck,
    Receiving(Seq<char>),
    AttemptingGet(Seq<char>),
    GetAckFailed,
    FileNotFound,
    FileFound,
    ReplyUnrecognized,
    ReceivingFile(Seq<char>),
    AnnouncedSize(Seq<char>),
    WroteBytes(nat),
    WroteToFile(nat),
    WroteToFileSmall(int),
}

/// The abstract value of an action.
pub enum ActionView {
    Notify(NoticeView),
    Send(Seq<u8>),
    Read(Seq<u8>),
    CreateFile(Seq<char>),
    WriteFile(Seq<u8>),
    Finish(Result<Seq<char>, Seq<char>>),
    Abort(Fault),
}

impl View for Notice {
    type V = NoticeView;

    open spec fn view(&self) -> NoticeView {
        match self {
            Notice::Sending(n) => NoticeView::Sending(*n as nat),
            Notice::ReceivedAck => NoticeView::ReceivedAck,
            Notice::Receiving(s) => NoticeView::Receiving(s@),
            Notice::AttemptingGet(s) => NoticeView::AttemptingGet(s@),
            Notice::GetAckFailed => NoticeView::GetAckFailed,
            Notice::FileNotFound => NoticeView::FileNotFound,
            Notice::FileFound => NoticeView::FileFound,
            Notice::ReplyUnrecognized => NoticeView::ReplyUnrecognized,
            Notice::ReceivingFile(s) => NoticeView::ReceivingFile(s@),
            Notice::AnnouncedSize(s) => NoticeView::AnnouncedSize(s@),
            Notice::WroteBytes(n) => NoticeView::WroteBytes(*n as nat),
            Notice::WroteToFile(n) => NoticeView::WroteToFile(*n as nat),
            Notice::WroteToFileSmall(n) => NoticeView::WroteToFileSmall(*n as int),
        }
    }
}

impl View for Action {
    type V = ActionView;

    open spec fn view(&self) -> ActionView {
        match self {
            Action::Notify(n) => ActionView::Notify(n@),
            Action::Send(v) => ActionView::Send(v@),
            Action::Read(v) => ActionView::Read(v@),
            Action::CreateFile(s) => ActionView::CreateFile(s@),
            Action::WriteFile(v) => ActionView::WriteFile(v@),
            Action::Finish(r) => ActionView::Finish(
                match r {
                    Ok(s) => Ok(s@),
                    Err(e) => Err(e@),
                },
            ),
            Action::Abort(f) => ActionView::Abort(*f),
        }
    }
}

/// The abstract values of a sequence of actions.
pub open spec fn action_views(v: Seq<Action>) -> Seq<ActionView> {
    v.map_values(|a: Action| a@)
}

/// The buffer a fresh read goes into.
pub open spec fn fresh_buffer() -> Seq<u8> {
    zeros(BUFFER_SIZE as nat)
}

/// The frame that acknowledges a size announcement.
pub open spec fn ack_frame() -> Seq<u8> {
    frame(ack_word())
}

/// A fresh read buffer.
fn fresh_buffer_exec() -> (r: Vec<u8>)
    ensures
        r@ == fresh_buffer(),
{
    let mut v: Vec<u8> = Vec::new();
    let mut i: usize = 0;
    while i < BUFFER_SIZE
        invariant
            i <= BUFFER_SIZE,
            v@ == zeros(i as nat),
        decreases BUFFER_SIZE - i,
    {
        v.push(0u8);
        i = i + 1;
        assert(v@ =~= zeros(i as nat));
    }
    v
}

/// A copy of a byte vector.
fn copy_bytes(v: &Vec<u8>) -> (r: Vec<u8>)
    ensures
        r@ == v@,
{
    let mut out: Vec<u8> = Vec::new();
    let mut i: usize = 0;
    while i < v.len()
        invariant
            i <= v@.len(),
            out@ == v@.take(i as int),
        decreases v@.len() - i,
    {
        out.push(v[i]);
        i = i + 1;
    }
    assert(out@ =~= v@);
    out
}

/// The acknowledgement frame.
fn ack_frame_exec() -> (r: Vec<u8>)
    ensures
        r@ == ack_frame(),
{
    proof {
        reveal_strlit("ACK");
        assert(is_ascii("ACK"));
        assert("ACK"@ =~= ack_word());
    }
    match encode_message("ACK") {
        Ok(v) => v,
        Err(_) => {
            proof {
                assert(false);
            }
            Vec::new()
        },
    }
}

// ---------------------------------------------------------------------------
// Announcing an upload

/// Where an upload announcement stands.
#[derive(PartialEq, Eq, Structural, Clone, Copy, Debug)]
pub enum PutStage {
    /// The size was sent; its acknowledgement is awaited.
    AwaitAck,
    /// The request was sent; the size of the reply is awaited.
    AwaitSize,
    /// The exchange is over.
    Over,
}

/// The announcement of an upload: the client sends the size of its request,
/// reads the acknowledgement, sends the request and reads the size of the
/// reply. Its outcome is the text of the acknowledgement.
pub struct PutExchange {
    stage: PutStage,
    ack: String,
    message_frame: Vec<u8>,
}

/// The abstract state of an upload announcement: the stage, the
/// acknowledgement read and the request frame still to be sent.
pub struct PutView {
    pub stage: PutStage,
    pub ack: Seq<char>,
    pub message_frame: Seq<u8>,
}

impl View for PutExchange {
    type V = PutView;

    closed spec fn view(&self) -> PutView {
        PutView { stage: self.stage, ack: self.ack@, message_frame: self.message_frame@ }
    }
}

/// How an upload announcement for `command` begins: the request's size is
/// reported; a request outside ASCII ends the exchange with the encoder's
/// error, and any other is announced by its size frame before the
/// acknowledgement is read.
pub open spec fn put_start(command: &str) -> (PutView, Seq<ActionView>) {
    let sending = ActionView::Notify(NoticeView::Sending((command.spec_bytes().len() + 1) as nat));
    if is_ascii(command) {
        (
            PutView { stage: PutStage::AwaitAck, ack: Seq::empty(), message_frame: frame(command@) },
            seq![
                sending,
                ActionView::Send(size_frame(command.spec_bytes().len())),
                ActionView::Read(fresh_buffer()),
            ],
        )
    } else {
        (
            PutView { stage: PutStage::Over, ack: Seq::empty(), message_frame: Seq::empty() },
            seq![sending, ActionView::Finish(Err(unrepresentable()))],
        )
    }
}

/// How an upload announcement takes a read: an acknowledgement is kept (and
/// reported when it is `ACK`) and the request is sent; then the size of the
/// reply is reported and the exchange ends with the acknowledgement. A failed
/// read or an unreadable buffer ends it with a fault.
pub open spec fn put_next(st: PutView, buf: Seq<u8>, read: Option<usize>) -> (
    PutView,
    Seq<ActionView>,
) {
    let over = PutView { stage: PutStage::Over, ..st };
    match read {
        None => (over, seq![ActionView::Abort(Fault::ReadFailed)]),
        Some(_) => match st.stage {
            PutStage::AwaitAck => if !ack_reply_decodable(buf) {
                (over, seq![ActionView::Abort(Fault::AckUnreadable)])
            } else {
                let ack = reply_text(buf);
                let report = if ack == ack_word() {
                    seq![ActionView::Notify(NoticeView::ReceivedAck)]
                } else {
                    Seq::empty()
                };
                (
                    PutView { stage: PutStage::AwaitSize, ack, ..st },
                    report + seq![
                        ActionView::Send(st.message_frame),
                        ActionView::Read(fresh_buffer()),
                    ],
                )
            },
            _ => if !size_reply_decodable(buf) {
                (over, seq![ActionView::Abort(Fault::SizeUnreadable)])
            } else {
                (
                    over,
                    seq![
                        ActionView::Notify(NoticeView::Receiving(size_text(buf))),
                        ActionView::Finish(Ok(st.ack)),
                    ],
                )
            },
        },
    }
}

impl PutExchange {
    /// Starts announcing the upload that `command` asks for.
    pub fn start(command: &str) -> (r: (PutExchange, Vec<Action>))
        requires
            command.spec_bytes().len() < usize::MAX,
        ensures
            (r.0@, action_views(r.1@)) == put_start(command),
    {
        let string_size = command.len() + 1;
        let mut actions: Vec<Action> = Vec::new();
        actions.push(Action::Notify(Notice::Sending(string_size)));
        let size_bytes = encode_message_size(command).unwrap();
        match encode_message(command) {
            Ok(command_bytes) => {
                actions.push(Action::Send(size_bytes));
                actions.push(Action::Read(fresh_buffer_exec()));
                let ex = PutExchange {
                    stage: PutStage::AwaitAck,
                    ack: String::new(),
                    message_frame: command_bytes,
                };
                assert(action_views(actions@) =~= put_start(command).1);
                (ex, actions)
            },
            Err(e) => {
                actions.push(Action::Finish(Err(e)));
                let ex = PutExchange {
                    stage: PutStage::Over,
                    ack: String::new(),
                    message_frame: Vec::new(),
                };
                assert(action_views(actions@) =~= put_start(command).1);
                (ex, actions)
            },
        }
    }

    /// Whether the exchange is over.
    pub fn is_over(&self) -> (r: bool)
        ensures
            r <==> self@.stage == PutStage::Over,
    {
        self.stage == PutStage::Over
    }

    /// Takes back the buffer of the read last asked for and its result
    /// (`None` for a failed read).
    #[verifier::spinoff_prover]
    #[verifier::rlimit(40)]
    pub fn on_read(&mut self, buf: Vec<u8>, read: Option<usize>) -> (r: Vec<Action>)
        requires
            old(self)@.stage != PutStage::Over,
        ensures
            (final(self)@, action_views(r@)) == put_next(old(self)@, buf@, read),
    {
        let mut actions: Vec<Action> = Vec::new();
        if read.is_none() {
            self.stage = PutStage::Over;
            actions.push(Action::Abort(Fault::ReadFailed));
            assert(action_views(actions@) =~= put_next(old(self)@, buf@, read).1);
            return actions;
        }
        if self.stage == PutStage::AwaitAck {
            if !ack_buffer_ok(&buf) {
                self.stage = PutStage::Over;
                actions.push(Action::Abort(Fault::AckUnreadable));
                assert(action_views(actions@) =~= put_next(old(self)@, buf@, read).1);
                return actions;
            }
            let ack = ack_text(&buf);
            if is_ack_word(&ack) {
                actions.push(Action::Notify(Notice::ReceivedAck));
            }
            actions.push(Action::Send(copy_bytes(&self.message_frame)));
            actions.push(Action::Read(fresh_buffer_exec()));
            self.ack = ack;
            self.stage = PutStage::AwaitSize;
            assert(action_views(actions@) =~= put_next(old(self)@, buf@, read).1);
            actions
        } else {
            self.stage = PutStage::Over;
            match try_size_text(&buf) {
                None => {
                    actions.push(Action::Abort(Fault::SizeUnreadable));
                },
                Some(msg_len_str) => {
                    actions.push(Action::Notify(Notice::Receiving(msg_len_str)));
                    actions.push(Action::Finish(Ok(self.ack.clone())));
                },
            }
            assert(action_views(actions@) =~= put_next(old(self)@, buf@, read).1);
            actions
        }
    }
}

/// Whether an acknowledgement buffer can be read.
fn ack_buffer_ok(buf: &Vec<u8>) -> (r: bool)
    ensures
        r == ack_reply_decodable(buf@),
{
    match str_from_utf8(buf.as_slice()) {
        None => false,
        Some(s) => {
            let chars = chars_vec(s);
            let found = find_last(&chars, '\r');
            found.is_some()
        },
    }
}

/// Whether a text is the acknowledgement word.
fn is_ack_word(s: &String) -> (r: bool)
    ensures
        r == (s@ == ack_word()),
{
    proof {
        reveal_strlit("ACK");
        assert("ACK"@ =~= ack_word());
    }
    same_text(s.as_str(), "ACK")
}

/// The text of a size announcement, where it can be decoded.
fn try_size_text(buf: &Vec<u8>) -> (r: Option<String>)
    ensures
        r is Some <==> size_reply_decodable(buf@),
        r matches Some(s) ==> s@ == size_text(buf@),
{
    try_decode_message_size(buf.as_slice())
}

// ---------------------------------------------------------------------------
// Listing the remote directory

/// Where a listing request stands.
pub enum ListStage {
    /// The size was sent; its acknowledgement is awaited.
    AwaitAck,
    /// The request was sent; the size of the listing is awaited.
    AwaitSize,
    /// The listing is being received.
    Receiving(TextReceiver),
    /// The exchange is over.
    Over,
}

/// The abstract value of a listing request's stage.
pub enum ListStageView {
    AwaitAck,
    AwaitSize,
    Receiving((int, Seq<char>)),
    Over,
}

/// A request for the remote listing: the client sends the size of its
/// request, reads the acknowledgement, sends the request, reads the size of
/// the listing, acknowledges it and receives the listing, which is the
/// outcome.
pub struct ListExchange {
    stage: ListStage,
    message_frame: Vec<u8>,
}

/// The abstract state of a listing request.
pub struct ListView {
    pub stage: ListStageView,
    pub message_frame: Seq<u8>,
}

impl View for ListExchange {
    type V = ListView;

    closed spec fn view(&self) -> ListView {
        ListView {
            stage: match self.stage {
                ListStage::AwaitAck => ListStageView::AwaitAck,
                ListStage::AwaitSize => ListStageView::AwaitSize,
                ListStage::Receiving(rx) => ListStageView::Receiving(rx@),
                ListStage::Over => ListStageView::Over,
            },
            message_frame: self.message_frame@,
        }
    }
}

/// How a listing request for `command` begins: a request outside ASCII ends
/// it with the encoder's error; any other is announced by its size frame
/// before the acknowledgement is read.
pub open spec fn list_start(command: &str) -> (ListView, Seq<ActionView>) {
    if is_ascii(command) {
        (
            ListView { stage: ListStageView::AwaitAck, message_frame: frame(command@) },
            seq![
                ActionView::Send(size_frame(command.spec_bytes().len())),
                ActionView::Read(fresh_buffer()),
            ],
        )
    } else {
        (
            ListView { stage: ListStageView::Over, message_frame: Seq::empty() },
            seq![ActionView::Finish(Err(unrepresentable()))],
        )
    }
}

/// After a read of the listing: the listing is the outcome once the
/// announced size has arrived; otherwise the next read goes into the same
/// buffer.
pub open spec fn list_continue(st: ListView, rx: (int, Seq<char>), buf: Seq<u8>) -> (
    ListView,
    Seq<ActionView>,
) {
    if rx.0 == 0 {
        (
            ListView { stage: ListStageView::Over, ..st },
            seq![ActionView::Finish(Ok(rx.1))],
        )
    } else {
        (ListView { stage: ListStageView::Receiving(rx), ..st }, seq![ActionView::Read(buf)])
    }
}

/// How a listing request takes a read. The acknowledgement must be readable
/// (its text is not used); the announced size must be readable and, after the
/// acknowledgement frame is sent, a number; the listing is then received
/// read by read, a failed read there being retried.
pub open spec fn list_next(st: ListView, buf: Seq<u8>, read: Option<usize>) -> (
    ListView,
    Seq<ActionView>,
) {
    let over = ListView { stage: ListStageView::Over, ..st };
    match st.stage {
        ListStageView::Receiving(rx) => if !text_read_ok(rx.0, buf, read) {
            (over, seq![ActionView::Abort(Fault::ChunkUnreadable)])
        } else {
            let next = text_step(rx.0, rx.1, buf, read);
            list_continue(st, next, buf)
        },
        ListStageView::AwaitAck => if read is None {
            (over, seq![ActionView::Abort(Fault::ReadFailed)])
        } else if !ack_reply_decodable(buf) {
            (over, seq![ActionView::Abort(Fault::AckUnreadable)])
        } else {
            (
                ListView { stage: ListStageView::AwaitSize, ..st },
                seq![ActionView::Send(st.message_frame), ActionView::Read(fresh_buffer())],
            )
        },
        _ => if read is None {
            (over, seq![ActionView::Abort(Fault::ReadFailed)])
        } else if !size_reply_decodable(buf) {
            (over, seq![ActionView::Abort(Fault::SizeUnreadable)])
        } else {
            match parse_i32(size_text(buf)) {
                None => (
                    over,
                    seq![ActionView::Send(ack_frame()), ActionView::Abort(Fault::SizeNotNumber)],
                ),
                Some(size) => {
                    let next = list_continue(st, (size as int, Seq::empty()), fresh_buffer());
                    (next.0, seq![ActionView::Send(ack_frame())] + next.1)
                },
            }
        },
    }
}

impl ListExchange {
    /// Starts the listing request that `command` makes.
    pub fn start(command: &str) -> (r: (ListExchange, Vec<Action>))
        requires
            command.spec_bytes().len() < usize::MAX,
        ensures
            (r.0@, action_views(r.1@)) == list_start(command),
    {
        let mut actions: Vec<Action> = Vec::new();
        let size_bytes = encode_message_size(command).unwrap();
        match encode_message(command) {
            Ok(command_bytes) => {
                actions.push(Action::Send(size_bytes));
                actions.push(Action::Read(fresh_buffer_exec()));
                assert(action_views(actions@) =~= list_start(command).1);
                (ListExchange { stage: ListStage::AwaitAck, message_frame: command_bytes }, actions)
            },
            Err(e) => {
                actions.push(Action::Finish(Err(e)));
                assert(action_views(actions@) =~= list_start(command).1);
                (ListExchange { stage: ListStage::Over, message_frame: Vec::new() }, actions)
            },
        }
    }

    /// Whether the exchange is over.
    pub fn is_over(&self) -> (r: bool)
        ensures
            r <==> self@.stage is Over,
    {
        match self.stage {
            ListStage::Over => true,
            _ => false,
        }
    }

    /// Ends the stage of receiving with `rx` after a read into `buf`.
    fn continue_receiving(&mut self, rx: TextReceiver, buf: Vec<u8>, actions: &mut Vec<Action>)
        ensures
            final(self)@ == list_continue(old(self)@, rx@, buf@).0,
            action_views(final(actions)@) == action_views(old(actions)@) + list_continue(
                old(self)@,
                rx@,
                buf@,
            ).1,
            final(self).message_frame@ == old(self).message_frame@,
    {
        let ghost before = actions@;
        if rx.is_done() {
            self.stage = ListStage::Over;
            actions.push(Action::Finish(Ok(rx.into_text())));
        } else {
            self.stage = ListStage::Receiving(rx);
            actions.push(Action::Read(buf));
        }
        assert(action_views(actions@) =~= action_views(before) + list_continue(
            old(self)@,
            rx@,
            buf@,
        ).1);
    }

    /// Takes back the buffer of the read last asked for and its result
    /// (`None` for a failed read).
    #[verifier::spinoff_prover]
    #[verifier::rlimit(40)]
    pub fn on_read(&mut self, buf: Vec<u8>, read: Option<usize>) -> (r: Vec<Action>)
        requires
            !(old(self)@.stage is Over),
            buf@.len() == BUFFER_SIZE,
            read matches Some(n) ==> n <= buf@.len(),
        ensures
            (final(self)@, action_views(r@)) == list_next(old(self)@, buf@, read),
    {
        let mut actions: Vec<Action> = Vec::new();
        let mut stage = ListStage::Over;
        std::mem::swap(&mut stage, &mut self.stage);
        match stage {
            ListStage::Receiving(mut rx) => {
                if !text_read_acceptable(&rx, &buf, read) {
                    actions.push(Action::Abort(Fault::ChunkUnreadable));
                } else {
                    rx.on_read(buf.as_slice(), read);
                    self.continue_receiving(rx, buf, &mut actions);
                }
            },
            ListStage::AwaitAck => {
                if read.is_none() {
                    actions.push(Action::Abort(Fault::ReadFailed));
                } else if !ack_buffer_ok(&buf) {
                    actions.push(Action::Abort(Fault::AckUnreadable));
                } else {
                    actions.push(Action::Send(copy_bytes(&self.message_frame)));
                    actions.push(Action::Read(fresh_buffer_exec()));
                    self.stage = ListStage::AwaitSize;
                }
            },
            _ => {
                if read.is_none() {
                    actions.push(Action::Abort(Fault::ReadFailed));
                } else {
                    match try_size_text(&buf) {
                        None => {
                            actions.push(Action::Abort(Fault::SizeUnreadable));
                        },
                        Some(msg_len_str) => {
                            actions.push(Action::Send(ack_frame_exec()));
                            match TextReceiver::start(msg_len_str.as_str()) {
                                None => {
                                    actions.push(Action::Abort(Fault::SizeNotNumber));
                                },
                                Some(rx) => {
                                    self.continue_receiving(rx, fresh_buffer_exec(), &mut actions);
                                },
                            }
                        },
                    }
                }
            },
        }
        assert(action_views(actions@) =~= list_next(old(self)@, buf@, read).1);
        actions
    }
}

/// Whether a text transfer can take this read.
fn text_read_acceptable(rx: &TextReceiver, buf: &Vec<u8>, read: Option<usize>) -> (r: bool)
    requires
        read matches Some(n) ==> n <= buf@.len(),
    ensures
        r == text_read_ok(rx@.0, buf@, read),
{
    match read {
        None => true,
        Some(n) => {
            if n > BUFFER_SIZE {
                return false;
            }
            let rem = rx.remaining();
            if (rem as i64) - (n as i64) < i32::MIN as i64 {
                return false;
            }
            match str_from_utf8(buf.as_slice()) {
                None => false,
                Some(s) => rem >= BUFFER_SIZE as i32 || s.is_char_boundary(n),
            }
        },
    }
}

/// A listing request's state and actions after a run of reads, from `st`;
/// reads after the end are not taken.
pub open spec fn list_run(st: ListView, reads: Seq<ReadOutcome>) -> (ListView, Seq<ActionView>)
    decreases reads.len(),
{
    if reads.len() == 0 || st.stage is Over {
        (st, Seq::empty())
    } else {
        let first = list_next(st, reads[0].0, reads[0].1);
        let rest = list_run(first.0, reads.drop_first());
        (rest.0, first.1 + rest.1)
    }
}

// ---------------------------------------------------------------------------
// Downloading a file

/// Where a download stands.
pub enum GetStage {
    /// The size was sent; its acknowledgement is awaited.
    AwaitAck,
    /// The request was sent; the size of the answer is awaited.
    AwaitSize,
    /// The answer is being received.
    Reply(TextReceiver),
    /// The file was found; its size is awaited.
    AwaitFileSize,
    /// The file is being received.
    File(FileReceiver),
    /// The exchange is over.
    Over,
}

/// The abstract value of a download's stage.
pub enum GetStageView {
    AwaitAck,
    AwaitSize,
    Reply((int, Seq<char>)),
    AwaitFileSize,
    File(int),
    Over,
}

/// A download: the client sends the size of its request, reads the
/// acknowledgement, sends the request, reads the size of the answer,
/// acknowledges it and receives the answer. Where the answer is `file found`,
/// it acknowledges again, reads the size of the file, acknowledges it,
/// creates the file in the shared directory and writes the content to it as
/// it arrives. The outcome is always the same default response.
pub struct GetExchange {
    stage: GetStage,
    file_name: String,
    message_frame: Vec<u8>,
}

/// The abstract state of a download: the stage, the name of the file and the
/// request frame still to be sent.
pub struct GetView {
    pub stage: GetStageView,
    pub file_name: Seq<char>,
    pub message_frame: Seq<u8>,
}

impl View for GetExchange {
    type V = GetView;

    closed spec fn view(&self) -> GetView {
        GetView {
            stage: match self.stage {
                GetStage::AwaitAck => GetStageView::AwaitAck,
                GetStage::AwaitSize => GetStageView::AwaitSize,
                GetStage::Reply(rx) => GetStageView::Reply(rx@),
                GetStage::AwaitFileSize => GetStageView::AwaitFileSize,
                GetStage::File(fx) => GetStageView::File(fx@),
                GetStage::Over => GetStageView::Over,
            },
            file_name: self.file_name@,
            message_frame: self.message_frame@,
        }
    }
}

/// The outcome of every download that is not given up.
pub open spec fn get_response() -> Seq<char> {
    "get_file default response"@
}

/// How a download for `command` begins: the name is what follows `get `, and
/// the download is reported; a request outside ASCII is given up, any other is
/// announced by its size frame before the acknowledgement is read.
pub open spec fn get_start(command: &str) -> (GetView, Seq<ActionView>) {
    if !is_char_boundary(command.spec_bytes(), 4) {
        (
            GetView { stage: GetStageView::Over, file_name: Seq::empty(), message_frame: Seq::empty() },
            seq![ActionView::Abort(Fault::BadCommand)],
        )
    } else {
        let name = requested_name(command);
        let report = ActionView::Notify(NoticeView::AttemptingGet(name));
        if !is_ascii(command) {
            (
                GetView { stage: GetStageView::Over, file_name: name, message_frame: Seq::empty() },
                seq![report, ActionView::Abort(Fault::CommandNotAscii)],
            )
        } else {
            (
                GetView {
                    stage: GetStageView::AwaitAck,
                    file_name: name,
                    message_frame: frame(command@),
                },
                seq![
                    report,
                    ActionView::Send(size_frame(command.spec_bytes().len())),
                    ActionView::Read(fresh_buffer()),
                ],
            )
        }
    }
}

/// After a read of the answer: while bytes are awaited the next read goes
/// into the same buffer. Once the answer is complete its text up to the last
/// carriage return decides: `file not found` and unknown answers end the
/// download; `file found` starts receiving the file.
pub open spec fn get_reply_continue(st: GetView, rx: (int, Seq<char>), buf: Seq<u8>) -> (
    GetView,
    Seq<ActionView>,
) {
    let over = GetView { stage: GetStageView::Over, ..st };
    if rx.0 != 0 {
        (GetView { stage: GetStageView::Reply(rx), ..st }, seq![ActionView::Read(buf)])
    } else if !rx.1.contains('\r') {
        (over, seq![ActionView::Abort(Fault::MessageUnterminated)])
    } else {
        match get_reply_of(before_last(rx.1, '\r')) {
            GetReply::NotFound => (
                over,
                seq![
                    ActionView::Notify(NoticeView::FileNotFound),
                    ActionView::Finish(Ok(get_response())),
                ],
            ),
            GetReply::Unrecognized => (
                over,
                seq![
                    ActionView::Notify(NoticeView::ReplyUnrecognized),
                    ActionView::Finish(Ok(get_response())),
                ],
            ),
            GetReply::Found => (
                GetView { stage: GetStageView::AwaitFileSize, ..st },
                seq![
                    ActionView::Notify(NoticeView::FileFound),
                    ActionView::Notify(NoticeView::ReceivingFile(st.file_name)),
                    ActionView::Send(ack_frame()),
                    ActionView::Read(fresh_buffer()),
                ],
            ),
        }
    }
}

/// After a read of the file: the download ends once nothing more is
/// awaited; otherwise the next read goes into the same buffer.
pub open spec fn get_file_continue(st: GetView, remaining: int, buf: Seq<u8>) -> (
    GetView,
    Seq<ActionView>,
) {
    if remaining == 0 {
        (
            GetView { stage: GetStageView::Over, ..st },
            seq![ActionView::Finish(Ok(get_response()))],
        )
    } else {
        (GetView { stage: GetStageView::File(remaining), ..st }, seq![ActionView::Read(buf)])
    }
}

/// How a download takes a read.
pub open spec fn get_next(st: GetView, buf: Seq<u8>, read: Option<usize>) -> (
    GetView,
    Seq<ActionView>,
) {
    let over = GetView { stage: GetStageView::Over, ..st };
    match st.stage {
        GetStageView::Reply(rx) => if !text_read_ok(rx.0, buf, read) {
            (over, seq![ActionView::Abort(Fault::ChunkUnreadable)])
        } else {
            let report = match read {
                Some(n) => seq![ActionView::Notify(NoticeView::WroteBytes(n as nat))],
                None => Seq::empty(),
            };
            let next = get_reply_continue(st, text_step(rx.0, rx.1, buf, read), buf);
            (next.0, report + next.1)
        },
        GetStageView::File(rem) => match read {
            None => (st, seq![ActionView::Read(buf)]),
            Some(n) => if !file_read_ok(rem, read) {
                (over, seq![ActionView::Abort(Fault::FileSizeNegative)])
            } else {
                let step = file_step(rem, read);
                let report = if rem >= BUFFER_SIZE {
                    NoticeView::WroteToFile(n as nat)
                } else {
                    NoticeView::WroteToFileSmall(rem)
                };
                let next = get_file_continue(st, step.0, buf);
                (
                    next.0,
                    seq![
                        ActionView::WriteFile(buf.take(step.1->Some_0)),
                        ActionView::Notify(report),
                    ] + next.1,
                )
            },
        },
        GetStageView::AwaitAck => if read is None {
            (over, seq![ActionView::Abort(Fault::ReadFailed)])
        } else if !ack_reply_decodable(buf) {
            (over, seq![ActionView::Abort(Fault::AckUnreadable)])
        } else {
            let report = if reply_text(buf) != ack_word() {
                seq![ActionView::Notify(NoticeView::GetAckFailed)]
            } else {
                Seq::empty()
            };
            (
                GetView { stage: GetStageView::AwaitSize, ..st },
                report + seq![ActionView::Send(st.message_frame), ActionView::Read(buf)],
            )
        },
        GetStageView::AwaitSize => if read is None {
            (over, seq![ActionView::Abort(Fault::ReadFailed)])
        } else if !size_reply_decodable(buf) {
            (over, seq![ActionView::Abort(Fault::SizeUnreadable)])
        } else {
            match parse_i32(size_text(buf)) {
                None => (
                    over,
                    seq![ActionView::Send(ack_frame()), ActionView::Abort(Fault::SizeNotNumber)],
                ),
                Some(size) => {
                    let next = get_reply_continue(st, (size as int, Seq::empty()), fresh_buffer());
                    (next.0, seq![ActionView::Send(ack_frame())] + next.1)
                },
            }
        },
        _ => if read is None {
            (over, seq![ActionView::Abort(Fault::ReadFailed)])
        } else if !size_reply_decodable(buf) {
            (over, seq![ActionView::Abort(Fault::SizeUnreadable)])
        } else {
            let prefix = seq![
                ActionView::Notify(NoticeView::AnnouncedSize(size_text(buf))),
                ActionView::Send(ack_frame()),
                ActionView::CreateFile(shared_dir() + st.file_name),
            ];
            match parse_i32(size_text(buf)) {
                None => (over, prefix + seq![ActionView::Abort(Fault::SizeNotNumber)]),
                Some(size) => {
                    let next = get_file_continue(st, size as int, buf);
                    (next.0, prefix + next.1)
                },
            }
        },
    }
}

/// A download's state and actions after a run of reads, from `st`; reads
/// after the end are not taken.
pub open spec fn get_run(st: GetView, reads: Seq<ReadOutcome>) -> (GetView, Seq<ActionView>)
    decreases reads.len(),
{
    if reads.len() == 0 || st.stage is Over {
        (st, Seq::empty())
    } else {
        let first = get_next(st, reads[0].0, reads[0].1);
        let rest = get_run(first.0, reads.drop_first());
        (rest.0, first.1 + rest.1)
    }
}

/// The bytes that a run of actions writes to the file, in order.
pub open spec fn written_bytes(actions: Seq<ActionView>) -> Seq<u8>
    decreases actions.len(),
{
    if actions.len() == 0 {
        Seq::empty()
    } else {
        let first = match actions[0] {
            ActionView::WriteFile(b) => b,
            _ => Seq::empty(),
        };
        first + written_bytes(actions.drop_first())
    }
}

/// The default response.
fn get_response_exec() -> (r: String)
    ensures
        r@ == get_response(),
{
    String::from_str("get_file default response")
}

/// Whether a text holds a carriage return.
fn holds_cr(s: &String) -> (r: bool)
    ensures
        r == s@.contains('\r'),
{
    let chars = chars_vec(s.as_str());
    find_last(&chars, '\r').is_some()
}

impl GetExchange {
    /// Starts the download that `command` asks for.
    pub fn start(command: &str) -> (r: (GetExchange, Vec<Action>))
        requires
            command.spec_bytes().len() < usize::MAX,
        ensures
            (r.0@, action_views(r.1@)) == get_start(command),
    {
        let mut actions: Vec<Action> = Vec::new();
        if !command.is_char_boundary(4) {
            actions.push(Action::Abort(Fault::BadCommand));
            assert(action_views(actions@) =~= get_start(command).1);
            return (
                GetExchange { stage: GetStage::Over, file_name: String::new(), message_frame: Vec::new() },
                actions,
            );
        }
        let file_name = requested_file_name(command);
        actions.push(Action::Notify(Notice::AttemptingGet(file_name.clone())));
        let size_bytes = encode_message_size(command).unwrap();
        match encode_message(command) {
            Ok(command_bytes) => {
                actions.push(Action::Send(size_bytes));
                actions.push(Action::Read(fresh_buffer_exec()));
                assert(action_views(actions@) =~= get_start(command).1);
                (
                    GetExchange { stage: GetStage::AwaitAck, file_name, message_frame: command_bytes },
                    actions,
                )
            },
            Err(_) => {
                actions.push(Action::Abort(Fault::CommandNotAscii));
                assert(action_views(actions@) =~= get_start(command).1);
                (GetExchange { stage: GetStage::Over, file_name, message_frame: Vec::new() }, actions)
            },
        }
    }

    /// Whether the exchange is over.
    pub fn is_over(&self) -> (r: bool)
        ensures
            r <==> self@.stage is Over,
    {
        match self.stage {
            GetStage::Over => true,
            _ => false,
        }
    }

    /// Goes on after a read of the answer, `rx` holding what was received.
    fn continue_reply(&mut self, rx: TextReceiver, buf: Vec<u8>, actions: &mut Vec<Action>)
        ensures
            final(self)@ == get_reply_continue(old(self)@, rx@, buf@).0,
            action_views(final(actions)@) == action_views(old(actions)@) + get_reply_continue(
                old(self)@,
                rx@,
                buf@,
            ).1,
    {
        let ghost before = actions@;
        if !rx.is_done() {
            self.stage = GetStage::Reply(rx);
            actions.push(Action::Read(buf));
        } else {
            self.stage = GetStage::Over;
            let text_str = rx.into_text();
            if !holds_cr(&text_str) {
                actions.push(Action::Abort(Fault::MessageUnterminated));
            } else {
                let msg = text_before_last(text_str.as_str(), '\r');
                match classify_get_reply(msg.as_str()) {
                    GetReply::NotFound => {
                        actions.push(Action::Notify(Notice::FileNotFound));
                        actions.push(Action::Finish(Ok(get_response_exec())));
                    },
                    GetReply::Unrecognized => {
                        actions.push(Action::Notify(Notice::ReplyUnrecognized));
                        actions.push(Action::Finish(Ok(get_response_exec())));
                    },
                    GetReply::Found => {
                        actions.push(Action::Notify(Notice::FileFound));
                        actions.push(Action::Notify(Notice::ReceivingFile(self.file_name.clone())));
                        actions.push(Action::Send(ack_frame_exec()));
                        actions.push(Action::Read(fresh_buffer_exec()));
                        self.stage = GetStage::AwaitFileSize;
                    },
                }
            }
        }
        assert(action_views(actions@) =~= action_views(before) + get_reply_continue(
            old(self)@,
            rx@,
            buf@,
        ).1);
    }

    /// Goes on after a read of the file, `fx` holding what is still awaited.
    fn continue_file(&mut self, fx: FileReceiver, buf: Vec<u8>, actions: &mut Vec<Action>)
        ensures
            final(self)@ == get_file_continue(old(self)@, fx@, buf@).0,
            action_views(final(actions)@) == action_views(old(actions)@) + get_file_continue(
                old(self)@,
                fx@,
                buf@,
            ).1,
    {
        let ghost before = actions@;
        if fx.is_done() {
            self.stage = GetStage::Over;
            actions.push(Action::Finish(Ok(get_response_exec())));
        } else {
            self.stage = GetStage::File(fx);
            actions.push(Action::Read(buf));
        }
        assert(action_views(actions@) =~= action_views(before) + get_file_continue(
            old(self)@,
            fx@,
            buf@,
        ).1);
    }

    /// Takes back the buffer of the read last asked for and its result
    /// (`None` for a failed read).
    #[verifier::spinoff_prover]
    #[verifier::rlimit(40)]
    pub fn on_read(&mut self, buf: Vec<u8>, read: Option<usize>) -> (r: Vec<Action>)
        requires
            !(old(self)@.stage is Over),
            buf@.len() == BUFFER_SIZE,
            read matches Some(n) ==> n <= buf@.len(),
        ensures
            (final(self)@, action_views(r@)) == get_next(old(self)@, buf@, read),
    {
        let mut actions: Vec<Action> = Vec::new();
        let mut stage = GetStage::Over;
        std::mem::swap(&mut stage, &mut self.stage);
        match stage {
            GetStage::Reply(mut rx) => {
                if !text_read_acceptable(&rx, &buf, read) {
                    actions.push(Action::Abort(Fault::ChunkUnreadable));
                } else {
                    rx.on_read(buf.as_slice(), read);
                    match read {
                        Some(n) => actions.push(Action::Notify(Notice::WroteBytes(n))),
                        None => {},
                    }
                    self.continue_reply(rx, buf, &mut actions);
                }
            },
            GetStage::File(mut fx) => {
                match read {
                    None => {
                        self.stage = GetStage::File(fx);
                        actions.push(Action::Read(buf));
                    },
                    Some(n) => {
                        let rem = fx.remaining();
                        if rem < 0 {
                            actions.push(Action::Abort(Fault::FileSizeNegative));
                        } else {
                            let written = fx.on_read(buf.as_slice(), read);
                            match written {
                                Some(bytes) => actions.push(Action::WriteFile(bytes)),
                                None => {},
                            }
                            if rem >= BUFFER_SIZE as i32 {
                                actions.push(Action::Notify(Notice::WroteToFile(n)));
                            } else {
                                actions.push(Action::Notify(Notice::WroteToFileSmall(rem)));
                            }
                            self.continue_file(fx, buf, &mut actions);
                        }
                    },
                }
            },
            GetStage::AwaitAck => {
                if read.is_none() {
                    actions.push(Action::Abort(Fault::ReadFailed));
                } else if !ack_buffer_ok(&buf) {
                    actions.push(Action::Abort(Fault::AckUnreadable));
                } else {
                    let verdict = check_ack(buf.as_slice());
                    if !is_ack_word(&verdict) {
                        actions.push(Action::Notify(Notice::GetAckFailed));
                    }
                    actions.push(Action::Send(copy_bytes(&self.message_frame)));
                    actions.push(Action::Read(buf));
                    self.stage = GetStage::AwaitSize;
                }
            },
            GetStage::AwaitSize => {
                if read.is_none() {
                    actions.push(Action::Abort(Fault::ReadFailed));
                } else {
                    match try_size_text(&buf) {
                        None => {
                            actions.push(Action::Abort(Fault::SizeUnreadable));
                        },
                        Some(msg_len_str) => {
                            actions.push(Action::Send(ack_frame_exec()));
                            match TextReceiver::start(msg_len_str.as_str()) {
                                None => {
                                    actions.push(Action::Abort(Fault::SizeNotNumber));
                                },
                                Some(rx) => {
                                    self.continue_reply(rx, fresh_buffer_exec(), &mut actions);
                                },
                            }
                        },
                    }
                }
            },
            _ => {
                if read.is_none() {
                    actions.push(Action::Abort(Fault::ReadFailed));
                } else {
                    match try_size_text(&buf) {
                        None => {
                            actions.push(Action::Abort(Fault::SizeUnreadable));
                        },
                        Some(msg_len_str) => {
                            actions.push(Action::Notify(Notice::AnnouncedSize(msg_len_str.clone())));
                            actions.push(Action::Send(ack_frame_exec()));
                            actions.push(Action::CreateFile(shared_path(self.file_name.as_str())));
                            match FileReceiver::start(msg_len_str.as_str()) {
                                None => {
                                    actions.push(Action::Abort(Fault::SizeNotNumber));
                                },
                                Some(fx) => {
                                    self.continue_file(fx, buf, &mut actions);
                                },
                            }
                        },
                    }
                }
            },
        }
        assert(action_views(actions@) =~= get_next(old(self)@, buf@, read).1);
        actions
    }
}

} // verus!
