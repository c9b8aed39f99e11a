//! Laws of the exchanges: what the client does, and ends with, when the
//! server answers as the protocol expects.

use vstd::prelude::*;
use vstd::string::*;
use vstd::utf8::*;
use crate::command::requested_name;
use crate::exchange::{
    ack_frame, fresh_buffer, get_next, get_reply_continue, get_response, get_run, get_start,
    list_next, list_run, list_start, put_next, put_start, written_bytes, ActionView,
    GetStageView, GetView, ListStageView, ListView, NoticeView, PutStage,
};
use crate::frame::{decimal, frame};
use crate::laws::{
    law_ack_frame_is_accepted, lemma_decimal_frame_reads_back, lemma_first_full_read,
    lemma_full_reads_first, lemma_zeros_plain, padded,
};
use crate::listing::listing_entries;
use crate::listing_law::{law_listing_round_trip, plain_entry, render_listing};
use crate::paths::shared_dir;
use crate::reply::{ack_word, size_reply_decodable};
use crate::text::{
    ascii_chars, ascii_only, before_last, is_last_index, lemma_ascii_utf8,
    lemma_last_index_unique,
};
use crate::delivery_law::lemma_first_chunk;
use crate::transfer::{chunks_valid, file_read_ok, file_step, full_reads, zeros, ReadOutcome, BUFFER_SIZE};

verus! {

/// A run over two runs of reads is the second run taken from where the first
/// one left off.
pub proof fn lemma_get_run_concat(st: GetView, a: Seq<ReadOutcome>, b: Seq<ReadOutcome>)
    ensures
        get_run(st, a + b) == (
            get_run(get_run(st, a).0, b).0,
            get_run(st, a).1 + get_run(get_run(st, a).0, b).1,
        ),
    decreases a.len(),
{
    if a.len() == 0 {
        assert(a + b =~= b);
        assert(Seq::<ActionView>::empty() + get_run(st, b).1 =~= get_run(st, b).1);
    } else if st.stage is Over {
        assert(Seq::<ActionView>::empty() + Seq::<ActionView>::empty() =~= Seq::<
            ActionView,
        >::empty());
    } else {
        assert((a + b)[0] == a[0]);
        assert((a + b).drop_first() =~= a.drop_first() + b);
        let first = get_next(st, a[0].0, a[0].1);
        lemma_get_run_concat(first.0, a.drop_first(), b);
        let mid = get_run(first.0, a.drop_first());
        let last = get_run(mid.0, b);
        assert(first.1 + (mid.1 + last.1) =~= (first.1 + mid.1) + last.1);
    }
}

/// The bytes written by two runs of actions.
pub proof fn lemma_written_concat(x: Seq<ActionView>, y: Seq<ActionView>)
    ensures
        written_bytes(x + y) == written_bytes(x) + written_bytes(y),
    decreases x.len(),
{
    if x.len() == 0 {
        assert(x + y =~= y);
        assert(Seq::<u8>::empty() + written_bytes(y) =~= written_bytes(y));
    } else {
        assert((x + y)[0] == x[0]);
        assert((x + y).drop_first() =~= x.drop_first() + y);
        lemma_written_concat(x.drop_first(), y);
        let first = match x[0] {
            ActionView::WriteFile(b) => b,
            _ => Seq::empty(),
        };
        assert(first + (written_bytes(x.drop_first()) + written_bytes(y)) =~= (first
            + written_bytes(x.drop_first())) + written_bytes(y));
    }
}

/// Actions of which none writes.
pub open spec fn writes_nothing(x: Seq<ActionView>) -> bool {
    forall|i: int| 0 <= i < x.len() ==> !(#[trigger] x[i] is WriteFile)
}

/// Actions of which none creates a file.
pub open spec fn creates_nothing(x: Seq<ActionView>) -> bool {
    forall|i: int| 0 <= i < x.len() ==> !(#[trigger] x[i] is CreateFile)
}

/// Actions of which none writes write nothing.
proof fn lemma_written_nothing(x: Seq<ActionView>)
    requires
        writes_nothing(x),
    ensures
        written_bytes(x) == Seq::<u8>::empty(),
    decreases x.len(),
{
    if x.len() > 0 {
        assert(writes_nothing(x.drop_first())) by {
            assert forall|i: int| 0 <= i < x.drop_first().len() implies !(
            #[trigger] x.drop_first()[i] is WriteFile) by {
                assert(x.drop_first()[i] == x[i + 1]);
            }
        }
        lemma_written_nothing(x.drop_first());
        assert(!(x[0] is WriteFile));
    }
}

/// `y` ends `x`.
pub open spec fn ends_with(x: Seq<ActionView>, y: Seq<ActionView>) -> bool {
    y.len() <= x.len() && x.subrange(x.len() - y.len(), x.len() as int) == y
}

/// A download receiving its answer, from what it has received so far, stops
/// taking reads where the whole answer has arrived, in the state the answer
/// decides, without writing anything.
#[verifier::spinoff_prover]
#[verifier::rlimit(40)]
proof fn lemma_get_reply_run(st: GetView, m: Seq<u8>, text: Seq<char>)
    requires
        st.stage == GetStageView::Reply((m.len() as int, text)),
        m.len() > 0,
        ascii_only(m),
        m.len() <= i32::MAX,
    ensures
        get_run(st, full_reads(m)).0 == get_reply_continue(
            st,
            (0int, text + ascii_chars(m)),
            Seq::empty(),
        ).0,
        writes_nothing(get_run(st, full_reads(m)).1),
        creates_nothing(get_run(st, full_reads(m)).1),
        ends_with(
            get_run(st, full_reads(m)).1,
            get_reply_continue(st, (0int, text + ascii_chars(m)), Seq::empty()).1,
        ),
    decreases m.len(),
{
    let n = lemma_first_full_read(m, text);
    let reads = full_reads(m);
    let first = get_next(st, reads[0].0, reads[0].1);
    let rest = get_run(first.0, reads.drop_first());
    assert(get_run(st, reads) == (rest.0, first.1 + rest.1));
    let text2 = text + ascii_chars(m.take(n));
    if n == m.len() {
        assert(m.take(n) =~= m);
        assert(m.skip(n) =~= Seq::<u8>::empty());
        assert(reads.drop_first() =~= Seq::<ReadOutcome>::empty());
        assert(rest == (first.0, Seq::<ActionView>::empty()));
        assert(first.0 == get_reply_continue(st, (0int, text2), Seq::empty()).0);
        assert(first.1 + rest.1 =~= first.1);
        let fin = get_reply_continue(st, (0int, text2), Seq::empty()).1;
        assert(first.1 == seq![ActionView::Notify(NoticeView::WroteBytes(n as nat))] + fin);
        assert(first.1.subrange(first.1.len() - fin.len(), first.1.len() as int) =~= fin);
    } else {
        let st2 = first.0;
        assert(st2.stage == GetStageView::Reply((m.skip(n).len() as int, text2)));
        lemma_get_reply_run(st2, m.skip(n), text2);
        assert(text2 + ascii_chars(m.skip(n)) =~= text + ascii_chars(m));
        let both = first.1 + rest.1;
        let full = text2 + ascii_chars(m.skip(n));
        assert(get_reply_continue(st2, (0int, full), Seq::empty()).1 == get_reply_continue(
            st,
            (0int, full),
            Seq::empty(),
        ).1);
        let fin = get_reply_continue(st, (0int, full), Seq::empty()).1;
        assert(both.subrange(both.len() - fin.len(), both.len() as int) =~= rest.1.subrange(
            rest.1.len() - fin.len(),
            rest.1.len() as int,
        ));
        assert forall|i: int| 0 <= i < both.len() implies !(#[trigger] both[i] is WriteFile) && !(
        both[i] is CreateFile) by {
            if i >= first.1.len() {
                assert(both[i] == rest.1[i - first.1.len()]);
            }
        }
    }
}

/// A download receiving its file writes what a lossless delivery brings and
/// ends with its default response.
#[verifier::spinoff_prover]
#[verifier::rlimit(40)]
proof fn lemma_get_file_run(st: GetView, m: Seq<u8>)
    requires
        st.stage == GetStageView::File(m.len() as int),
        m.len() > 0,
        m.len() <= i32::MAX,
    ensures
        get_run(st, full_reads(m)).0.stage is Over,
        get_run(st, full_reads(m)).1.len() > 0,
        get_run(st, full_reads(m)).1.last() == ActionView::Finish(Ok(get_response())),
        written_bytes(get_run(st, full_reads(m)).1) == m,
    decreases m.len(),
{
    let n: int = if m.len() < BUFFER_SIZE {
        m.len() as int
    } else {
        BUFFER_SIZE as int
    };
    lemma_full_reads_first(m, n);
    let reads = full_reads(m);
    let buf = reads[0].0;
    assert(buf == m.take(n) + zeros((BUFFER_SIZE - n) as nat));
    assert(file_read_ok(m.len() as int, reads[0].1));
    let first = get_next(st, reads[0].0, reads[0].1);
    let rest = get_run(first.0, reads.drop_first());
    assert(get_run(st, reads) == (rest.0, first.1 + rest.1));
    let step = file_step(m.len() as int, reads[0].1);
    assert(buf.take(step.1->Some_0) =~= m.take(n));
    let head = seq![ActionView::WriteFile(m.take(n)), first.1[1]];
    assert(first.1[1] is Notify);
    assert(written_bytes(head) =~= m.take(n)) by {
        assert(head[0] == ActionView::WriteFile(m.take(n)));
        assert(written_bytes(head) == m.take(n) + written_bytes(head.drop_first()));
        assert(writes_nothing(head.drop_first()));
        lemma_written_nothing(head.drop_first());
    }
    if n == m.len() {
        assert(m.take(n) =~= m);
        assert(step.0 == 0);
        assert(reads.drop_first() =~= Seq::<ReadOutcome>::empty());
        assert(rest.1 =~= Seq::<ActionView>::empty());
        assert(first.1 =~= head + seq![ActionView::Finish(Ok(get_response()))]);
        lemma_written_concat(head, seq![ActionView::Finish(Ok(get_response()))]);
        lemma_written_nothing(seq![ActionView::Finish(Ok(get_response()))]);
        assert(first.1 + rest.1 =~= first.1);
        assert(written_bytes(first.1) =~= m);
    } else {
        let st2 = first.0;
        assert(st2.stage == GetStageView::File(m.skip(n).len() as int));
        lemma_get_file_run(st2, m.skip(n));
        assert(first.1 =~= head + seq![ActionView::Read(buf)]);
        lemma_written_concat(head, seq![ActionView::Read(buf)]);
        lemma_written_nothing(seq![ActionView::Read(buf)]);
        lemma_written_concat(first.1, rest.1);
        assert(m.take(n) + Seq::<u8>::empty() + m.skip(n) =~= m);
        assert((first.1 + rest.1).last() == rest.1.last());
    }
}

/// The answer of a server that has the requested file, as a frame.
pub open spec fn found_answer() -> Seq<u8> {
    frame("file found"@)
}

/// The answer frame holds the text `file found` and a carriage return.
proof fn lemma_found_answer()
    ensures
        ascii_only(found_answer()),
        found_answer().len() == 11,
        ascii_chars(found_answer()).contains('\r'),
        before_last(ascii_chars(found_answer()), '\r') == "file found"@,
{
    reveal_strlit("file found");
    let s = "file found"@;
    let m = found_answer();
    assert(s.len() == 10);
    assert(ascii_only(m)) by {
        assert forall|i: int| 0 <= i < m.len() implies #[trigger] m[i] < 128 by {
            if i < 10 {
                assert((s[i] as u32) < 128);
            }
        }
    }
    let chars = ascii_chars(m);
    assert(chars =~= s.push('\r')) by {
        assert forall|i: int| 0 <= i < 10 implies chars[i] == s[i] by {
            assert((s[i] as u32) < 128);
        }
    }
    assert(chars[10] == '\r');
    assert(is_last_index(chars, '\r', 10));
    lemma_last_index_unique(chars, '\r', 10);
    assert(before_last(chars, '\r') =~= s);
}

/// The reads of a server that acknowledges a download request, answers that
/// it has the file and delivers `content` without loss.
pub open spec fn found_file_reads(content: Seq<u8>) -> Seq<ReadOutcome> {
    seq![
        (padded(ack_frame()), Some(4usize)),
        (padded(frame(decimal(11))), Some(3usize)),
    ] + full_reads(found_answer()) + seq![
        (
            padded(frame(decimal(content.len()))),
            Some(frame(decimal(content.len())).len() as usize),
        ),
    ] + full_reads(content)
}

/// Law: a download answered by a server that acknowledges the request,
/// answers that it has the file and delivers the file's content without
/// loss creates the file under the shared directory with the requested name
/// (everything after `get `),
/// writes exactly that content to it and ends with the default response.
#[verifier::spinoff_prover]
#[verifier::rlimit(40)]
pub proof fn law_download_writes_file(command: &str, content: Seq<u8>)
    requires
        is_ascii(command),
        command@.len() >= 4,
        command.spec_bytes().len() < usize::MAX,
        content.len() <= i32::MAX,
        frame(decimal(content.len())).len() <= BUFFER_SIZE,
    ensures
        ({
            let run = get_run(get_start(command).0, found_file_reads(content));
            &&& run.0.stage is Over
            &&& run.1.len() > 0
            &&& run.1.last() == ActionView::Finish(Ok(get_response()))
            &&& written_bytes(run.1) == content
            &&& run.1.contains(ActionView::CreateFile(shared_dir() + requested_name(command)))
            &&& run.1.contains(ActionView::CreateFile(shared_dir() + command@.skip(4)))
        }),
{
    assert(is_ascii_chars(command@.take(4))) by {
        assert forall|i: int| 0 <= i < 4 implies '\0' <= #[trigger] command@.take(4)[i] <= '\u{7f}' by {
            assert(command@.take(4)[i] == command@[i]);
        }
    }
    crate::text::lemma_skip_ascii_prefix(command, 4);
    broadcast use is_ascii_spec_bytes;

    let bytes = command.spec_bytes();
    assert(ascii_only(bytes)) by {
        assert forall|i: int| 0 <= i < bytes.len() implies #[trigger] bytes[i] < 128 by {
            assert((command@[i] as u32) < 128);
        }
    }
    lemma_ascii_utf8(bytes);
    assert(is_char_boundary(bytes, 4));
    let name = requested_name(command);
    let s0 = get_start(command).0;
    assert(s0.stage == GetStageView::AwaitAck && s0.file_name == name);
    lemma_found_answer();
    let answer = found_answer();
    let r0: ReadOutcome = (padded(ack_frame()), Some(4usize));
    let r1: ReadOutcome = (padded(frame(decimal(11))), Some(3usize));
    let r3: ReadOutcome = (
        padded(frame(decimal(content.len()))),
        Some(frame(decimal(content.len())).len() as usize),
    );
    let a = seq![r0, r1];
    let b = full_reads(answer);
    let c = seq![r3];
    let d = full_reads(content);
    // The acknowledgement is accepted and the answer's size is read.
    assert(ack_frame().len() == 4);
    lemma_zeros_plain(4);
    law_ack_frame_is_accepted(crate::transfer::zeros(4));
    let step0 = get_next(s0, r0.0, r0.1);
    assert(step0.0.stage == GetStageView::AwaitSize);
    assert(frame(decimal(11)).len() == 3) by {
        assert(decimal(11).len() == 2) by {
            assert(decimal(1).len() == 1);
        }
    }
    lemma_zeros_plain(5);
    lemma_decimal_frame_reads_back(11, crate::transfer::zeros(5));
    let step1 = get_next(step0.0, r1.0, r1.1);
    let s2 = step1.0;
    assert(s2.stage == GetStageView::Reply((11int, Seq::empty())));
    assert(a.drop_first() =~= seq![r1]);
    assert(seq![r1].drop_first() =~= Seq::<ReadOutcome>::empty());
    let run_a = get_run(s0, a);
    assert(get_run(s2, Seq::<ReadOutcome>::empty()) == (s2, Seq::<ActionView>::empty()));
    assert(get_run(step0.0, seq![r1]) == (s2, step1.1 + Seq::<ActionView>::empty()));
    assert(step1.1 + Seq::<ActionView>::empty() =~= step1.1);
    assert(run_a == (s2, step0.1 + step1.1));
    assert(writes_nothing(run_a.1));
    // The answer is received and says the file was found.
    lemma_get_reply_run(s2, answer, Seq::empty());
    assert(Seq::<char>::empty() + ascii_chars(answer) =~= ascii_chars(answer));
    let run_b = get_run(s2, b);
    let s3 = run_b.0;
    assert("file found"@ != "file not found"@) by {
        reveal_strlit("file found");
        reveal_strlit("file not found");
    }
    assert(s3.stage == GetStageView::AwaitFileSize && s3.file_name == name);
    // The file's size is read and the file is created.
    let k = (BUFFER_SIZE - frame(decimal(content.len())).len()) as nat;
    lemma_zeros_plain(k);
    lemma_decimal_frame_reads_back(content.len(), crate::transfer::zeros(k));
    let step3 = get_next(s3, r3.0, r3.1);
    let s4 = step3.0;
    let create = ActionView::CreateFile(shared_dir() + name);
    assert(step3.1[2] == create);
    let run_c = get_run(s3, c);
    assert(c.drop_first() =~= Seq::<ReadOutcome>::empty());
    assert(c[0] == r3);
    assert(get_run(s4, Seq::<ReadOutcome>::empty()) == (s4, Seq::<ActionView>::empty()));
    assert(run_c == (s4, step3.1 + Seq::<ActionView>::empty()));
    assert(step3.1 + Seq::<ActionView>::empty() =~= step3.1);
    assert(writes_nothing(run_c.1));
    // The content is received and written.
    let run_d = get_run(s4, d);
    if content.len() == 0 {
        assert(d =~= Seq::<ReadOutcome>::empty());
        assert(s4.stage is Over);
        assert(written_bytes(run_d.1) =~= content);
    } else {
        assert(s4.stage == GetStageView::File(content.len() as int));
        lemma_get_file_run(s4, content);
    }
    // Putting the runs together.
    lemma_get_run_concat(s0, a, b);
    lemma_get_run_concat(s0, a + b, c);
    lemma_get_run_concat(s0, a + b + c, d);
    let all = run_a.1 + run_b.1 + run_c.1 + run_d.1;
    assert(get_run(s0, a + b + c + d) == (run_d.0, all));
    assert(found_file_reads(content) == a + b + c + d);
    lemma_written_nothing(run_a.1);
    lemma_written_nothing(run_b.1);
    lemma_written_nothing(run_c.1);
    lemma_written_concat(run_a.1, run_b.1);
    lemma_written_concat(run_a.1 + run_b.1, run_c.1);
    lemma_written_concat(run_a.1 + run_b.1 + run_c.1, run_d.1);
    assert(Seq::<u8>::empty() + Seq::<u8>::empty() + Seq::<u8>::empty() + written_bytes(run_d.1)
        =~= written_bytes(run_d.1));
    let before_c = run_a.1 + run_b.1;
    assert(all[before_c.len() + 2int] == create);
    if content.len() == 0 {
        assert(run_d.1 =~= Seq::<ActionView>::empty());
        assert(all =~= run_a.1 + run_b.1 + run_c.1);
        assert(all.last() == step3.1.last());
    } else {
        assert(all.last() == run_d.1.last());
    }
}

/// Law: an upload announcement answered by a server that acknowledges it
/// reports the acknowledgement, sends the request, and once the size of the
/// reply arrives ends with the acknowledgement `ACK` as its outcome.
pub proof fn law_upload_announcement_acknowledged(command: &str, size_reply: Seq<u8>, n: usize)
    requires
        is_ascii(command),
        size_reply_decodable(size_reply),
    ensures
        ({
            let s0 = put_start(command).0;
            let first = put_next(s0, padded(ack_frame()), Some(4usize));
            let second = put_next(first.0, size_reply, Some(n));
            &&& first.1 == seq![
                ActionView::Notify(NoticeView::ReceivedAck),
                ActionView::Send(frame(command@)),
                ActionView::Read(fresh_buffer()),
            ]
            &&& second.0.stage == PutStage::Over
            &&& second.1.last() == ActionView::Finish(Ok(ack_word()))
        }),
{
    assert(ack_frame().len() == 4);
    lemma_zeros_plain(4);
    law_ack_frame_is_accepted(crate::transfer::zeros(4));
    let s0 = put_start(command).0;
    let first = put_next(s0, padded(ack_frame()), Some(4usize));
    assert(first.1 =~= seq![
        ActionView::Notify(NoticeView::ReceivedAck),
        ActionView::Send(frame(command@)),
        ActionView::Read(fresh_buffer()),
    ]);
}

/// The answer of a server that does not have the requested file, as a frame.
pub open spec fn not_found_answer() -> Seq<u8> {
    frame("file not found"@)
}

/// The reads of a server that acknowledges a download request and answers
/// that it does not have the file.
pub open spec fn missing_file_reads() -> Seq<ReadOutcome> {
    seq![
        (padded(ack_frame()), Some(4usize)),
        (padded(frame(decimal(15))), Some(3usize)),
    ] + full_reads(not_found_answer())
}

/// Law: a download answered `file not found` reports it, creates and writes
/// no file, and ends with the default response.
#[verifier::spinoff_prover]
#[verifier::rlimit(40)]
pub proof fn law_download_of_missing_file(command: &str)
    requires
        is_ascii(command),
        command@.len() >= 4,
        command.spec_bytes().len() < usize::MAX,
    ensures
        ({
            let run = get_run(get_start(command).0, missing_file_reads());
            &&& run.0.stage is Over
            &&& run.1.len() > 0
            &&& run.1.last() == ActionView::Finish(Ok(get_response()))
            &&& run.1.contains(ActionView::Notify(NoticeView::FileNotFound))
            &&& creates_nothing(run.1)
            &&& written_bytes(run.1) == Seq::<u8>::empty()
        }),
{
    broadcast use is_ascii_spec_bytes;

    let bytes = command.spec_bytes();
    assert(ascii_only(bytes)) by {
        assert forall|i: int| 0 <= i < bytes.len() implies #[trigger] bytes[i] < 128 by {
            assert((command@[i] as u32) < 128);
        }
    }
    lemma_ascii_utf8(bytes);
    assert(is_char_boundary(bytes, 4));
    let s0 = get_start(command).0;
    assert(s0.stage == GetStageView::AwaitAck);
    // The answer frame.
    reveal_strlit("file not found");
    reveal_strlit("file found");
    let text = "file not found"@;
    assert(text.len() == 14);
    let answer = not_found_answer();
    assert(ascii_only(answer)) by {
        assert forall|i: int| 0 <= i < answer.len() implies #[trigger] answer[i] < 128 by {
            if i < 14 {
                assert((text[i] as u32) < 128);
            }
        }
    }
    let chars = ascii_chars(answer);
    assert(chars =~= text.push('\r')) by {
        assert forall|i: int| 0 <= i < 14 implies chars[i] == text[i] by {
            assert((text[i] as u32) < 128);
        }
    }
    assert(chars[14] == '\r');
    assert(is_last_index(chars, '\r', 14));
    lemma_last_index_unique(chars, '\r', 14);
    assert(before_last(chars, '\r') =~= text);
    let r0: ReadOutcome = (padded(ack_frame()), Some(4usize));
    let r1: ReadOutcome = (padded(frame(decimal(15))), Some(3usize));
    let a = seq![r0, r1];
    let b = full_reads(answer);
    // The acknowledgement is accepted and the answer's size is read.
    assert(ack_frame().len() == 4);
    lemma_zeros_plain(4);
    law_ack_frame_is_accepted(crate::transfer::zeros(4));
    let step0 = get_next(s0, r0.0, r0.1);
    assert(frame(decimal(15)).len() == 3) by {
        assert(decimal(15).len() == 2) by {
            assert(decimal(1).len() == 1);
        }
    }
    lemma_zeros_plain(5);
    lemma_decimal_frame_reads_back(15, crate::transfer::zeros(5));
    let step1 = get_next(step0.0, r1.0, r1.1);
    let s2 = step1.0;
    assert(s2.stage == GetStageView::Reply((15int, Seq::empty())));
    assert(a.drop_first() =~= seq![r1]);
    assert(seq![r1].drop_first() =~= Seq::<ReadOutcome>::empty());
    assert(get_run(s2, Seq::<ReadOutcome>::empty()) == (s2, Seq::<ActionView>::empty()));
    assert(get_run(step0.0, seq![r1]) == (s2, step1.1 + Seq::<ActionView>::empty()));
    assert(step1.1 + Seq::<ActionView>::empty() =~= step1.1);
    let run_a = get_run(s0, a);
    assert(run_a == (s2, step0.1 + step1.1));
    assert(creates_nothing(run_a.1));
    // The answer is received.
    lemma_get_reply_run(s2, answer, Seq::empty());
    assert(Seq::<char>::empty() + ascii_chars(answer) =~= ascii_chars(answer));
    let run_b = get_run(s2, b);
    let fin = get_reply_continue(s2, (0int, chars), Seq::empty());
    assert(run_b.0 == fin.0);
    assert(fin.0.stage is Over);
    lemma_get_run_concat(s0, a, b);
    assert(missing_file_reads() == a + b);
    let all = run_a.1 + run_b.1;
    assert(fin.1 == seq![
        ActionView::Notify(NoticeView::FileNotFound),
        ActionView::Finish(Ok(get_response())),
    ]);
    assert(run_b.1[run_b.1.len() - 2] == fin.1[0]) by {
        assert(run_b.1.subrange(run_b.1.len() - 2, run_b.1.len() as int)[0] == fin.1[0]);
    }
    assert(run_b.1.last() == fin.1[1]) by {
        assert(run_b.1.subrange(run_b.1.len() - 2, run_b.1.len() as int)[1] == fin.1[1]);
    }
    assert(all.last() == run_b.1.last());
    assert(all[run_a.1.len() + run_b.1.len() - 2] == ActionView::Notify(NoticeView::FileNotFound));
    assert(get_run(s0, a + b) == (run_b.0, all));
    assert(get_run(s0, a + b).0 == get_run(run_a.0, b).0);
    assert(creates_nothing(all)) by {
        assert forall|i: int| 0 <= i < all.len() implies !(#[trigger] all[i] is CreateFile) by {
            if i >= run_a.1.len() {
                assert(all[i] == run_b.1[i - run_a.1.len()]);
            }
        }
    }
    lemma_written_nothing(run_a.1);
    lemma_written_nothing(run_b.1);
    lemma_written_concat(run_a.1, run_b.1);
    assert(Seq::<u8>::empty() + Seq::<u8>::empty() =~= Seq::<u8>::empty());
}

/// A listing request that receives the listing, from what it has received
/// so far, ends with that text and the rest of a lossless delivery.
#[verifier::spinoff_prover]
#[verifier::rlimit(40)]
proof fn lemma_list_receiving_run(st: ListView, m: Seq<u8>, text: Seq<char>)
    requires
        st.stage == ListStageView::Receiving((m.len() as int, text)),
        m.len() > 0,
        ascii_only(m),
        m.len() <= i32::MAX,
    ensures
        list_run(st, full_reads(m)).0.stage is Over,
        list_run(st, full_reads(m)).1.len() > 0,
        list_run(st, full_reads(m)).1.last() == ActionView::Finish(Ok(text + ascii_chars(m))),
    decreases m.len(),
{
    let n = lemma_first_full_read(m, text);
    let reads = full_reads(m);
    let first = list_next(st, reads[0].0, reads[0].1);
    let rest = list_run(first.0, reads.drop_first());
    assert(list_run(st, reads) == (rest.0, first.1 + rest.1));
    let text2 = text + ascii_chars(m.take(n));
    if n == m.len() {
        assert(m.take(n) =~= m);
        assert(m.skip(n) =~= Seq::<u8>::empty());
        assert(first.0.stage is Over);
        assert(first.1 == seq![ActionView::Finish(Ok(text2))]);
        assert(rest.1 =~= Seq::<ActionView>::empty());
        assert(first.1 + rest.1 =~= first.1);
    } else {
        lemma_list_receiving_run(first.0, m.skip(n), text2);
        assert(text2 + ascii_chars(m.skip(n)) =~= text + ascii_chars(m));
        assert((first.1 + rest.1).last() == rest.1.last());
    }
}

/// Law: a listing request answered by a server that acknowledges the request,
/// announces the length of its listing and delivers the listing without loss
/// ends with the listing the server sent as its outcome.
#[verifier::spinoff_prover]
#[verifier::rlimit(40)]
pub proof fn law_listing_exchange_returns_listing(command: &str, listing: Seq<u8>)
    requires
        is_ascii(command),
        command.spec_bytes().len() < usize::MAX,
        ascii_only(listing),
        listing.len() <= i32::MAX,
        frame(decimal(listing.len())).len() <= BUFFER_SIZE,
    ensures
        ({
            let reads = seq![
                (padded(ack_frame()), Some(4usize)),
                (
                    padded(frame(decimal(listing.len()))),
                    Some(frame(decimal(listing.len())).len() as usize),
                ),
            ] + full_reads(listing);
            let run = list_run(list_start(command).0, reads);
            &&& run.0.stage is Over
            &&& run.1.len() > 0
            &&& run.1.last() == ActionView::Finish(Ok(ascii_chars(listing)))
        }),
{
    let size_frame_bytes = frame(decimal(listing.len()));
    let read0: ReadOutcome = (padded(ack_frame()), Some(4usize));
    let read1: ReadOutcome = (padded(size_frame_bytes), Some(size_frame_bytes.len() as usize));
    let reads = seq![read0, read1] + full_reads(listing);
    let s0 = list_start(command).0;
    assert(s0.stage == ListStageView::AwaitAck);
    // The acknowledgement is readable.
    assert(ack_frame().len() == 4);
    lemma_zeros_plain(4);
    law_ack_frame_is_accepted(zeros(4));
    let step0 = list_next(s0, read0.0, read0.1);
    assert(step0.0.stage == ListStageView::AwaitSize);
    // The announced size is the listing's length.
    let k = (BUFFER_SIZE - size_frame_bytes.len()) as nat;
    lemma_zeros_plain(k);
    lemma_decimal_frame_reads_back(listing.len(), zeros(k));
    let step1 = list_next(step0.0, read1.0, read1.1);
    let tail = full_reads(listing);
    assert(reads.drop_first() =~= seq![read1] + tail);
    assert((seq![read1] + tail).drop_first() =~= tail);
    let run1 = list_run(step1.0, tail);
    assert(list_run(step0.0, seq![read1] + tail) == (run1.0, step1.1 + run1.1));
    assert(list_run(s0, reads) == (run1.0, step0.1 + (step1.1 + run1.1)));
    if listing.len() == 0 {
        assert(ascii_chars(listing) =~= Seq::<char>::empty());
        assert(step1.0.stage is Over);
        assert(tail =~= Seq::<ReadOutcome>::empty());
        assert(run1.1 =~= Seq::<ActionView>::empty());
        assert((step0.1 + (step1.1 + run1.1)).last() == step1.1.last());
    } else {
        assert(step1.0.stage == ListStageView::Receiving((listing.len() as int, Seq::empty())));
        lemma_list_receiving_run(step1.0, listing, Seq::empty());
        assert(Seq::<char>::empty() + ascii_chars(listing) =~= ascii_chars(listing));
        assert((step0.1 + (step1.1 + run1.1)).last() == run1.1.last());
    }
}

/// Law: listing the remote directory of a server that lists its files one
/// plain entry per line, and delivers that listing as the protocol expects,
/// gives back exactly the server's entries, in order.
pub proof fn law_remote_listing_gives_entries(
    command: &str,
    listing: Seq<u8>,
    entries: Seq<(Seq<char>, Seq<char>)>,
)
    requires
        is_ascii(command),
        command.spec_bytes().len() < usize::MAX,
        ascii_only(listing),
        ascii_chars(listing) == render_listing(entries),
        forall|i: int| 0 <= i < entries.len() ==> plain_entry(#[trigger] entries[i]),
        listing.len() <= i32::MAX,
        frame(decimal(listing.len())).len() <= BUFFER_SIZE,
    ensures
        ({
            let reads = seq![
                (padded(ack_frame()), Some(4usize)),
                (
                    padded(frame(decimal(listing.len()))),
                    Some(frame(decimal(listing.len())).len() as usize),
                ),
            ] + full_reads(listing);
            let run = list_run(list_start(command).0, reads);
            &&& run.1.len() > 0
            &&& run.1.last() matches ActionView::Finish(Ok(text))
            &&& listing_entries(text) == entries
        }),
{
    law_listing_exchange_returns_listing(command, listing);
    law_listing_round_trip(entries);
}

/// A listing request that receives the listing, from what it has received
/// so far, ends with that text and the rest of a lossless delivery whose
/// reads each bring valid UTF-8.
#[verifier::spinoff_prover]
#[verifier::rlimit(40)]
proof fn lemma_list_receiving_run_utf8(st: ListView, m: Seq<u8>, text: Seq<char>)
    requires
        st.stage == ListStageView::Receiving((m.len() as int, text)),
        m.len() > 0,
        chunks_valid(m),
        m.len() <= i32::MAX,
    ensures
        list_run(st, full_reads(m)).0.stage is Over,
        list_run(st, full_reads(m)).1.len() > 0,
        list_run(st, full_reads(m)).1.last() == ActionView::Finish(Ok(text + decode_utf8(m))),
    decreases m.len(),
{
    let n = lemma_first_chunk(m, text);
    let reads = full_reads(m);
    let first = list_next(st, reads[0].0, reads[0].1);
    let rest = list_run(first.0, reads.drop_first());
    assert(list_run(st, reads) == (rest.0, first.1 + rest.1));
    let text2 = text + decode_utf8(m.take(n));
    if n == m.len() {
        assert(m.take(n) =~= m);
        assert(m.skip(n) =~= Seq::<u8>::empty());
        assert(decode_utf8(m.skip(n)) =~= Seq::<char>::empty());
        assert(text2 =~= text + decode_utf8(m));
        assert(first.0.stage is Over);
        assert(first.1 == seq![ActionView::Finish(Ok(text2))]);
        assert(rest.1 =~= Seq::<ActionView>::empty());
        assert(first.1 + rest.1 =~= first.1);
    } else {
        lemma_list_receiving_run_utf8(first.0, m.skip(n), text2);
        assert(text2 + decode_utf8(m.skip(n)) =~= text + decode_utf8(m));
        assert((first.1 + rest.1).last() == rest.1.last());
    }
}

/// Law: a listing request answered by a server that acknowledges the request,
/// announces the length of its listing and delivers the listing without loss
/// ends with the listing's text as its outcome, for any listing whose reads
/// each bring valid UTF-8 (names need not be ASCII).
#[verifier::spinoff_prover]
#[verifier::rlimit(40)]
pub proof fn law_listing_exchange_returns_utf8_listing(command: &str, listing: Seq<u8>)
    requires
        is_ascii(command),
        command.spec_bytes().len() < usize::MAX,
        chunks_valid(listing),
        listing.len() <= i32::MAX,
        frame(decimal(listing.len())).len() <= BUFFER_SIZE,
    ensures
        ({
            let reads = seq![
                (padded(ack_frame()), Some(4usize)),
                (
                    padded(frame(decimal(listing.len()))),
                    Some(frame(decimal(listing.len())).len() as usize),
                ),
            ] + full_reads(listing);
            let run = list_run(list_start(command).0, reads);
            &&& run.0.stage is Over
            &&& run.1.len() > 0
            &&& run.1.last() == ActionView::Finish(Ok(decode_utf8(listing)))
        }),
{
    let size_frame_bytes = frame(decimal(listing.len()));
    let read0: ReadOutcome = (padded(ack_frame()), Some(4usize));
    let read1: ReadOutcome = (padded(size_frame_bytes), Some(size_frame_bytes.len() as usize));
    let reads = seq![read0, read1] + full_reads(listing);
    let s0 = list_start(command).0;
    assert(s0.stage == ListStageView::AwaitAck);
    assert(ack_frame().len() == 4);
    lemma_zeros_plain(4);
    law_ack_frame_is_accepted(zeros(4));
    let step0 = list_next(s0, read0.0, read0.1);
    assert(step0.0.stage == ListStageView::AwaitSize);
    let k = (BUFFER_SIZE - size_frame_bytes.len()) as nat;
    lemma_zeros_plain(k);
    lemma_decimal_frame_reads_back(listing.len(), zeros(k));
    let step1 = list_next(step0.0, read1.0, read1.1);
    let tail = full_reads(listing);
    assert(reads.drop_first() =~= seq![read1] + tail);
    assert((seq![read1] + tail).drop_first() =~= tail);
    let run1 = list_run(step1.0, tail);
    assert(list_run(step0.0, seq![read1] + tail) == (run1.0, step1.1 + run1.1));
    assert(list_run(s0, reads) == (run1.0, step0.1 + (step1.1 + run1.1)));
    if listing.len() == 0 {
        assert(decode_utf8(listing) =~= Seq::<char>::empty());
        assert(step1.0.stage is Over);
        assert(tail =~= Seq::<ReadOutcome>::empty());
        assert(run1.1 =~= Seq::<ActionView>::empty());
        assert((step0.1 + (step1.1 + run1.1)).last() == step1.1.last());
    } else {
        assert(step1.0.stage == ListStageView::Receiving((listing.len() as int, Seq::empty())));
        lemma_list_receiving_run_utf8(step1.0, listing, Seq::empty());
        assert(Seq::<char>::empty() + decode_utf8(listing) =~= decode_utf8(listing));
        assert((step0.1 + (step1.1 + run1.1)).last() == run1.1.last());
    }
}

/// Law: listing the remote directory of a server that lists its files one
/// plain entry per line, in UTF-8 delivered read by read in valid pieces,
/// gives back exactly the server's entries, in order.
pub proof fn law_remote_utf8_listing_gives_entries(
    command: &str,
    listing: Seq<u8>,
    entries: Seq<(Seq<char>, Seq<char>)>,
)
    requires
        is_ascii(command),
        command.spec_bytes().len() < usize::MAX,
        chunks_valid(listing),
        decode_utf8(listing) == render_listing(entries),
        forall|i: int| 0 <= i < entries.len() ==> plain_entry(#[trigger] entries[i]),
        listing.len() <= i32::MAX,
        frame(decimal(listing.len())).len() <= BUFFER_SIZE,
    ensures
        ({
            let reads = seq![
                (padded(ack_frame()), Some(4usize)),
                (
                    padded(frame(decimal(listing.len()))),
                    Some(frame(decimal(listing.len())).len() as usize),
                ),
            ] + full_reads(listing);
            let run = list_run(list_start(command).0, reads);
            &&& run.1.len() > 0
            &&& run.1.last() matches ActionView::Finish(Ok(text))
            &&& listing_entries(text) == entries
        }),
{
    law_listing_exchange_returns_utf8_listing(command, listing);
    law_listing_round_trip(entries);
}

} // verus!
