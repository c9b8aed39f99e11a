//! Properties that relate several of the library's operations: what one side
//! of the protocol produces, the other side reads back.

use vstd::prelude::*;
use vstd::string::*;
use vstd::utf8::*;
use crate::frame::{ascii_bytes, decimal, frame, lemma_decimal_digits, size_frame};
use crate::reply::{
    ack_reply_decodable, ack_word, reply_text, size_prefix_len, size_reply_decodable, size_text,
};
use crate::exchange::ack_frame;
use crate::text::{
    ascii_chars, ascii_only, before_last, is_last_index, is_numeric, lemma_ascii_utf8,
    lemma_last_index_unique, lemma_numeric_count_concat, numeric_count,
};
use crate::paths::{local_name, local_name_ok, occurs_at, remove_all, shared_dir, shared_root};
use crate::transfer::{
    all_digits, digits_value, file_reads_ok, file_run, full_reads, parse_i32, text_read_ok,
    text_reads_ok, text_run, text_step, zeros, ReadOutcome, BUFFER_SIZE,
};

verus! {

/// Reading the decimal representation of a number gives the number back.
proof fn lemma_decimal_value(n: nat)
    ensures
        digits_value(decimal(n)) == n,
        all_digits(decimal(n)),
    decreases n,
{
    lemma_decimal_digits(n);
    let c = crate::frame::digit_char(n % 10);
    assert((48 + n % 10) as char as nat == 48 + n % 10);
    assert(c as nat == 48 + n % 10);
    if n >= 10 {
        lemma_decimal_value(n / 10);
        assert(decimal(n).drop_last() =~= decimal(n / 10));
        assert(decimal(n).last() == c);
        assert(n == (n / 10) * 10 + n % 10) by (nonlinear_arith);
        assert(digits_value(decimal(n)) == digits_value(decimal(n / 10)) * 10 + (c as nat - 48) as nat);
    } else {
        assert(decimal(n).drop_last() =~= Seq::<char>::empty());
        assert(digits_value(Seq::<char>::empty()) == 0);
        assert(decimal(n).last() == c);
        assert(digits_value(decimal(n)) == digits_value(decimal(n).drop_last()) * 10 + (c as nat - 48) as nat);
    }
}

/// A character sequence of digits only.
proof fn lemma_numeric_count_digits(s: Seq<char>)
    requires
        all_digits(s),
    ensures
        numeric_count(s) == s.len(),
    decreases s.len(),
{
    if s.len() > 0 {
        assert(all_digits(s.drop_last()));
        assert('0' <= s.last() <= '9');
        lemma_numeric_count_digits(s.drop_last());
    }
}

/// A character sequence of ASCII characters that are not digits.
proof fn lemma_numeric_count_none(s: Seq<char>)
    requires
        forall|i: int| 0 <= i < s.len() ==> (#[trigger] s[i] as u32) < 128 && !('0' <= s[i] <= '9'),
    ensures
        numeric_count(s) == 0,
    decreases s.len(),
{
    if s.len() > 0 {
        assert(!is_numeric(s.last()));
        lemma_numeric_count_none(s.drop_last());
    }
}

/// A frame holding the decimal representation of a number, read back by
/// `decode_message_size` from a buffer in which it is followed by ASCII bytes
/// other than digits, and parsed as the transfers parse it, is that number.
pub proof fn lemma_decimal_frame_reads_back(n: nat, tail: Seq<u8>)
    requires
        n <= i32::MAX,
        ascii_only(tail),
        forall|i: int| 0 <= i < tail.len() ==> !(48 <= #[trigger] tail[i] <= 57),
    ensures
        size_reply_decodable(frame(decimal(n)) + tail),
        size_text(frame(decimal(n)) + tail) == decimal(n),
        parse_i32(size_text(frame(decimal(n)) + tail)) == Some(n as i32),
{
    let d = decimal(n);
    lemma_decimal_value(n);
    let head = ascii_bytes(d).push(13u8);
    let buf = head + tail;
    assert(frame(d) == head);
    assert(ascii_only(buf)) by {
        assert forall|i: int| 0 <= i < buf.len() implies #[trigger] buf[i] < 128 by {
            if i < d.len() {
                assert('0' <= d[i] <= '9');
            } else if i >= head.len() {
                assert(buf[i] == tail[i - head.len()]);
            }
        }
    }
    lemma_ascii_utf8(buf);
    let chars = ascii_chars(buf);
    let tail_chars = ascii_chars(tail);
    assert(chars =~= d + (seq!['\r'] + tail_chars)) by {
        assert forall|i: int| 0 <= i < d.len() implies (d[i] as u32) < 128 by {
            assert('0' <= d[i] <= '9');
        }
    }
    lemma_numeric_count_concat(d, seq!['\r'] + tail_chars);
    lemma_numeric_count_concat(seq!['\r'], tail_chars);
    lemma_numeric_count_digits(d);
    assert(numeric_count(seq!['\r']) == 0) by {
        let cr = seq!['\r'];
        assert(cr.drop_last() =~= Seq::<char>::empty());
        assert(numeric_count(cr.drop_last()) == 0);
        assert(cr.last() == '\r');
        assert(('\r' as u32) == 13);
        assert(!is_numeric('\r'));
    }
    lemma_numeric_count_none(tail_chars);
    assert(size_prefix_len(buf) == d.len());
    let prefix = buf.take(d.len() as int);
    assert(ascii_only(prefix));
    lemma_ascii_utf8(prefix);
    assert(ascii_chars(prefix) =~= d) by {
        assert forall|i: int| 0 <= i < d.len() implies (d[i] as u32) < 128 by {
            assert('0' <= d[i] <= '9');
        }
    }
    assert(size_text(buf) == d);
    assert(d.len() >= 1);
    assert(d[0] != '-' && d[0] != '+');
}

/// Law: the size frame of a request, read back by `decode_message_size` from
/// a buffer in which it is followed by any ASCII bytes other than digits (the
/// zeros of a fresh buffer, say), and parsed as the transfers parse it, is the
/// length of the request's own frame.
pub proof fn law_size_frame_announces_frame_length(cmd: &str, tail: Seq<u8>)
    requires
        is_ascii(cmd),
        cmd@.len() + 1 <= i32::MAX,
        ascii_only(tail),
        forall|i: int| 0 <= i < tail.len() ==> !(48 <= #[trigger] tail[i] <= 57),
    ensures
        size_reply_decodable(size_frame(cmd.spec_bytes().len()) + tail),
        parse_i32(size_text(size_frame(cmd.spec_bytes().len()) + tail)) == Some(
            frame(cmd@).len() as i32,
        ),
{
    broadcast use is_ascii_spec_bytes;

    assert(cmd.spec_bytes().len() == cmd@.len());
    let n = (cmd@.len() + 1) as nat;
    lemma_decimal_frame_reads_back(n, tail);
    assert(frame(cmd@).len() == n);
}

/// Law: the acknowledgement frame the client sends, read by the
/// acknowledgement check from a buffer in which it is followed by ASCII bytes
/// without a carriage return, is accepted as `ACK`.
pub proof fn law_ack_frame_is_accepted(tail: Seq<u8>)
    requires
        ascii_only(tail),
        forall|i: int| 0 <= i < tail.len() ==> #[trigger] tail[i] != 13,
    ensures
        ack_reply_decodable(ack_frame() + tail),
        reply_text(ack_frame() + tail) == ack_word(),
{
    let buf = ack_frame() + tail;
    assert(ack_frame() =~= seq![65u8, 67u8, 75u8, 13u8]);
    assert(ascii_only(buf)) by {
        assert forall|i: int| 0 <= i < buf.len() implies #[trigger] buf[i] < 128 by {
            if i >= 4 {
                assert(buf[i] == tail[i - 4]);
            }
        }
    }
    lemma_ascii_utf8(buf);
    let chars = ascii_chars(buf);
    assert(chars[3] == '\r');
    assert(chars.contains('\r'));
    assert(is_last_index(chars, '\r', 3)) by {
        assert forall|j: int| 3 < j < chars.len() implies chars[j] != '\r' by {
            assert(buf[j] == tail[j - 4]);
        }
    }
    lemma_last_index_unique(chars, '\r', 3);
    assert(before_last(chars, '\r') =~= ack_word());
}

/// The characters of ASCII bytes, part by part.
proof fn lemma_ascii_chars_split(m: Seq<u8>, n: int)
    requires
        0 <= n <= m.len(),
    ensures
        ascii_chars(m) == ascii_chars(m.take(n)) + ascii_chars(m.skip(n)),
{
    assert(ascii_chars(m) =~= ascii_chars(m.take(n)) + ascii_chars(m.skip(n)));
}

/// The first read of a lossless delivery.
pub(crate) proof fn lemma_full_reads_first(m: Seq<u8>, n: int)
    requires
        m.len() > 0,
        n == if m.len() < BUFFER_SIZE {
            m.len() as int
        } else {
            BUFFER_SIZE as int
        },
    ensures
        full_reads(m).len() > 0,
        full_reads(m)[0] == (m.take(n) + zeros((BUFFER_SIZE - n) as nat), Some(
            n as usize,
        )),
        full_reads(m).drop_first() == full_reads(m.skip(n)),
{
    let first = (m.take(n) + zeros((BUFFER_SIZE - n) as nat), Some(n as usize));
    assert(full_reads(m) == seq![first] + full_reads(m.skip(n)));
    assert((seq![first] + full_reads(m.skip(n))).drop_first() =~= full_reads(m.skip(n)));
}

/// The first read of a lossless delivery of ASCII bytes, as a text transfer
/// awaiting exactly those bytes takes it.
pub(crate) proof fn lemma_first_full_read(m: Seq<u8>, text: Seq<char>) -> (n: int)
    requires
        ascii_only(m),
        m.len() > 0,
        m.len() <= i32::MAX,
    ensures
        n == if m.len() < BUFFER_SIZE {
            m.len() as int
        } else {
            BUFFER_SIZE as int
        },
        0 < n <= m.len(),
        full_reads(m).len() > 0,
        full_reads(m)[0].1 == Some(n as usize),
        full_reads(m)[0].0.len() == BUFFER_SIZE,
        full_reads(m).drop_first() == full_reads(m.skip(n)),
        text_read_ok(m.len() as int, full_reads(m)[0].0, full_reads(m)[0].1),
        text_step(m.len() as int, text, full_reads(m)[0].0, full_reads(m)[0].1) == (
            m.len() - n,
            text + ascii_chars(m.take(n)),
        ),
        ascii_chars(m) == ascii_chars(m.take(n)) + ascii_chars(m.skip(n)),
        ascii_only(m.skip(n)),
{
    let n: int = if m.len() < BUFFER_SIZE {
        m.len() as int
    } else {
        BUFFER_SIZE as int
    };
    lemma_full_reads_first(m, n);
    let zeros = zeros((BUFFER_SIZE - n) as nat);
    let buf = m.take(n) + zeros;
    assert(ascii_only(buf)) by {
        assert forall|i: int| 0 <= i < buf.len() implies #[trigger] buf[i] < 128 by {
            if i < n {
                assert(buf[i] == m[i]);
            }
        }
    }
    lemma_ascii_utf8(buf);
    if m.len() >= BUFFER_SIZE {
        assert(buf =~= m.take(n));
    } else {
        assert(buf.take(n) =~= m.take(n));
    }
    assert(ascii_only(m.take(n)));
    lemma_ascii_utf8(m.take(n));
    lemma_ascii_chars_split(m, n);
    assert(ascii_only(m.skip(n)));
    n
}

/// A lossless delivery of ASCII bytes brings the whole text, from any text
/// already received.
proof fn lemma_text_run_full(m: Seq<u8>, text: Seq<char>)
    requires
        ascii_only(m),
        m.len() <= i32::MAX,
    ensures
        text_reads_ok(m.len() as int, text, full_reads(m)),
        text_run(m.len() as int, text, full_reads(m)) == (0int, text + ascii_chars(m)),
    decreases m.len(),
{
    if m.len() == 0 {
        assert(text + ascii_chars(m) =~= text);
    } else {
        let n = lemma_first_full_read(m, text);
        let rest = m.skip(n);
        lemma_text_run_full(rest, text + ascii_chars(m.take(n)));
        assert(text + ascii_chars(m.take(n)) + ascii_chars(rest) =~= text + ascii_chars(m));
    }
}

/// Law: a text transfer whose announced size is the length of what the
/// sender delivers without loss ends exactly when the last byte arrives, and
/// holds exactly the delivered text.
pub proof fn law_text_transfer_delivers_text(m: Seq<u8>)
    requires
        ascii_only(m),
        m.len() <= i32::MAX,
    ensures
        text_reads_ok(m.len() as int, Seq::empty(), full_reads(m)),
        text_run(m.len() as int, Seq::empty(), full_reads(m)) == (0int, ascii_chars(m)),
{
    lemma_text_run_full(m, Seq::empty());
    assert(Seq::<char>::empty() + ascii_chars(m) =~= ascii_chars(m));
}

/// Law: a message framed as the client frames it, delivered without loss
/// under the size that announces it, is received as that same message once
/// the text is cut at its last carriage return.
pub proof fn law_message_round_trip(msg: &str)
    requires
        is_ascii(msg),
        msg@.len() + 1 <= i32::MAX,
    ensures
        text_reads_ok(frame(msg@).len() as int, Seq::empty(), full_reads(frame(msg@))),
        text_run(frame(msg@).len() as int, Seq::empty(), full_reads(frame(msg@))).0 == 0,
        text_run(frame(msg@).len() as int, Seq::empty(), full_reads(frame(msg@))).1.contains('\r'),
        before_last(
            text_run(frame(msg@).len() as int, Seq::empty(), full_reads(frame(msg@))).1,
            '\r',
        ) == msg@,
{
    let m = frame(msg@);
    assert(ascii_only(m)) by {
        assert forall|i: int| 0 <= i < m.len() implies #[trigger] m[i] < 128 by {
            if i < msg@.len() {
                assert(is_ascii_chars(msg@));
                assert((msg@[i] as u32) < 128);
            }
        }
    }
    law_text_transfer_delivers_text(m);
    let chars = ascii_chars(m);
    assert(chars =~= msg@.push('\r')) by {
        assert forall|i: int| 0 <= i < msg@.len() implies chars[i] == msg@[i] by {
            assert(is_ascii_chars(msg@));
            assert((msg@[i] as u32) < 128);
        }
    }
    assert(chars[msg@.len() as int] == '\r');
    assert(is_last_index(chars, '\r', msg@.len() as int));
    lemma_last_index_unique(chars, '\r', msg@.len() as int);
    assert(before_last(chars, '\r') =~= msg@);
}

/// Law: a file transfer whose announced size is the length of what the sender
/// delivers without loss ends exactly when the last byte arrives, and has
/// written exactly the delivered bytes, in order.
pub proof fn law_file_transfer_writes_content(c: Seq<u8>)
    requires
        c.len() <= i32::MAX,
    ensures
        file_reads_ok(c.len() as int, full_reads(c)),
        file_run(c.len() as int, full_reads(c)) == (0int, c),
    decreases c.len(),
{
    if c.len() == 0 {
    } else {
        let n: int = if c.len() < BUFFER_SIZE {
            c.len() as int
        } else {
            BUFFER_SIZE as int
        };
        lemma_full_reads_first(c, n);
        let zeros = zeros((BUFFER_SIZE - n) as nat);
        let buf = c.take(n) + zeros;
        if c.len() >= BUFFER_SIZE {
            assert(buf.take(BUFFER_SIZE as int) =~= c.take(n));
        } else {
            assert(buf.take(c.len() as int) =~= c.take(n));
        }
        law_file_transfer_writes_content(c.skip(n));
        assert(c.take(n) + c.skip(n) =~= c);
    }
}

/// A text in which a pattern never occurs is left as it is.
proof fn lemma_remove_all_absent(s: Seq<char>, pat: Seq<char>)
    requires
        forall|i: int| !occurs_at(s, pat, i),
    ensures
        remove_all(s, pat) == s,
    decreases s.len(),
{
    if s.len() > 0 && pat.len() > 0 {
        let rest = s.skip(1);
        assert forall|i: int| !occurs_at(rest, pat, i) by {
            if occurs_at(rest, pat, i) {
                assert(s.subrange(i + 1, i + 1 + pat.len()) =~= rest.subrange(i, i + pat.len()));
                assert(occurs_at(s, pat, i + 1));
            }
        }
        lemma_remove_all_absent(rest, pat);
        assert(seq![s[0]] + rest =~= s);
    }
}

/// Law: the name under which a downloaded file is listed locally is the name
/// it was downloaded under, as long as that name does not itself hold the
/// shared directory's path.
pub proof fn law_stored_name_round_trip(name: Seq<char>)
    requires
        forall|i: int| !occurs_at(name, shared_root(), i),
    ensures
        local_name_ok(shared_dir() + name),
        local_name(shared_dir() + name) == name,
{
    let pat = shared_root();
    let s = shared_dir() + name;
    assert(occurs_at(s, pat, 0)) by {
        assert(s.subrange(0, pat.len() as int) =~= pat);
    }
    let rest = s.skip(pat.len() as int);
    assert(rest =~= seq!['/'] + name);
    assert(!occurs_at(rest, pat, 0)) by {
        if rest.len() >= pat.len() {
            assert(rest.subrange(0, pat.len() as int)[0] == '/');
        }
    }
    lemma_remove_all_absent(name, pat);
    assert(rest.skip(1) =~= name);
    assert(remove_all(rest, pat) == seq![rest[0]] + remove_all(rest.skip(1), pat));
    assert(remove_all(s, pat) == seq!['/'] + name);
    assert((seq!['/'] + name).drop_first() =~= name);
}

/// A buffer filled with `b` and then zeros.
pub open spec fn padded(b: Seq<u8>) -> Seq<u8> {
    b + zeros((BUFFER_SIZE - b.len()) as nat)
}

/// The zeros that pad a buffer are ASCII bytes that are neither digits nor
/// carriage returns.
pub(crate) proof fn lemma_zeros_plain(k: nat)
    ensures
        ascii_only(zeros(k)),
        forall|i: int| 0 <= i < k ==> !(48 <= #[trigger] zeros(k)[i] <= 57),
        forall|i: int| 0 <= i < k ==> #[trigger] zeros(k)[i] != 13,
{
}

} // verus!
