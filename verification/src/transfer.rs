//! The receiving side of a transfer. The server announces a size, then sends
//! the content in reads of at most `BUFFER_SIZE` bytes; these state machines
//! decide, read by read, what is kept and when the transfer is over. The
//! caller performs the reads and hands each result in.

use vstd::prelude::*;
use vstd::utf8::*;
use crate::text::{before_last, byte_prefix, str_from_utf8, text_before_last};

verus! {

/// The size of the buffer every read fills.
pub const BUFFER_SIZE: usize = 8;

/// The characters of a decimal digit string, read as a number.
pub open spec fn digits_value(s: Seq<char>) -> nat
    decreases s.len(),
{
    if s.len() == 0 {
        0
    } else {
        digits_value(s.drop_last()) * 10 + (s.last() as nat - 48) as nat
    }
}

/// Every character of `s` is an ASCII digit.
pub open spec fn all_digits(s: Seq<char>) -> bool {
    forall|i: int| 0 <= i < s.len() ==> '0' <= #[trigger] s[i] <= '9'
}

/// What `str::parse::<i32>` gives: an optional `+` or `-`, then at least one
/// ASCII digit and nothing else, with a value that fits in an `i32`.
pub open spec fn parse_i32(s: Seq<char>) -> Option<i32> {
    let negative = s.len() > 0 && s[0] == '-';
    let digits = if s.len() > 0 && (s[0] == '-' || s[0] == '+') {
        s.skip(1)
    } else {
        s
    };
    if digits.len() == 0 || !all_digits(digits) {
        None
    } else {
        let v: int = if negative {
            -(digits_value(digits) as int)
        } else {
            digits_value(digits) as int
        };
        if i32::MIN <= v <= i32::MAX {
            Some(v as i32)
        } else {
            None
        }
    }
}

/// `str::parse::<i32>`, which the documentation of `i32::from_str_radix`
/// describes: an optional sign followed by digits only, in range.
#[verifier::external_body]
pub(crate) fn parse_i32_std(s: &str) -> (r: Option<i32>)
    ensures
        r == parse_i32(s@),
{
    s.parse::<i32>().ok()
}

// ---------------------------------------------------------------------------
// Runs of reads

/// A read as the transfers take it: the buffer after the read and the read's
/// result.
pub type ReadOutcome = (Seq<u8>, Option<usize>);

/// `k` zero bytes.
pub open spec fn zeros(k: nat) -> Seq<u8> {
    Seq::new(k, |i: int| 0u8)
}

/// The reads of a sender that delivers `m` without loss: each read fills the
/// buffer with the next bytes of `m`, as many as fit, the rest of the buffer
/// holding zeros.
pub open spec fn full_reads(m: Seq<u8>) -> Seq<ReadOutcome>
    decreases m.len(),
{
    if m.len() == 0 {
        seq![]
    } else {
        let n: int = if m.len() < BUFFER_SIZE {
            m.len() as int
        } else {
            BUFFER_SIZE as int
        };
        seq![(m.take(n) + zeros((BUFFER_SIZE - n) as nat), Some(n as usize))]
            + full_reads(m.skip(n))
    }
}

/// The bytes of `m` that the reads of a lossless delivery bring, buffer by
/// buffer, are each valid UTF-8.
pub open spec fn chunks_valid(m: Seq<u8>) -> bool
    decreases m.len(),
{
    m.len() > 0 ==> {
        let n: int = if m.len() < BUFFER_SIZE {
            m.len() as int
        } else {
            BUFFER_SIZE as int
        };
        valid_utf8(m.take(n)) && chunks_valid(m.skip(n))
    }
}

/// The reads of a sender that delivers `m` in pieces of the given sizes, one
/// read each: each read fills the buffer with the next piece, the rest of the
/// buffer holding zeros.
pub open spec fn piece_reads(m: Seq<u8>, sizes: Seq<nat>) -> Seq<ReadOutcome>
    decreases sizes.len(),
{
    if sizes.len() == 0 {
        seq![]
    } else {
        let k = sizes[0] as int;
        seq![(m.take(k) + zeros((BUFFER_SIZE - k) as nat), Some(k as usize))] + piece_reads(
            m.skip(k),
            sizes.drop_first(),
        )
    }
}

/// The sizes cut `m` into pieces, in order, that together make all of `m`,
/// each fitting in a buffer and each valid UTF-8.
pub open spec fn pieces_valid(m: Seq<u8>, sizes: Seq<nat>) -> bool
    decreases sizes.len(),
{
    if sizes.len() == 0 {
        m.len() == 0
    } else {
        &&& sizes[0] <= m.len()
        &&& sizes[0] <= BUFFER_SIZE
        &&& valid_utf8(m.take(sizes[0] as int))
        &&& pieces_valid(m.skip(sizes[0] as int), sizes.drop_first())
    }
}

// ---------------------------------------------------------------------------
// Receiving a file

/// What a file transfer does with one read: the next count of bytes still
/// awaited, and how many leading bytes of the buffer go to the file (`None`
/// where the read failed and nothing is written).
///
/// While a full buffer or more is awaited, the whole buffer is written and the
/// count drops by the bytes read; below that, the awaited number of bytes is
/// written and the transfer is over.
pub open spec fn file_step(remaining: int, read: Option<usize>) -> (int, Option<int>) {
    match read {
        None => (remaining, None),
        Some(n) => if remaining >= BUFFER_SIZE {
            (remaining - n, Some(BUFFER_SIZE as int))
        } else {
            (0, Some(remaining))
        },
    }
}

/// The reads a file transfer takes: a successful read into a short transfer
/// needs a count that is not negative.
pub open spec fn file_read_ok(remaining: int, read: Option<usize>) -> bool {
    read matches Some(n) ==> n <= BUFFER_SIZE && (remaining < BUFFER_SIZE ==> remaining >= 0)
}

/// A file transfer's state after a run of reads: the bytes still awaited and
/// the bytes written to the file, starting from `remaining` awaited.
pub open spec fn file_run(remaining: int, reads: Seq<ReadOutcome>) -> (int, Seq<u8>)
    decreases reads.len(),
{
    if reads.len() == 0 {
        (remaining, Seq::empty())
    } else {
        let (buf, read) = reads[0];
        let step = file_step(remaining, read);
        let written = match step.1 {
            Some(k) => buf.take(k),
            None => Seq::empty(),
        };
        let rest = file_run(step.0, reads.drop_first());
        (rest.0, written + rest.1)
    }
}

/// Every read of the run is one a file transfer takes.
pub open spec fn file_reads_ok(remaining: int, reads: Seq<ReadOutcome>) -> bool
    decreases reads.len(),
{
    reads.len() > 0 ==> {
        &&& reads[0].0.len() == BUFFER_SIZE
        &&& file_read_ok(remaining, reads[0].1)
        &&& file_reads_ok(file_step(remaining, reads[0].1).0, reads.drop_first())
    }
}

/// A file transfer in progress: the number of bytes still awaited.
pub struct FileReceiver {
    remaining: i32,
}

impl View for FileReceiver {
    type V = int;

    closed spec fn view(&self) -> int {
        self.remaining as int
    }
}

impl FileReceiver {
    /// Starts receiving a file of the announced size; `None` where the
    /// announcement is not a number.
    pub fn start(msg_len_str: &str) -> (r: Option<FileReceiver>)
        ensures
            r is None <==> parse_i32(msg_len_str@) is None,
            r matches Some(rx) ==> parse_i32(msg_len_str@) matches Some(size) && rx@ == size as int,
    {
        match parse_i32_std(msg_len_str) {
            Some(size) => Some(FileReceiver { remaining: size }),
            None => None,
        }
    }

    /// The number of bytes still awaited.
    pub fn remaining(&self) -> (r: i32)
        ensures
            r == self@,
    {
        self.remaining
    }

    /// Whether the transfer is over.
    pub fn is_done(&self) -> (r: bool)
        ensures
            r <==> self@ == 0,
    {
        self.remaining == 0
    }

    /// Takes one read into `buf` (`None` for a failed read) and returns the
    /// bytes to write to the file, if any.
    pub fn on_read(&mut self, buf: &[u8], read: Option<usize>) -> (w: Option<Vec<u8>>)
        requires
            buf@.len() == BUFFER_SIZE,
            file_read_ok(old(self)@, read),
        ensures
            final(self)@ == file_step(old(self)@, read).0,
            w matches Some(v) ==> file_step(old(self)@, read).1 == Some(v@.len() as int)
                && v@ == buf@.take(v@.len() as int),
            w is None <==> file_step(old(self)@, read).1 is None,
    {
        match read {
            None => None,
            Some(n) => {
                if self.remaining >= BUFFER_SIZE as i32 {
                    self.remaining = self.remaining - n as i32;
                    let mut out: Vec<u8> = Vec::new();
                    let mut i: usize = 0;
                    while i < buf.len()
                        invariant
                            i <= buf@.len(),
                            out@ == buf@.take(i as int),
                        decreases buf@.len() - i,
                    {
                        out.push(buf[i]);
                        i = i + 1;
                    }
                    assert(buf@.take(i as int) =~= buf@.take(buf@.len() as int));
                    Some(out)
                } else {
                    let limit = self.remaining as usize;
                    self.remaining = 0;
                    let mut out: Vec<u8> = Vec::new();
                    let mut i: usize = 0;
                    while i < limit
                        invariant
                            limit <= buf@.len(),
                            i <= limit,
                            out@ == buf@.take(i as int),
                        decreases limit - i,
                    {
                        out.push(buf[i]);
                        i = i + 1;
                    }
                    Some(out)
                }
            },
        }
    }
}

// ---------------------------------------------------------------------------
// Receiving a text message

/// What a text transfer does with one read: the next count of bytes still
/// awaited, and the text received so far. A failed read changes nothing. While
/// a full buffer or more is awaited, the text of the whole buffer is added;
/// below that, the text of the bytes just read. Either way the count drops by
/// the bytes read.
pub open spec fn text_step(remaining: int, text: Seq<char>, buf: Seq<u8>, read: Option<usize>) -> (
    int,
    Seq<char>,
) {
    match read {
        None => (remaining, text),
        Some(n) => if remaining >= BUFFER_SIZE {
            (remaining - n, text + decode_utf8(buf))
        } else {
            (remaining - n, text + decode_utf8(buf.take(n as int)))
        },
    }
}

/// The reads a text transfer takes: the buffer must be UTF-8, and where only
/// the bytes read are kept they must end on a character boundary.
pub open spec fn text_read_ok(remaining: int, buf: Seq<u8>, read: Option<usize>) -> bool {
    read matches Some(n) ==> {
        &&& n <= BUFFER_SIZE
        &&& valid_utf8(buf)
        &&& remaining < BUFFER_SIZE ==> is_char_boundary(buf, n as int)
        &&& remaining - n >= i32::MIN
    }
}

/// A text transfer's state after a run of reads.
pub open spec fn text_run(remaining: int, text: Seq<char>, reads: Seq<ReadOutcome>) -> (int, Seq<char>)
    decreases reads.len(),
{
    if reads.len() == 0 {
        (remaining, text)
    } else {
        let step = text_step(remaining, text, reads[0].0, reads[0].1);
        text_run(step.0, step.1, reads.drop_first())
    }
}

/// Every read of the run is one a text transfer takes.
pub open spec fn text_reads_ok(remaining: int, text: Seq<char>, reads: Seq<ReadOutcome>) -> bool
    decreases reads.len(),
{
    reads.len() > 0 ==> {
        let step = text_step(remaining, text, reads[0].0, reads[0].1);
        &&& reads[0].0.len() == BUFFER_SIZE
        &&& text_read_ok(remaining, reads[0].0, reads[0].1)
        &&& text_reads_ok(step.0, step.1, reads.drop_first())
    }
}

/// A text transfer in progress: the number of bytes still awaited and the
/// text received so far.
pub struct TextReceiver {
    remaining: i32,
    text: String,
}

impl View for TextReceiver {
    type V = (int, Seq<char>);

    closed spec fn view(&self) -> (int, Seq<char>) {
        (self.remaining as int, self.text@)
    }
}

impl TextReceiver {
    /// Starts receiving a text of the announced size, with nothing received
    /// yet; `None` where the announcement is not a number.
    pub fn start(msg_len_str: &str) -> (r: Option<TextReceiver>)
        ensures
            r is None <==> parse_i32(msg_len_str@) is None,
            r matches Some(rx) ==> parse_i32(msg_len_str@) matches Some(size) && rx@ == (
                size as int,
                Seq::<char>::empty(),
            ),
    {
        match parse_i32_std(msg_len_str) {
            Some(size) => Some(TextReceiver { remaining: size, text: String::new() }),
            None => None,
        }
    }

    /// The number of bytes still awaited.
    pub fn remaining(&self) -> (r: i32)
        ensures
            r == self@.0,
    {
        self.remaining
    }

    /// Whether the transfer is over.
    pub fn is_done(&self) -> (r: bool)
        ensures
            r <==> self@.0 == 0,
    {
        self.remaining == 0
    }

    /// Takes one read into `buf` (`None` for a failed read).
    pub fn on_read(&mut self, buf: &[u8], read: Option<usize>)
        requires
            buf@.len() == BUFFER_SIZE,
            text_read_ok(old(self)@.0, buf@, read),
        ensures
            final(self)@ == text_step(old(self)@.0, old(self)@.1, buf@, read),
            read is None ==> final(self)@ == old(self)@,
            read matches Some(n) ==> final(self)@.0 == old(self)@.0 - n,
            read matches Some(n) ==> (old(self)@.0 < BUFFER_SIZE ==> final(self)@.1 == old(
                self,
            )@.1 + decode_utf8(buf@.take(n as int))),
            read is Some && old(self)@.0 >= BUFFER_SIZE ==> final(self)@.1 == old(self)@.1
                + decode_utf8(buf@),
    {
        match read {
            None => {},
            Some(n) => {
                let s = str_from_utf8(buf).unwrap();
                if self.remaining >= BUFFER_SIZE as i32 {
                    self.text.append(s);
                } else {
                    let piece = byte_prefix(s, n);
                    self.text.append(piece.as_str());
                }
                self.remaining = self.remaining - n as i32;
            },
        }
    }

    /// Ends a message transfer: the text received, up to its last carriage
    /// return, which it must hold.
    pub fn into_message(self) -> (r: String)
        requires
            self@.1.contains('\r'),
        ensures
            r@ == before_last(self@.1, '\r'),
    {
        text_before_last(self.text.as_str(), '\r')
    }

    /// Ends a transfer: the whole text received.
    pub fn into_text(self) -> (r: String)
        ensures
            r@ == self@.1,
    {
        self.text
    }
}

} // verus!
