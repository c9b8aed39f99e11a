//! Laws of text delivery beyond ASCII: a text transfer reassembles any UTF-8
//! text whose reads each bring valid UTF-8, whether the reads fill the buffer
//! or, once less than a buffer is awaited, bring the rest in any number of
//! shorter reads.

use vstd::prelude::*;
use vstd::utf8::*;
use crate::laws::lemma_full_reads_first;
use crate::text::{ascii_only, lemma_ascii_utf8, lemma_decode_utf8_concat};
use crate::transfer::{
    chunks_valid, full_reads, piece_reads, pieces_valid, text_read_ok, text_reads_ok, text_run,
    text_step, zeros, ReadOutcome, BUFFER_SIZE,
};

verus! {

/// Bytes delivered chunk by chunk in valid UTF-8 are valid UTF-8 as a whole.
pub proof fn lemma_chunks_valid_utf8(m: Seq<u8>)
    requires
        chunks_valid(m),
    ensures
        valid_utf8(m),
    decreases m.len(),
{
    if m.len() > 0 {
        let n: int = if m.len() < BUFFER_SIZE {
            m.len() as int
        } else {
            BUFFER_SIZE as int
        };
        lemma_chunks_valid_utf8(m.skip(n));
        lemma_decode_utf8_concat(m.take(n), m.skip(n));
        assert(m.take(n) + m.skip(n) =~= m);
    }
}

/// A buffer holding a valid UTF-8 piece and then zeros.
pub proof fn lemma_padded_piece(piece: Seq<u8>)
    requires
        valid_utf8(piece),
        piece.len() <= BUFFER_SIZE,
    ensures
        ({
            let buf = piece + zeros((BUFFER_SIZE - piece.len()) as nat);
            &&& buf.len() == BUFFER_SIZE
            &&& valid_utf8(buf)
            &&& is_char_boundary(buf, piece.len() as int)
            &&& buf.take(piece.len() as int) == piece
            &&& piece.len() == BUFFER_SIZE ==> buf == piece
        }),
{
    let z = zeros((BUFFER_SIZE - piece.len()) as nat);
    assert(ascii_only(z));
    lemma_ascii_utf8(z);
    lemma_decode_utf8_concat(piece, z);
    let buf = piece + z;
    assert(buf.take(piece.len() as int) =~= piece);
    if piece.len() == BUFFER_SIZE {
        assert(buf =~= piece);
    }
}

/// The first read of a lossless delivery whose reads bring valid UTF-8, as a
/// text transfer awaiting exactly those bytes takes it.
pub proof fn lemma_first_chunk(m: Seq<u8>, text: Seq<char>) -> (n: int)
    requires
        chunks_valid(m),
        m.len() > 0,
        m.len() <= i32::MAX,
    ensures
        n == if m.len() < BUFFER_SIZE {
            m.len() as int
        } else {
            BUFFER_SIZE as int
        },
        full_reads(m).len() > 0,
        full_reads(m)[0].1 == Some(n as usize),
        full_reads(m)[0].0.len() == BUFFER_SIZE,
        full_reads(m).drop_first() == full_reads(m.skip(n)),
        text_read_ok(m.len() as int, full_reads(m)[0].0, full_reads(m)[0].1),
        text_step(m.len() as int, text, full_reads(m)[0].0, full_reads(m)[0].1) == (
            m.len() - n,
            text + decode_utf8(m.take(n)),
        ),
        chunks_valid(m.skip(n)),
        valid_utf8(m),
        decode_utf8(m) == decode_utf8(m.take(n)) + decode_utf8(m.skip(n)),
{
    let n: int = if m.len() < BUFFER_SIZE {
        m.len() as int
    } else {
        BUFFER_SIZE as int
    };
    lemma_full_reads_first(m, n);
    lemma_padded_piece(m.take(n));
    lemma_chunks_valid_utf8(m.skip(n));
    lemma_decode_utf8_concat(m.take(n), m.skip(n));
    assert(m.take(n) + m.skip(n) =~= m);
    n
}

/// A text run over two runs of reads.
pub proof fn lemma_text_run_concat(
    remaining: int,
    text: Seq<char>,
    a: Seq<ReadOutcome>,
    b: Seq<ReadOutcome>,
)
    ensures
        text_run(remaining, text, a + b) == text_run(
            text_run(remaining, text, a).0,
            text_run(remaining, text, a).1,
            b,
        ),
        text_reads_ok(remaining, text, a) && text_reads_ok(
            text_run(remaining, text, a).0,
            text_run(remaining, text, a).1,
            b,
        ) ==> text_reads_ok(remaining, text, a + b),
    decreases a.len(),
{
    if a.len() == 0 {
        assert(a + b =~= b);
    } else {
        assert((a + b)[0] == a[0]);
        assert((a + b).drop_first() =~= a.drop_first() + b);
        let step = text_step(remaining, text, a[0].0, a[0].1);
        lemma_text_run_concat(step.0, step.1, a.drop_first(), b);
    }
}

/// Full buffers of valid UTF-8, while at least a buffer is awaited, bring
/// their text and leave what was awaited beyond them.
proof fn lemma_text_run_full_chunks(m: Seq<u8>, extra: int, text: Seq<char>)
    requires
        chunks_valid(m),
        m.len() % (BUFFER_SIZE as nat) == 0,
        0 <= extra < BUFFER_SIZE,
        m.len() + extra <= i32::MAX,
    ensures
        text_reads_ok(m.len() + extra, text, full_reads(m)),
        text_run(m.len() + extra, text, full_reads(m)) == (extra, text + decode_utf8(m)),
    decreases m.len(),
{
    if m.len() == 0 {
        assert(text + decode_utf8(m) =~= text);
    } else {
        let n: int = BUFFER_SIZE as int;
        lemma_full_reads_first(m, n);
        lemma_padded_piece(m.take(n));
        let buf = full_reads(m)[0].0;
        assert(buf == m.take(n));
        lemma_chunks_valid_utf8(m.skip(n));
        lemma_decode_utf8_concat(m.take(n), m.skip(n));
        assert(m.take(n) + m.skip(n) =~= m);
        assert(text_read_ok(m.len() + extra, buf, Some(n as usize)));
        let text2 = text + decode_utf8(m.take(n));
        assert(text_step(m.len() + extra, text, buf, Some(n as usize)) == (
            m.skip(n).len() + extra,
            text2,
        ));
        lemma_text_run_full_chunks(m.skip(n), extra, text2);
        assert(text2 + decode_utf8(m.skip(n)) =~= text + decode_utf8(m));
    }
}

/// Once less than a buffer is awaited, the rest arriving in pieces of valid
/// UTF-8, in reads of any sizes, brings the rest of the text.
proof fn lemma_text_run_pieces(m: Seq<u8>, sizes: Seq<nat>, text: Seq<char>)
    requires
        pieces_valid(m, sizes),
        m.len() < BUFFER_SIZE,
    ensures
        valid_utf8(m),
        text_reads_ok(m.len() as int, text, piece_reads(m, sizes)),
        text_run(m.len() as int, text, piece_reads(m, sizes)) == (0int, text + decode_utf8(m)),
    decreases sizes.len(),
{
    if sizes.len() == 0 {
        assert(m =~= Seq::<u8>::empty());
        assert(text + decode_utf8(m) =~= text);
    } else {
        let k = sizes[0] as int;
        let piece = m.take(k);
        let rest = m.skip(k);
        lemma_padded_piece(piece);
        let buf = piece + zeros((BUFFER_SIZE - k) as nat);
        let reads = piece_reads(m, sizes);
        assert(reads == seq![(buf, Some(k as usize))] + piece_reads(rest, sizes.drop_first()));
        assert(reads[0] == (buf, Some(k as usize)));
        assert(reads.drop_first() =~= piece_reads(rest, sizes.drop_first()));
        lemma_text_run_pieces(rest, sizes.drop_first(), text + decode_utf8(piece));
        lemma_decode_utf8_concat(piece, rest);
        assert(piece + rest =~= m);
        assert(text_read_ok(m.len() as int, buf, Some(k as usize)));
        assert(text_step(m.len() as int, text, buf, Some(k as usize)) == (
            rest.len() as int,
            text + decode_utf8(piece),
        ));
        assert(text + decode_utf8(piece) + decode_utf8(rest) =~= text + decode_utf8(m));
    }
}

/// Law: a text transfer whose announced size is the length of what is sent
/// reassembles the sent text exactly, for any text whose reads each bring
/// valid UTF-8: full buffers while at least a buffer is awaited, then the
/// remaining bytes in reads of any sizes. Every count read is taken off what
/// is awaited, and the transfer ends when nothing is.
pub proof fn law_text_transfer_reassembles_text(full: Seq<u8>, rest: Seq<u8>, sizes: Seq<nat>)
    requires
        chunks_valid(full),
        full.len() % (BUFFER_SIZE as nat) == 0,
        rest.len() < BUFFER_SIZE,
        pieces_valid(rest, sizes),
        full.len() + rest.len() <= i32::MAX,
    ensures
        valid_utf8(full + rest),
        text_reads_ok(
            (full + rest).len() as int,
            Seq::empty(),
            full_reads(full) + piece_reads(rest, sizes),
        ),
        text_run(
            (full + rest).len() as int,
            Seq::empty(),
            full_reads(full) + piece_reads(rest, sizes),
        ) == (0int, decode_utf8(full + rest)),
{
    let total = (full + rest).len() as int;
    lemma_text_run_full_chunks(full, rest.len() as int, Seq::empty());
    let mid = text_run(total, Seq::empty(), full_reads(full));
    assert(mid == (rest.len() as int, Seq::<char>::empty() + decode_utf8(full)));
    lemma_text_run_pieces(rest, sizes, mid.1);
    lemma_text_run_concat(total, Seq::empty(), full_reads(full), piece_reads(rest, sizes));
    lemma_chunks_valid_utf8(full);
    lemma_decode_utf8_concat(full, rest);
    assert(Seq::<char>::empty() + decode_utf8(full) + decode_utf8(rest) =~= decode_utf8(
        full + rest,
    ));
}

} // verus!
