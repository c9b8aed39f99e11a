//! Decoding of the short replies the server sends into a fixed-size buffer:
//! the announced size of the next message and the acknowledgement.

use vstd::prelude::*;
use vstd::utf8::*;
use crate::text::{
    before_last, byte_prefix, chars_vec, count_numeric, numeric_count, str_from_utf8,
    text_before_last,
};

verus! {

/// The number of leading bytes of a size reply that `decode_message_size`
/// keeps: one per numeric character anywhere in the decoded buffer.
pub open spec fn size_prefix_len(buf: Seq<u8>) -> nat {
    numeric_count(decode_utf8(buf))
}

/// Whether `decode_message_size` accepts `buf`: it must be UTF-8 and the kept
/// prefix must end on a character boundary.
pub open spec fn size_reply_decodable(buf: Seq<u8>) -> bool {
    valid_utf8(buf) && is_char_boundary(buf, size_prefix_len(buf) as int)
}

/// The text `decode_message_size` gives for a size reply it accepts.
pub open spec fn size_text(buf: Seq<u8>) -> Seq<char> {
    decode_utf8(buf.take(size_prefix_len(buf) as int))
}

/// Decodes the size announcement the server sends before a message: the text
/// of the buffer, cut after as many bytes as it holds numeric characters, so
/// that a reply such as `"12\r"` followed by zero bytes gives `"12"`.
pub fn decode_message_size(ack_buf: &[u8]) -> (r: String)
    requires
        size_reply_decodable(ack_buf@),
    ensures
        r@ == size_text(ack_buf@),
        encode_utf8(r@) == ack_buf@.take(size_prefix_len(ack_buf@) as int),
{
    let s = str_from_utf8(ack_buf).unwrap();
    let chars = chars_vec(s);
    let k = count_numeric(&chars);
    byte_prefix(s, k)
}

/// Like `decode_message_size`, but answers `None` on a buffer that it does not
/// accept (one that is not UTF-8, or whose kept prefix would split a
/// character) instead of requiring the caller to rule that out.
pub fn try_decode_message_size(ack_buf: &[u8]) -> (r: Option<String>)
    ensures
        r is Some <==> size_reply_decodable(ack_buf@),
        r matches Some(t) ==> t@ == size_text(ack_buf@),
{
    match str_from_utf8(ack_buf) {
        None => None,
        Some(s) => {
            let chars = chars_vec(s);
            let k = count_numeric(&chars);
            if s.is_char_boundary(k) {
                Some(decode_message_size(ack_buf))
            } else {
                None
            }
        },
    }
}

/// Whether an acknowledgement buffer can be read: it must be UTF-8 and hold a
/// carriage return.
pub open spec fn ack_reply_decodable(buf: Seq<u8>) -> bool {
    valid_utf8(buf) && decode_utf8(buf).contains('\r')
}

/// The reply text of an acknowledgement buffer: everything before its last
/// carriage return.
pub open spec fn reply_text(buf: Seq<u8>) -> Seq<char> {
    before_last(decode_utf8(buf), '\r')
}

/// The text the server put before the last carriage return of an
/// acknowledgement buffer.
pub fn ack_text(ack_buf: &[u8]) -> (r: String)
    requires
        ack_reply_decodable(ack_buf@),
    ensures
        r@ == reply_text(ack_buf@),
{
    let s = str_from_utf8(ack_buf).unwrap();
    text_before_last(s, '\r')
}

/// The characters of the acknowledgement word.
pub open spec fn ack_word() -> Seq<char> {
    seq!['A', 'C', 'K']
}

/// The characters of the answer to a refused acknowledgement.
pub open spec fn error_word() -> Seq<char> {
    seq!['e', 'r', 'r', 'o', 'r']
}

/// Checks an acknowledgement buffer: `"ACK"` when the text before its last
/// carriage return is exactly `ACK`, `"error"` otherwise.
pub fn check_ack(ack_buf: &[u8]) -> (r: String)
    requires
        ack_reply_decodable(ack_buf@),
    ensures
        r@ == if reply_text(ack_buf@) == ack_word() {
            ack_word()
        } else {
            error_word()
        },
{
    let text = ack_text(ack_buf);
    let chars = chars_vec(text.as_str());
    let accepted = chars.len() == 3 && chars[0] == 'A' && chars[1] == 'C' && chars[2] == 'K';
    proof {
        if accepted {
            assert(chars@ =~= ack_word());
        }
        reveal_strlit("ACK");
        reveal_strlit("error");
    }
    if !accepted {
        return String::from_str("error");
    }
    String::from_str("ACK")
}

} // verus!
