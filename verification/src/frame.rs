//! Framing of outgoing messages: every message travels as its ASCII bytes
//! followed by a carriage return, and is announced by a frame holding the
//! decimal length of the message frame.

use vstd::prelude::*;
use vstd::string::*;
use vstd::utf8::*;
use encoding::{Encoding, EncoderTrap};
use encoding::all::ASCII;

verus! {

broadcast use vstd::string::group_string_axioms;

/// The carriage return that ends every frame.
pub const FRAME_END: u8 = 13;

/// The character for a decimal digit.
pub open spec fn digit_char(d: nat) -> char {
    (48 + d) as char
}

/// The decimal representation of `n`, most significant digit first and
/// without leading zeros.
pub open spec fn decimal(n: nat) -> Seq<char>
    decreases n,
{
    if n < 10 {
        seq![digit_char(n)]
    } else {
        decimal(n / 10).push(digit_char(n % 10))
    }
}

/// The bytes of an ASCII character sequence.
pub open spec fn ascii_bytes(s: Seq<char>) -> Seq<u8> {
    s.map_values(|c: char| c as u8)
}

/// The frame that carries the text `s`: its bytes, then a carriage return.
pub open spec fn frame(s: Seq<char>) -> Seq<u8> {
    ascii_bytes(s).push(FRAME_END)
}

/// The frame that announces a message of `len` bytes: the decimal length of
/// the message frame (one more than `len`, for its carriage return).
pub open spec fn size_frame(len: nat) -> Seq<u8> {
    frame(decimal(len + 1))
}

/// The error text of a refused encoding.
pub open spec fn unrepresentable() -> Seq<char> {
    "unrepresentable character"@
}

/// The decimal representation of a number is made of ASCII digits.
pub proof fn lemma_decimal_digits(n: nat)
    ensures
        decimal(n).len() >= 1,
        forall|i: int| 0 <= i < decimal(n).len() ==> '0' <= #[trigger] decimal(n)[i] <= '9',
    decreases n,
{
    if n >= 10 {
        lemma_decimal_digits(n / 10);
    }
}

/// `ToString::to_string` on a `usize`: the `Display` of an unsigned integer
/// is its decimal representation.
#[verifier::external_body]
fn usize_decimal(n: usize) -> (r: String)
    ensures
        r@ == decimal(n as nat),
{
    n.to_string()
}

/// `encoding::all::ASCII.encode(text, EncoderTrap::Strict)`, its error text
/// taken as an owned string. The encoder copies the bytes of a string whose
/// characters are all ASCII and refuses any other string with the cause
/// `"unrepresentable character"`.
#[verifier::external_body]
fn ascii_encode_strict(text: &str) -> (r: Result<Vec<u8>, String>)
    ensures
        r is Ok <==> is_ascii(text),
        r matches Ok(v) ==> v@ == text.spec_bytes(),
        r matches Err(e) ==> e@ == unrepresentable(),
{
    ASCII.encode(text, EncoderTrap::Strict).map_err(|e| e.into_owned())
}

/// The bytes of an ASCII string slice are its characters.
proof fn lemma_ascii_bytes(s: &str)
    requires
        is_ascii(s),
    ensures
        s.spec_bytes() == ascii_bytes(s@),
{
    broadcast use is_ascii_spec_bytes;
    assert(s.spec_bytes() =~= ascii_bytes(s@));
}

/// Encodes the frame announcing `cmd`: the decimal byte length of `cmd` plus
/// one, then a carriage return. It never fails, as digits are ASCII.
pub fn encode_message_size(cmd: &str) -> (r: Result<Vec<u8>, String>)
    requires
        cmd.spec_bytes().len() < usize::MAX,
    ensures
        r matches Ok(v) && v@ == size_frame(cmd.spec_bytes().len()),
{
    let message_size = cmd.len() + 1;
    let message_size_str = usize_decimal(message_size);
    let digits = message_size_str.as_str();
    proof {
        lemma_decimal_digits(message_size as nat);
        assert(is_ascii(digits));
        lemma_ascii_bytes(digits);
    }
    let mut message_size_bytes = match ascii_encode_strict(digits) {
        Ok(v) => v,
        Err(e) => {
            return Err(e);
        },
    };
    message_size_bytes.push(FRAME_END);
    Ok(message_size_bytes)
}

/// Encodes `cmd` as a frame: its ASCII bytes, then a carriage return. A
/// command holding a character outside ASCII is refused with the encoder's
/// error text.
pub fn encode_message(cmd: &str) -> (r: Result<Vec<u8>, String>)
    ensures
        r is Ok <==> is_ascii(cmd),
        r matches Ok(v) ==> v@ == frame(cmd@),
        r matches Err(e) ==> e@ == unrepresentable(),
{
    let mut message_bytes = match ascii_encode_strict(cmd) {
        Ok(v) => v,
        Err(e) => {
            return Err(e);
        },
    };
    proof {
        lemma_ascii_bytes(cmd);
    }
    message_bytes.push(FRAME_END);
    Ok(message_bytes)
}

} // verus!
