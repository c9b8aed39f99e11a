//! Character-level helpers shared by the reply decoders: UTF-8 validation,
//! numeric-character classification and searching in character sequences.

use vstd::prelude::*;
use vstd::std_specs::iter::IteratorSpec;
use vstd::string::*;
use vstd::utf8::*;

verus! {

/// Name for the answer of `char::is_numeric` outside ASCII, where it consults
/// the Unicode general categories Nd, Nl and No.
pub uninterp spec fn unicode_numeric(c: char) -> bool;

/// Whether `char::is_numeric` holds of `c`: in the ASCII range the Unicode
/// number categories hold exactly the digits `'0'..='9'`; beyond it the answer
/// is named by `unicode_numeric`.
pub open spec fn is_numeric(c: char) -> bool {
    if (c as u32) < 128 {
        '0' <= c && c <= '9'
    } else {
        unicode_numeric(c)
    }
}

/// `std::str::from_utf8`: the bytes are accepted exactly when they are valid
/// UTF-8, and the accepted string slice holds those same bytes, so its
/// characters are their UTF-8 decoding.
#[verifier::external_body]
pub(crate) fn str_from_utf8(bytes: &[u8]) -> (r: Option<&str>)
    ensures
        r is Some <==> valid_utf8(bytes@),
        r matches Some(s) ==> s.spec_bytes() == bytes@ && s@ == decode_utf8(bytes@),
{
    std::str::from_utf8(bytes).ok()
}

/// `char::is_numeric`, which tells whether `c` has one of the Unicode general
/// categories for numbers (see `is_numeric`).
#[verifier::external_body]
fn char_is_numeric(c: char) -> (r: bool)
    ensures
        r == is_numeric(c),
        (c as u32) >= 128 ==> r == unicode_numeric(c),
{
    c.is_numeric()
}

/// The characters of a string slice, in order.
pub fn chars_vec(s: &str) -> (v: Vec<char>)
    ensures
        v@ == s@,
{
    let mut v: Vec<char> = Vec::new();
    for c in it: s.chars()
        invariant
            v@ == it.seq().take(it.index()),
            it.seq() == s@,
    {
        v.push(c);
    }
    v
}

/// How many characters of `s` are numeric.
pub open spec fn numeric_count(s: Seq<char>) -> nat
    decreases s.len(),
{
    if s.len() == 0 {
        0
    } else {
        numeric_count(s.drop_last()) + if is_numeric(s.last()) {
            1nat
        } else {
            0nat
        }
    }
}

/// Counts the numeric characters of a string.
pub fn count_numeric(chars: &Vec<char>) -> (n: usize)
    ensures
        n == numeric_count(chars@),
{
    let mut n: usize = 0;
    let mut i: usize = 0;
    while i < chars.len()
        invariant
            i <= chars.len(),
            n == numeric_count(chars@.take(i as int)),
            n <= i,
        decreases chars.len() - i,
    {
        assert(chars@.take(i + 1).drop_last() =~= chars@.take(i as int));
        if char_is_numeric(chars[i]) {
            n = n + 1;
        }
        i = i + 1;
    }
    assert(chars@.take(i as int) =~= chars@);
    n
}

/// The first `k` bytes of a string slice, as an owned string; `k` must fall on
/// a character boundary.
pub fn byte_prefix(s: &str, k: usize) -> (r: String)
    requires
        is_char_boundary(s.spec_bytes(), k as int),
    ensures
        r@ == decode_utf8(s.spec_bytes().take(k as int)),
        encode_utf8(r@) == s.spec_bytes().take(k as int),
{
    let (head, _tail) = s.split_at(k);
    proof {
        encode_utf8_decode_utf8(head@);
        assert(s.spec_bytes().take(k as int) =~= s.spec_bytes().subrange(0, k as int));
    }
    head.to_owned()
}

/// `i` is the position of the last occurrence of `c` in `s`.
pub open spec fn is_last_index(s: Seq<char>, c: char, i: int) -> bool {
    &&& 0 <= i < s.len()
    &&& s[i] == c
    &&& forall|j: int| i < j < s.len() ==> s[j] != c
}

/// The position of the last occurrence of `c` in `s` (meaningful when `s`
/// contains `c`).
pub open spec fn last_index_of(s: Seq<char>, c: char) -> int {
    choose|i: int| is_last_index(s, c, i)
}

/// The characters of `s` before the last occurrence of `c`.
pub open spec fn before_last(s: Seq<char>, c: char) -> Seq<char> {
    s.take(last_index_of(s, c))
}

/// There is at most one last occurrence, so any witness is the one chosen.
pub proof fn lemma_last_index_unique(s: Seq<char>, c: char, i: int)
    requires
        is_last_index(s, c, i),
    ensures
        last_index_of(s, c) == i,
{
    let k = last_index_of(s, c);
    assert(is_last_index(s, c, k));
    if k < i {
        assert(s[i] != c);
    } else if i < k {
        assert(s[k] != c);
    }
}

/// Finds the last occurrence of `c` among `chars`.
pub fn find_last(chars: &Vec<char>, c: char) -> (r: Option<usize>)
    ensures
        r matches Some(i) ==> is_last_index(chars@, c, i as int),
        r is None <==> !chars@.contains(c),
{
    let mut i: usize = chars.len();
    while i > 0
        invariant
            i <= chars.len(),
            forall|j: int| i <= j < chars.len() ==> chars@[j] != c,
        decreases i,
    {
        i = i - 1;
        if chars[i] == c {
            return Some(i);
        }
    }
    None
}

/// The text of `s` before the last occurrence of `c`, which `s` must contain.
pub fn text_before_last(s: &str, c: char) -> (r: String)
    requires
        s@.contains(c),
    ensures
        r@ == before_last(s@, c),
{
    let chars = chars_vec(s);
    let i = find_last(&chars, c).unwrap();
    proof {
        lemma_last_index_unique(s@, c, i as int);
    }
    let head = s.substring_char(0, i);
    head.to_owned()
}

/// `p` is a prefix of `s`.
pub open spec fn has_prefix(s: Seq<char>, p: Seq<char>) -> bool {
    p.len() <= s.len() && s.take(p.len() as int) == p
}

/// Whether `s` begins with `p`.
pub fn starts_with_text(s: &str, p: &str) -> (r: bool)
    ensures
        r == has_prefix(s@, p@),
{
    let a = chars_vec(s);
    let b = chars_vec(p);
    if b.len() > a.len() {
        return false;
    }
    let mut i: usize = 0;
    while i < b.len()
        invariant
            a@ == s@,
            b@ == p@,
            b@.len() <= a@.len(),
            i <= b@.len(),
            forall|j: int| 0 <= j < i ==> a@[j] == b@[j],
        decreases b@.len() - i,
    {
        if a[i] != b[i] {
            assert(s@.take(p@.len() as int)[i as int] != p@[i as int]);
            return false;
        }
        i = i + 1;
    }
    assert(s@.take(p@.len() as int) =~= p@);
    true
}

/// Whether `a` and `b` hold the same text.
pub fn same_text(a: &str, b: &str) -> (r: bool)
    ensures
        r == (a@ == b@),
{
    let x = chars_vec(a);
    let y = chars_vec(b);
    if x.len() != y.len() {
        return false;
    }
    let mut i: usize = 0;
    while i < x.len()
        invariant
            x@ == a@,
            y@ == b@,
            x@.len() == y@.len(),
            i <= x@.len(),
            forall|j: int| 0 <= j < i ==> x@[j] == y@[j],
        decreases x@.len() - i,
    {
        if x[i] != y[i] {
            return false;
        }
        i = i + 1;
    }
    assert(x@ =~= y@);
    true
}

/// Every byte is below 128.
pub open spec fn ascii_only(b: Seq<u8>) -> bool {
    forall|i: int| 0 <= i < b.len() ==> #[trigger] b[i] < 128
}

/// The characters of ASCII bytes.
pub open spec fn ascii_chars(b: Seq<u8>) -> Seq<char> {
    b.map_values(|x: u8| x as char)
}

/// ASCII bytes are valid UTF-8, decode to the characters of the same
/// numbers, and every position among them is a character boundary.
pub proof fn lemma_ascii_utf8(b: Seq<u8>)
    requires
        ascii_only(b),
    ensures
        valid_utf8(b),
        decode_utf8(b) == ascii_chars(b),
        forall|k: int| 0 <= k <= b.len() ==> #[trigger] is_char_boundary(b, k),
{
    let c = ascii_chars(b);
    assert(is_ascii_chars(c));
    is_ascii_chars_encode_utf8(c);
    assert(encode_utf8(c) =~= b);
    encode_utf8_valid_utf8(c);
    encode_utf8_decode_utf8(c);
    assert forall|k: int| 0 <= k <= b.len() implies #[trigger] is_char_boundary(b, k) by {
        if k == b.len() {
            is_char_boundary_start_end_of_seq(b);
        } else {
            is_char_boundary_iff_not_is_continuation_byte(b, k);
        }
    }
}

/// Numeric characters are counted part by part.
pub proof fn lemma_numeric_count_concat(a: Seq<char>, b: Seq<char>)
    ensures
        numeric_count(a + b) == numeric_count(a) + numeric_count(b),
    decreases b.len(),
{
    if b.len() == 0 {
        assert(a + b =~= a);
    } else {
        lemma_numeric_count_concat(a, b.drop_last());
        assert((a + b).drop_last() =~= a + b.drop_last());
    }
}

/// The UTF-8 encoding of a concatenation is the concatenation of the
/// encodings.
pub proof fn lemma_encode_utf8_concat(x: Seq<char>, y: Seq<char>)
    ensures
        encode_utf8(x + y) == encode_utf8(x) + encode_utf8(y),
    decreases x.len(),
{
    if x.len() == 0 {
        assert(x + y =~= y);
        assert(encode_utf8(x) =~= Seq::<u8>::empty());
        assert(Seq::<u8>::empty() + encode_utf8(y) =~= encode_utf8(y));
    } else {
        assert((x + y)[0] == x[0]);
        assert((x + y).drop_first() =~= x.drop_first() + y);
        lemma_encode_utf8_concat(x.drop_first(), y);
        let h = encode_scalar(x[0] as u32);
        assert(h + (encode_utf8(x.drop_first()) + encode_utf8(y)) =~= (h + encode_utf8(
            x.drop_first(),
        )) + encode_utf8(y));
    }
}

/// Two valid UTF-8 byte sequences put together are valid, and decode to the
/// two texts put together.
pub proof fn lemma_decode_utf8_concat(a: Seq<u8>, b: Seq<u8>)
    requires
        valid_utf8(a),
        valid_utf8(b),
    ensures
        valid_utf8(a + b),
        decode_utf8(a + b) == decode_utf8(a) + decode_utf8(b),
        is_char_boundary(a + b, a.len() as int),
{
    let x = decode_utf8(a);
    let y = decode_utf8(b);
    decode_utf8_encode_utf8(a);
    decode_utf8_encode_utf8(b);
    lemma_encode_utf8_concat(x, y);
    encode_utf8_valid_utf8(x + y);
    encode_utf8_decode_utf8(x + y);
    if b.len() == 0 {
        assert(a + b =~= a);
        is_char_boundary_start_end_of_seq(a);
    } else {
        assert(valid_first_scalar(b));
        assert(!is_continuation_byte(b[0]));
        assert((a + b)[a.len() as int] == b[0]);
        is_char_boundary_iff_not_is_continuation_byte(a + b, a.len() as int);
    }
}

/// The text after the first `k` characters, when these are ASCII, is the
/// decoding of the bytes after the first `k` bytes.
pub proof fn lemma_skip_ascii_prefix(s: &str, k: int)
    requires
        0 <= k <= s@.len(),
        is_ascii_chars(s@.take(k)),
    ensures
        decode_utf8(s.spec_bytes().skip(k)) == s@.skip(k),
{
    let head = s@.take(k);
    let tail = s@.skip(k);
    assert(s@ =~= head + tail);
    lemma_encode_utf8_concat(head, tail);
    is_ascii_chars_encode_utf8(head);
    assert(s.spec_bytes().skip(k) =~= encode_utf8(tail));
    encode_utf8_decode_utf8(tail);
}

} // verus!
