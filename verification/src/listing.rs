//! Parsing of the remote directory listing. The server lists one file per
//! line as `name  [size bytes]`; a file's name is what precedes the
//! bracketed size on its line, and its size is the run of digits just before
//! ` bytes]`. Whitespace and digits are those of Unicode (`White_Space` and the
//! `Decimal_Number` category), and a field never spans a line feed.

use vstd::prelude::*;
use vstd::string::*;
use crate::text::chars_vec;

verus! {

/// Unicode `White_Space`.
pub open spec fn is_space_code(u: u32) -> bool {
    ||| (0x9 <= u && u <= 0xd)
    ||| u == 0x20
    ||| u == 0x85
    ||| u == 0xa0
    ||| u == 0x1680
    ||| (0x2000 <= u && u <= 0x200a)
    ||| (0x2028 <= u && u <= 0x2029)
    ||| u == 0x202f
    ||| u == 0x205f
    ||| u == 0x3000
}

/// Unicode general category `Decimal_Number` (Unicode 16.0).
pub open spec fn is_decimal_code(u: u32) -> bool {
    ||| (0x30 <= u && u <= 0x39)
    ||| (0x660 <= u && u <= 0x669)
    ||| (0x6f0 <= u && u <= 0x6f9)
    ||| (0x7c0 <= u && u <= 0x7c9)
    ||| (0x966 <= u && u <= 0x96f)
    ||| (0x9e6 <= u && u <= 0x9ef)
    ||| (0xa66 <= u && u <= 0xa6f)
    ||| (0xae6 <= u && u <= 0xaef)
    ||| (0xb66 <= u && u <= 0xb6f)
    ||| (0xbe6 <= u && u <= 0xbef)
    ||| (0xc66 <= u && u <= 0xc6f)
    ||| (0xce6 <= u && u <= 0xcef)
    ||| (0xd66 <= u && u <= 0xd6f)
    ||| (0xde6 <= u && u <= 0xdef)
    ||| (0xe50 <= u && u <= 0xe59)
    ||| (0xed0 <= u && u <= 0xed9)
    ||| (0xf20 <= u && u <= 0xf29)
    ||| (0x1040 <= u && u <= 0x1049)
    ||| (0x1090 <= u && u <= 0x1099)
    ||| (0x17e0 <= u && u <= 0x17e9)
    ||| (0x1810 <= u && u <= 0x1819)
    ||| (0x1946 <= u && u <= 0x194f)
    ||| (0x19d0 <= u && u <= 0x19d9)
    ||| (0x1a80 <= u && u <= 0x1a89)
    ||| (0x1a90 <= u && u <= 0x1a99)
    ||| (0x1b50 <= u && u <= 0x1b59)
    ||| (0x1bb0 <= u && u <= 0x1bb9)
    ||| (0x1c40 <= u && u <= 0x1c49)
    ||| (0x1c50 <= u && u <= 0x1c59)
    ||| (0xa620 <= u && u <= 0xa629)
    ||| (0xa8d0 <= u && u <= 0xa8d9)
    ||| (0xa900 <= u && u <= 0xa909)
    ||| (0xa9d0 <= u && u <= 0xa9d9)
    ||| (0xa9f0 <= u && u <= 0xa9f9)
    ||| (0xaa50 <= u && u <= 0xaa59)
    ||| (0xabf0 <= u && u <= 0xabf9)
    ||| (0xff10 <= u && u <= 0xff19)
    ||| (0x104a0 <= u && u <= 0x104a9)
    ||| (0x10d30 <= u && u <= 0x10d39)
    ||| (0x10d40 <= u && u <= 0x10d49)
    ||| (0x11066 <= u && u <= 0x1106f)
    ||| (0x110f0 <= u && u <= 0x110f9)
    ||| (0x11136 <= u && u <= 0x1113f)
    ||| (0x111d0 <= u && u <= 0x111d9)
    ||| (0x112f0 <= u && u <= 0x112f9)
    ||| (0x11450 <= u && u <= 0x11459)
    ||| (0x114d0 <= u && u <= 0x114d9)
    ||| (0x11650 <= u && u <= 0x11659)
    ||| (0x116c0 <= u && u <= 0x116c9)
    ||| (0x116d0 <= u && u <= 0x116e3)
    ||| (0x11730 <= u && u <= 0x11739)
    ||| (0x118e0 <= u && u <= 0x118e9)
    ||| (0x11950 <= u && u <= 0x11959)
    ||| (0x11bf0 <= u && u <= 0x11bf9)
    ||| (0x11c50 <= u && u <= 0x11c59)
    ||| (0x11d50 <= u && u <= 0x11d59)
    ||| (0x11da0 <= u && u <= 0x11da9)
    ||| (0x11f50 <= u && u <= 0x11f59)
    ||| (0x16130 <= u && u <= 0x16139)
    ||| (0x16a60 <= u && u <= 0x16a69)
    ||| (0x16ac0 <= u && u <= 0x16ac9)
    ||| (0x16b50 <= u && u <= 0x16b59)
    ||| (0x16d70 <= u && u <= 0x16d79)
    ||| (0x1ccf0 <= u && u <= 0x1ccf9)
    ||| (0x1d7ce <= u && u <= 0x1d7ff)
    ||| (0x1e140 <= u && u <= 0x1e149)
    ||| (0x1e2f0 <= u && u <= 0x1e2f9)
    ||| (0x1e4f0 <= u && u <= 0x1e4f9)
    ||| (0x1e5f1 <= u && u <= 0x1e5fa)
    ||| (0x1e950 <= u && u <= 0x1e959)
    ||| (0x1fbf0 <= u && u <= 0x1fbf9)
}

/// A whitespace character.
pub open spec fn is_space(c: char) -> bool {
    is_space_code(c as u32)
}

/// A decimal digit, of any script.
pub open spec fn is_decimal(c: char) -> bool {
    is_decimal_code(c as u32)
}

/// A line feed or a carriage return.
pub open spec fn is_line_end(c: char) -> bool {
    c == '\n' || c == '\r'
}

fn space_code(u: u32) -> (r: bool)
    ensures
        r == is_space_code(u),
{
    (0x9 <= u && u <= 0xd) || u == 0x20 || u == 0x85 || u == 0xa0 || u == 0x1680 || (0x2000 <= u
        && u <= 0x200a) || (0x2028 <= u && u <= 0x2029) || u == 0x202f || u == 0x205f || u
        == 0x3000
}

fn decimal_code(u: u32) -> (r: bool)
    ensures
        r == is_decimal_code(u),
{
        (0x30 <= u && u <= 0x39)
            || (0x660 <= u && u <= 0x669)
            || (0x6f0 <= u && u <= 0x6f9)
            || (0x7c0 <= u && u <= 0x7c9)
            || (0x966 <= u && u <= 0x96f)
            || (0x9e6 <= u && u <= 0x9ef)
            || (0xa66 <= u && u <= 0xa6f)
            || (0xae6 <= u && u <= 0xaef)
            || (0xb66 <= u && u <= 0xb6f)
            || (0xbe6 <= u && u <= 0xbef)
            || (0xc66 <= u && u <= 0xc6f)
            || (0xce6 <= u && u <= 0xcef)
            || (0xd66 <= u && u <= 0xd6f)
            || (0xde6 <= u && u <= 0xdef)
            || (0xe50 <= u && u <= 0xe59)
            || (0xed0 <= u && u <= 0xed9)
            || (0xf20 <= u && u <= 0xf29)
            || (0x1040 <= u && u <= 0x1049)
            || (0x1090 <= u && u <= 0x1099)
            || (0x17e0 <= u && u <= 0x17e9)
            || (0x1810 <= u && u <= 0x1819)
            || (0x1946 <= u && u <= 0x194f)
            || (0x19d0 <= u && u <= 0x19d9)
            || (0x1a80 <= u && u <= 0x1a89)
            || (0x1a90 <= u && u <= 0x1a99)
            || (0x1b50 <= u && u <= 0x1b59)
            || (0x1bb0 <= u && u <= 0x1bb9)
            || (0x1c40 <= u && u <= 0x1c49)
            || (0x1c50 <= u && u <= 0x1c59)
            || (0xa620 <= u && u <= 0xa629)
            || (0xa8d0 <= u && u <= 0xa8d9)
            || (0xa900 <= u && u <= 0xa909)
            || (0xa9d0 <= u && u <= 0xa9d9)
            || (0xa9f0 <= u && u <= 0xa9f9)
            || (0xaa50 <= u && u <= 0xaa59)
            || (0xabf0 <= u && u <= 0xabf9)
            || (0xff10 <= u && u <= 0xff19)
            || (0x104a0 <= u && u <= 0x104a9)
            || (0x10d30 <= u && u <= 0x10d39)
            || (0x10d40 <= u && u <= 0x10d49)
            || (0x11066 <= u && u <= 0x1106f)
            || (0x110f0 <= u && u <= 0x110f9)
            || (0x11136 <= u && u <= 0x1113f)
            || (0x111d0 <= u && u <= 0x111d9)
            || (0x112f0 <= u && u <= 0x112f9)
            || (0x11450 <= u && u <= 0x11459)
            || (0x114d0 <= u && u <= 0x114d9)
            || (0x11650 <= u && u <= 0x11659)
            || (0x116c0 <= u && u <= 0x116c9)
            || (0x116d0 <= u && u <= 0x116e3)
            || (0x11730 <= u && u <= 0x11739)
            || (0x118e0 <= u && u <= 0x118e9)
            || (0x11950 <= u && u <= 0x11959)
            || (0x11bf0 <= u && u <= 0x11bf9)
            || (0x11c50 <= u && u <= 0x11c59)
            || (0x11d50 <= u && u <= 0x11d59)
            || (0x11da0 <= u && u <= 0x11da9)
            || (0x11f50 <= u && u <= 0x11f59)
            || (0x16130 <= u && u <= 0x16139)
            || (0x16a60 <= u && u <= 0x16a69)
            || (0x16ac0 <= u && u <= 0x16ac9)
            || (0x16b50 <= u && u <= 0x16b59)
            || (0x16d70 <= u && u <= 0x16d79)
            || (0x1ccf0 <= u && u <= 0x1ccf9)
            || (0x1d7ce <= u && u <= 0x1d7ff)
            || (0x1e140 <= u && u <= 0x1e149)
            || (0x1e2f0 <= u && u <= 0x1e2f9)
            || (0x1e4f0 <= u && u <= 0x1e4f9)
            || (0x1e5f1 <= u && u <= 0x1e5fa)
            || (0x1e950 <= u && u <= 0x1e959)
            || (0x1fbf0 <= u && u <= 0x1fbf9)
}

/// Whether `c` is whitespace.
pub fn is_space_char(c: char) -> (r: bool)
    ensures
        r == is_space(c),
{
    space_code(c as u32)
}

/// Whether `c` is a decimal digit.
pub fn is_decimal_char(c: char) -> (r: bool)
    ensures
        r == is_decimal(c),
{
    decimal_code(c as u32)
}

/// No character is both a digit and whitespace.
pub proof fn lemma_decimal_not_space(c: char)
    ensures
        is_decimal(c) ==> !is_space(c),
{
}

// ---------------------------------------------------------------------------
// The shape of a listing line

/// At `q` stand a whitespace character, `bytes]` and a line end.
pub open spec fn bytes_tag_at(t: Seq<char>, q: int) -> bool {
    &&& 0 <= q && q + 8 <= t.len()
    &&& is_space(t[q])
    &&& t[q + 1] == 'b' && t[q + 2] == 'y' && t[q + 3] == 't' && t[q + 4] == 'e' && t[q + 5]
        == 's'
    &&& t[q + 6] == ']'
    &&& is_line_end(t[q + 7])
}

/// No line feed in `t[a..b]`.
pub open spec fn no_line_feed(t: Seq<char>, a: int, b: int) -> bool {
    forall|k: int| a <= k < b ==> t[k] != '\n'
}

/// A file entry read from `p`: the name `t[p..e]`, two whitespace characters
/// and `[` at `e`, the size text `t[e + 3..f]`, and the bytes tag at `f`.
pub open spec fn name_span(t: Seq<char>, p: int, e: int, f: int) -> bool {
    &&& 0 <= p <= e
    &&& e + 3 <= f
    &&& no_line_feed(t, p, e)
    &&& is_space(t[e])
    &&& is_space(t[e + 1])
    &&& t[e + 2] == '['
    &&& no_line_feed(t, e + 3, f)
    &&& bytes_tag_at(t, f)
}

/// Some file entry can be read from `p`.
pub open spec fn name_matches_at(t: Seq<char>, p: int) -> bool {
    exists|e: int, f: int| name_span(t, p, e, f)
}

/// The entry read from `p` with the longest name, and of those the one with
/// the longest size text.
pub open spec fn preferred_name_span(t: Seq<char>, p: int, e: int, f: int) -> bool {
    &&& name_span(t, p, e, f)
    &&& forall|e2: int, f2: int| name_span(t, p, e2, f2) ==> e2 < e || (e2 == e && f2 <= f)
}

/// The first entry at or after `pos`: it starts at the first position from
/// which an entry can be read, and is the preferred one there.
pub open spec fn first_name_span(t: Seq<char>, pos: int, p: int, e: int, f: int) -> bool {
    &&& pos <= p
    &&& preferred_name_span(t, p, e, f)
    &&& forall|p2: int| pos <= p2 < p ==> !name_matches_at(t, p2)
}

/// The file names of the entries of `t` from `pos` on: each entry is searched
/// for after the end of the previous one.
pub open spec fn name_fields_from(t: Seq<char>, pos: int) -> Seq<Seq<char>>
    decreases t.len() - pos,
{
    if exists|p: int, e: int, f: int| first_name_span(t, pos, p, e, f) {
        let (p, e, f) = choose|p: int, e: int, f: int| first_name_span(t, pos, p, e, f);
        seq![t.subrange(p, e)] + name_fields_from(t, f + 8)
    } else {
        seq![]
    }
}

/// The file names of a listing.
pub open spec fn name_fields(t: Seq<char>) -> Seq<Seq<char>> {
    name_fields_from(t, 0)
}

/// A size field `t[p..q]`: digits, then the bytes tag at `q`.
pub open spec fn size_span(t: Seq<char>, p: int, q: int) -> bool {
    &&& 0 <= p < q
    &&& forall|k: int| p <= k < q ==> is_decimal(#[trigger] t[k])
    &&& bytes_tag_at(t, q)
}

/// Some size field can be read from `p`.
pub open spec fn size_matches_at(t: Seq<char>, p: int) -> bool {
    exists|q: int| size_span(t, p, q)
}

/// The first size field at or after `pos`.
pub open spec fn first_size_span(t: Seq<char>, pos: int, p: int, q: int) -> bool {
    &&& pos <= p
    &&& size_span(t, p, q)
    &&& forall|p2: int| pos <= p2 < p ==> !size_matches_at(t, p2)
}

/// The sizes of the entries of `t` from `pos` on, each searched for after the
/// end of the previous one.
pub open spec fn size_fields_from(t: Seq<char>, pos: int) -> Seq<Seq<char>>
    decreases t.len() - pos,
{
    if exists|p: int, q: int| first_size_span(t, pos, p, q) {
        let (p, q) = choose|p: int, q: int| first_size_span(t, pos, p, q);
        seq![t.subrange(p, q)] + size_fields_from(t, q + 8)
    } else {
        seq![]
    }
}

/// The sizes of a listing.
pub open spec fn size_fields(t: Seq<char>) -> Seq<Seq<char>> {
    size_fields_from(t, 0)
}

// ---------------------------------------------------------------------------
// Searching

/// The first match from a position is unique.
proof fn lemma_first_name_unique(
    t: Seq<char>,
    pos: int,
    p: int,
    e: int,
    f: int,
    p2: int,
    e2: int,
    f2: int,
)
    requires
        first_name_span(t, pos, p, e, f),
        first_name_span(t, pos, p2, e2, f2),
    ensures
        p == p2 && e == e2 && f == f2,
{
    if p < p2 {
        assert(name_matches_at(t, p));
    } else if p2 < p {
        assert(name_matches_at(t, p2));
    }
}

/// Unfolds the names from `pos` at the first entry found there.
pub proof fn lemma_name_fields_step(t: Seq<char>, pos: int, p: int, e: int, f: int)
    requires
        first_name_span(t, pos, p, e, f),
    ensures
        name_fields_from(t, pos) == seq![t.subrange(p, e)] + name_fields_from(t, f + 8),
{
    let (p1, e1, f1) = choose|p1: int, e1: int, f1: int| first_name_span(t, pos, p1, e1, f1);
    lemma_first_name_unique(t, pos, p, e, f, p1, e1, f1);
}

/// The first size match from a position is unique.
proof fn lemma_first_size_unique(t: Seq<char>, pos: int, p: int, q: int, p2: int, q2: int)
    requires
        first_size_span(t, pos, p, q),
        first_size_span(t, pos, p2, q2),
    ensures
        p == p2 && q == q2,
{
    if p < p2 {
        assert(size_matches_at(t, p));
    } else if p2 < p {
        assert(size_matches_at(t, p2));
    } else {
        if q < q2 {
            assert(is_decimal(t[q]));
            lemma_decimal_not_space(t[q]);
        } else if q2 < q {
            assert(is_decimal(t[q2]));
            lemma_decimal_not_space(t[q2]);
        }
    }
}

/// Unfolds the sizes from `pos` at the first size found there.
pub proof fn lemma_size_fields_step(t: Seq<char>, pos: int, p: int, q: int)
    requires
        first_size_span(t, pos, p, q),
    ensures
        size_fields_from(t, pos) == seq![t.subrange(p, q)] + size_fields_from(t, q + 8),
{
    let (p1, q1) = choose|p1: int, q1: int| first_size_span(t, pos, p1, q1);
    lemma_first_size_unique(t, pos, p, q, p1, q1);
}

/// Whether the bytes tag stands at `q`.
fn bytes_tag(t: &Vec<char>, q: usize) -> (r: bool)
    ensures
        r == bytes_tag_at(t@, q as int),
{
    if q > t.len() || t.len() - q < 8 {
        return false;
    }
    is_space_char(t[q]) && t[q + 1] == 'b' && t[q + 2] == 'y' && t[q + 3] == 't' && t[q + 4]
        == 'e' && t[q + 5] == 's' && t[q + 6] == ']' && (t[q + 7] == '\n' || t[q + 7] == '\r')
}

/// The position of the first line feed at or after `a`, or the length.
fn line_end_from(t: &Vec<char>, a: usize) -> (l: usize)
    requires
        a <= t@.len(),
    ensures
        a <= l <= t@.len(),
        no_line_feed(t@, a as int, l as int),
        l < t@.len() ==> t@[l as int] == '\n',
{
    let mut l = a;
    while l < t.len() && t[l] != '\n'
        invariant
            a <= l <= t@.len(),
            no_line_feed(t@, a as int, l as int),
        decreases t@.len() - l,
    {
        l = l + 1;
    }
    l
}

/// The end of the longest size text of an entry whose `[` stands at `e + 2`.
fn best_size_text(t: &Vec<char>, e: usize) -> (r: Option<usize>)
    requires
        e + 3 <= t@.len(),
        t@.len() + 8 <= usize::MAX,
    ensures
        r matches Some(f) ==> e + 3 <= f && no_line_feed(t@, e + 3, f as int) && bytes_tag_at(
            t@,
            f as int,
        ) && forall|f2: int|
            f < f2 && no_line_feed(t@, e + 3, f2) ==> !bytes_tag_at(t@, f2),
        r is None ==> forall|f2: int|
            e + 3 <= f2 && no_line_feed(t@, e + 3, f2) ==> !bytes_tag_at(t@, f2),
{
    let l2 = line_end_from(t, e + 3);
    let mut f = l2 + 1;
    while f > e + 3
        invariant
            e + 3 <= f <= l2 + 1,
            e + 3 <= l2 <= t@.len(),
            no_line_feed(t@, e + 3, l2 as int),
            l2 < t@.len() ==> t@[l2 as int] == '\n',
            forall|f2: int| f <= f2 && no_line_feed(t@, e + 3, f2) ==> !bytes_tag_at(t@, f2),
            t@.len() + 8 <= usize::MAX,
        decreases f,
    {
        f = f - 1;
        if bytes_tag(t, f) {
            assert forall|k: int| e + 3 <= k < f implies t@[k] != '\n' by {
                assert(k < l2);
            }
            return Some(f);
        }
        assert forall|f2: int| f <= f2 && no_line_feed(t@, e + 3, f2) implies !bytes_tag_at(t@, f2) by {
            if f2 > l2 && l2 < t@.len() {
                assert(t@[l2 as int] == '\n');
            }
        }
    }
    None
}

/// The preferred entry that can be read from `p`, as the end of its name and
/// the position of its bytes tag.
fn best_name_span(t: &Vec<char>, p: usize) -> (r: Option<(usize, usize)>)
    requires
        p <= t@.len(),
        t@.len() + 8 <= usize::MAX,
    ensures
        r matches Some((e, f)) ==> preferred_name_span(t@, p as int, e as int, f as int),
        r is None ==> !name_matches_at(t@, p as int),
{
    let l = line_end_from(t, p);
    let mut e = l + 1;
    while e > p
        invariant
            p <= e <= l + 1,
            p <= l <= t@.len(),
            no_line_feed(t@, p as int, l as int),
            l < t@.len() ==> t@[l as int] == '\n',
            forall|e2: int, f2: int| e <= e2 ==> !name_span(t@, p as int, e2, f2),
            t@.len() + 8 <= usize::MAX,
        decreases e,
    {
        e = e - 1;
        if e + 3 <= t.len() && is_space_char(t[e]) && is_space_char(t[e + 1]) && t[e + 2] == '[' {
            match best_size_text(t, e) {
                Some(f) => {
                    assert(no_line_feed(t@, p as int, e as int));
                    return Some((e, f));
                },
                None => {},
            }
        }
        assert forall|e2: int, f2: int| e <= e2 implies !name_span(t@, p as int, e2, f2) by {
            if e2 > l && l < t@.len() {
                assert(t@[l as int] == '\n');
            }
        }
    }
    assert forall|e2: int, f2: int| #![auto] true implies !name_span(t@, p as int, e2, f2) by {
        if e2 < p {
        }
    }
    None
}

/// The first entry at or after `pos`, as the start and end of its name and
/// the position of its bytes tag.
fn find_name_span(t: &Vec<char>, pos: usize) -> (r: Option<(usize, usize, usize)>)
    requires
        pos <= t@.len(),
        t@.len() + 8 <= usize::MAX,
    ensures
        r matches Some((p, e, f)) ==> first_name_span(t@, pos as int, p as int, e as int, f as int),
        r is None ==> !exists|p: int, e: int, f: int| first_name_span(t@, pos as int, p, e, f),
{
    let mut p = pos;
    while p < t.len()
        invariant
            pos <= p <= t@.len(),
            forall|p2: int| pos <= p2 < p ==> !name_matches_at(t@, p2),
            t@.len() + 8 <= usize::MAX,
        decreases t@.len() - p,
    {
        match best_name_span(t, p) {
            Some((e, f)) => {
                return Some((p, e, f));
            },
            None => {},
        }
        p = p + 1;
    }
    assert forall|p2: int, e2: int, f2: int| first_name_span(t@, pos as int, p2, e2, f2) implies false by {
        if p2 >= t@.len() {
            assert(name_span(t@, p2, e2, f2));
        } else {
            assert(name_matches_at(t@, p2));
        }
    }
    None
}

/// The size field that can be read from `p`, as the end of its digits.
fn size_span_at(t: &Vec<char>, p: usize) -> (r: Option<usize>)
    requires
        p <= t@.len(),
        t@.len() + 8 <= usize::MAX,
    ensures
        r matches Some(q) ==> size_span(t@, p as int, q as int),
        r is None ==> !size_matches_at(t@, p as int),
{
    if p == t.len() || !is_decimal_char(t[p]) {
        return None;
    }
    let mut q = p + 1;
    while q < t.len() && is_decimal_char(t[q])
        invariant
            p < q <= t@.len(),
            forall|k: int| p <= k < q ==> is_decimal(#[trigger] t@[k]),
            t@.len() + 8 <= usize::MAX,
        decreases t@.len() - q,
    {
        q = q + 1;
    }
    if bytes_tag(t, q) {
        return Some(q);
    }
    assert forall|q2: int| !size_span(t@, p as int, q2) by {
        if size_span(t@, p as int, q2) {
            if q2 < q {
                assert(is_decimal(t@[q2]));
                lemma_decimal_not_space(t@[q2]);
            } else if q2 > q {
                assert(is_decimal(t@[q as int]));
            }
        }
    }
    None
}

/// The first size field at or after `pos`, as its start and the end of its
/// digits.
fn find_size_span(t: &Vec<char>, pos: usize) -> (r: Option<(usize, usize)>)
    requires
        pos <= t@.len(),
        t@.len() + 8 <= usize::MAX,
    ensures
        r matches Some((p, q)) ==> first_size_span(t@, pos as int, p as int, q as int),
        r is None ==> !exists|p: int, q: int| first_size_span(t@, pos as int, p, q),
{
    let mut p = pos;
    while p < t.len()
        invariant
            pos <= p <= t@.len(),
            forall|p2: int| pos <= p2 < p ==> !size_matches_at(t@, p2),
            t@.len() + 8 <= usize::MAX,
        decreases t@.len() - p,
    {
        match size_span_at(t, p) {
            Some(q) => {
                return Some((p, q));
            },
            None => {},
        }
        p = p + 1;
    }
    assert forall|p2: int, q2: int| first_size_span(t@, pos as int, p2, q2) implies false by {
        if p2 >= t@.len() {
            assert(size_span(t@, p2, q2));
        } else {
            assert(size_matches_at(t@, p2));
        }
    }
    None
}

/// The texts of a sequence of strings.
pub open spec fn texts(v: Seq<String>) -> Seq<Seq<char>> {
    v.map_values(|s: String| s@)
}

/// The file names listed in `text`, in order.
pub fn file_name_fields(text: &str) -> (r: Vec<String>)
    requires
        text@.len() + 8 <= usize::MAX,
    ensures
        texts(r@) == name_fields(text@),
{
    let t = chars_vec(text);
    let mut out: Vec<String> = Vec::new();
    let mut pos: usize = 0;
    let mut done = false;
    while !done
        invariant
            t@ == text@,
            t@.len() + 8 <= usize::MAX,
            pos <= t@.len(),
            done ==> name_fields_from(t@, pos as int) == Seq::<Seq<char>>::empty(),
            texts(out@) + name_fields_from(t@, pos as int) == name_fields(t@),
        decreases 2 * (t@.len() - pos) + if done {
            0int
        } else {
            1int
        },
    {
        match find_name_span(&t, pos) {
            Some((p, e, f)) => {
                proof {
                    lemma_name_fields_step(t@, pos as int, p as int, e as int, f as int);
                }
                let name = text.substring_char(p, e).to_owned();
                let ghost before = out@;
                out.push(name);
                proof {
                    assert(texts(out@) =~= texts(before).push(t@.subrange(p as int, e as int)));
                    assert(texts(out@) + name_fields_from(t@, f + 8) =~= texts(before) + (seq![
                        t@.subrange(p as int, e as int),
                    ] + name_fields_from(t@, f + 8)));
                }
                pos = f + 8;
            },
            None => {
                done = true;
            },
        }
    }
    assert(texts(out@) + Seq::<Seq<char>>::empty() =~= texts(out@));
    out
}

/// The file sizes listed in `text`, in order.
pub fn file_size_fields(text: &str) -> (r: Vec<String>)
    requires
        text@.len() + 8 <= usize::MAX,
    ensures
        texts(r@) == size_fields(text@),
{
    let t = chars_vec(text);
    let mut out: Vec<String> = Vec::new();
    let mut pos: usize = 0;
    let mut done = false;
    while !done
        invariant
            t@ == text@,
            t@.len() + 8 <= usize::MAX,
            pos <= t@.len(),
            done ==> size_fields_from(t@, pos as int) == Seq::<Seq<char>>::empty(),
            texts(out@) + size_fields_from(t@, pos as int) == size_fields(t@),
        decreases 2 * (t@.len() - pos) + if done {
            0int
        } else {
            1int
        },
    {
        match find_size_span(&t, pos) {
            Some((p, q)) => {
                proof {
                    lemma_size_fields_step(t@, pos as int, p as int, q as int);
                }
                let size = text.substring_char(p, q).to_owned();
                let ghost before = out@;
                out.push(size);
                proof {
                    assert(texts(out@) =~= texts(before).push(t@.subrange(p as int, q as int)));
                    assert(texts(out@) + size_fields_from(t@, q + 8) =~= texts(before) + (seq![
                        t@.subrange(p as int, q as int),
                    ] + size_fields_from(t@, q + 8)));
                }
                pos = q + 8;
            },
            None => {
                done = true;
            },
        }
    }
    assert(texts(out@) + Seq::<Seq<char>>::empty() =~= texts(out@));
    out
}

// ---------------------------------------------------------------------------
// Entries

/// A file of the remote directory: its name and its size, as listed.
pub struct RemoteFileList {
    pub f_name: String,
    pub f_size: String,
}

impl View for RemoteFileList {
    type V = (Seq<char>, Seq<char>);

    open spec fn view(&self) -> (Seq<char>, Seq<char>) {
        (self.f_name@, self.f_size@)
    }
}

/// The views of a sequence of entries.
pub open spec fn entry_views(v: Seq<RemoteFileList>) -> Seq<(Seq<char>, Seq<char>)> {
    v.map_values(|e: RemoteFileList| e@)
}

/// The entries of a listing: one per file name, in order, the i-th paired
/// with the i-th size, or with an empty size where fewer sizes were found.
pub open spec fn listing_entries(t: Seq<char>) -> Seq<(Seq<char>, Seq<char>)> {
    Seq::new(
        name_fields(t).len(),
        |i: int|
            (name_fields(t)[i], if i < size_fields(t).len() {
                size_fields(t)[i]
            } else {
                Seq::<char>::empty()
            }),
    )
}

/// Pairs names with sizes by position.
fn pair_fields(names: &Vec<String>, sizes: &Vec<String>) -> (r: Vec<RemoteFileList>)
    ensures
        r@.len() == names@.len(),
        forall|i: int|
            0 <= i < names@.len() ==> #[trigger] r@[i]@ == (names@[i]@, if i < sizes@.len() {
                sizes@[i]@
            } else {
                Seq::<char>::empty()
            }),
{
    let mut out: Vec<RemoteFileList> = Vec::new();
    let mut i: usize = 0;
    while i < names.len()
        invariant
            i <= names@.len(),
            out@.len() == i,
            forall|j: int|
                0 <= j < i ==> #[trigger] out@[j]@ == (names@[j]@, if j < sizes@.len() {
                    sizes@[j]@
                } else {
                    Seq::<char>::empty()
                }),
        decreases names@.len() - i,
    {
        let f_size = if i < sizes.len() {
            sizes[i].clone()
        } else {
            String::new()
        };
        out.push(RemoteFileList { f_name: names[i].clone(), f_size });
        i = i + 1;
    }
    out
}

/// Reads the entries of the remote listing: the file names in order, each
/// with the size found at the same rank. There must be no more sizes than
/// names.
pub fn format_response(remote_list: &String) -> (r: Vec<RemoteFileList>)
    requires
        remote_list@.len() + 8 <= usize::MAX,
        size_fields(remote_list@).len() <= name_fields(remote_list@).len(),
    ensures
        entry_views(r@) == listing_entries(remote_list@),
{
    let names = file_name_fields(remote_list.as_str());
    let sizes = file_size_fields(remote_list.as_str());
    let r = pair_fields(&names, &sizes);
    assert(entry_views(r@) =~= listing_entries(remote_list@));
    r
}

/// Like `format_response`, but answers `None` on a listing with more sizes
/// than names instead of requiring the caller to rule it out.
pub fn try_format_response(remote_list: &String) -> (r: Option<Vec<RemoteFileList>>)
    requires
        remote_list@.len() + 8 <= usize::MAX,
    ensures
        r is Some <==> size_fields(remote_list@).len() <= name_fields(remote_list@).len(),
        r matches Some(v) ==> entry_views(v@) == listing_entries(remote_list@),
{
    let names = file_name_fields(remote_list.as_str());
    let sizes = file_size_fields(remote_list.as_str());
    if sizes.len() > names.len() {
        return None;
    }
    let r = pair_fields(&names, &sizes);
    assert(entry_views(r@) =~= listing_entries(remote_list@));
    Some(r)
}

} // verus!
