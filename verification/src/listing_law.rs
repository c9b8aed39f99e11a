//! The listing the server sends, and the law that the listing parser reads
//! it back entry for entry.

use vstd::prelude::*;
use crate::listing::{
    bytes_tag_at, first_name_span, first_size_span, is_decimal, is_line_end, is_space,
    listing_entries, name_fields, name_fields_from, name_matches_at, name_span, no_line_feed,
    preferred_name_span, size_fields, size_fields_from, size_matches_at, size_span,
    lemma_name_fields_step, lemma_size_fields_step,
};

verus! {

/// The tag that ends a listing line after the size.
pub open spec fn bytes_tag() -> Seq<char> {
    seq![' ', 'b', 'y', 't', 'e', 's', ']', '\n']
}

/// The line that lists a file: `name  [size bytes]` and a line feed.
pub open spec fn listing_line(name: Seq<char>, size: Seq<char>) -> Seq<char> {
    name + seq![' ', ' ', '['] + size + bytes_tag()
}

/// A listing of the given entries, one line each.
pub open spec fn render_listing(entries: Seq<(Seq<char>, Seq<char>)>) -> Seq<char>
    decreases entries.len(),
{
    if entries.len() == 0 {
        Seq::empty()
    } else {
        listing_line(entries[0].0, entries[0].1) + render_listing(entries.drop_first())
    }
}

/// A name that the listing carries unambiguously: not empty, and without
/// whitespace.
pub open spec fn plain_name(name: Seq<char>) -> bool {
    name.len() > 0 && forall|i: int| 0 <= i < name.len() ==> !is_space(#[trigger] name[i])
}

/// A size written in ASCII digits.
pub open spec fn plain_size(size: Seq<char>) -> bool {
    size.len() > 0 && forall|i: int| 0 <= i < size.len() ==> '0' <= #[trigger] size[i] <= '9'
}

/// An entry that the listing carries unambiguously.
pub open spec fn plain_entry(e: (Seq<char>, Seq<char>)) -> bool {
    plain_name(e.0) && plain_size(e.1)
}

/// What follows a line at `j` in `t`: nothing, or a plain name followed by a
/// space.
pub open spec fn next_line_ok(t: Seq<char>, j: int, next: Seq<char>) -> bool {
    j == t.len() || (plain_name(next) && j + next.len() + 1 <= t.len() && t.subrange(
        j,
        j + next.len() + 1,
    ) == next.push(' '))
}

/// No bytes tag can stand where a plain name followed by a space begins.
proof fn lemma_no_tag_at_name(t: Seq<char>, j: int, next: Seq<char>)
    requires
        0 <= j,
        j < t.len(),
        next_line_ok(t, j, next),
    ensures
        !bytes_tag_at(t, j - 1),
{
    if bytes_tag_at(t, j - 1) {
        let k: int = next.len() as int;
        assert(t.subrange(j, j + k + 1)[k] == ' ');
        assert(t[j + k] == ' ');
        if k > 6 {
            assert(t.subrange(j, j + k + 1)[6] == next[6]);
            assert(!is_space(next[6]));
        } else {
            assert(t[j + k] == ' ');
            assert(t[j - 1 + (k + 1)] == ' ');
        }
    }
}

/// The characters of a listing line standing at `pos` in `t`.
proof fn lemma_line_chars(t: Seq<char>, pos: int, name: Seq<char>, size: Seq<char>)
    requires
        0 <= pos,
        pos + listing_line(name, size).len() <= t.len(),
        t.subrange(pos, pos + listing_line(name, size).len()) == listing_line(name, size),
    ensures
        forall|i: int| 0 <= i < name.len() ==> t[pos + i] == #[trigger] name[i],
        t[pos + name.len()] == ' ',
        t[pos + name.len() + 1] == ' ',
        t[pos + name.len() + 2] == '[',
        forall|i: int| 0 <= i < size.len() ==> t[pos + name.len() + 3 + i] == #[trigger] size[i],
        forall|i: int|
            0 <= i < 8 ==> t[pos + name.len() + 3 + size.len() + i] == #[trigger] bytes_tag()[i],
{
    let line = listing_line(name, size);
    assert forall|i: int| 0 <= i < line.len() implies t[pos + i] == #[trigger] line[i] by {
        assert(t.subrange(pos, pos + line.len())[i] == line[i]);
    }
    assert forall|i: int| 0 <= i < name.len() implies t[pos + i] == #[trigger] name[i] by {
        assert(line[i] == name[i]);
    }
    assert(line[name.len() as int] == ' ');
    assert(line[name.len() + 1int] == ' ');
    assert(line[name.len() + 2int] == '[');
    assert forall|i: int| 0 <= i < size.len() implies t[pos + name.len() + 3 + i]
        == #[trigger] size[i] by {
        assert(line[name.len() + 3 + i] == size[i]);
    }
    assert forall|i: int| 0 <= i < 8 implies t[pos + name.len() + 3 + size.len() + i]
        == #[trigger] bytes_tag()[i] by {
        assert(line[name.len() + 3 + size.len() + i] == bytes_tag()[i]);
    }
}

/// A plain line's entry is the first, and only, one read from its start.
#[verifier::spinoff_prover]
#[verifier::rlimit(40)]
proof fn lemma_line_first_name(
    t: Seq<char>,
    pos: int,
    name: Seq<char>,
    size: Seq<char>,
    next: Seq<char>,
)
    requires
        plain_name(name),
        plain_size(size),
        0 <= pos,
        pos + listing_line(name, size).len() <= t.len(),
        t.subrange(pos, pos + listing_line(name, size).len()) == listing_line(name, size),
        next_line_ok(t, pos + listing_line(name, size).len(), next),
    ensures
        first_name_span(
            t,
            pos,
            pos,
            pos + name.len(),
            pos + name.len() + 3 + size.len(),
        ),
{
    lemma_line_chars(t, pos, name, size);
    let e = pos + name.len();
    let f = e + 3 + size.len();
    let l = f + 7;
    let j = l + 1;
    assert(j == pos + listing_line(name, size).len());
    assert(t[f] == ' ' && t[f + 1] == 'b' && t[f + 6] == ']' && t[l] == '\n') by {
        assert(t[f + 0] == bytes_tag()[0]);
        assert(t[f + 1] == bytes_tag()[1]);
        assert(t[f + 6] == bytes_tag()[6]);
        assert(t[f + 7] == bytes_tag()[7]);
    }
    assert(bytes_tag_at(t, f)) by {
        assert(t[f + 2] == bytes_tag()[2]);
        assert(t[f + 3] == bytes_tag()[3]);
        assert(t[f + 4] == bytes_tag()[4]);
        assert(t[f + 5] == bytes_tag()[5]);
    }
    assert(no_line_feed(t, pos, e)) by {
        assert forall|k: int| pos <= k < e implies t[k] != '\n' by {
            assert(t[k] == name[k - pos]);
            assert(!is_space(name[k - pos]));
        }
    }
    assert(no_line_feed(t, e + 3, f)) by {
        assert forall|k: int| e + 3 <= k < f implies t[k] != '\n' by {
            assert(t[k] == size[k - e - 3]);
        }
    }
    assert(name_span(t, pos, e, f));
    assert forall|e2: int, f2: int| name_span(t, pos, e2, f2) implies e2 == e && f2 == f by {
        // The name ends at whitespace before the line feed that closes the line.
        if e2 > l {
            assert(t[l] == '\n');
        }
        if e2 < e {
            assert(t[e2] == name[e2 - pos]);
        } else if e2 == e + 1 {
            assert(t[e2 + 2] == size[0]);
        } else if e + 2 <= e2 < f {
            if e2 == e + 2 {
            } else {
                assert(t[e2] == size[e2 - e - 3]);
            }
        } else if e2 == f {
        } else if f < e2 < l {
            assert(t[e2] == bytes_tag()[e2 - f]);
        } else if e2 == l {
            if j < t.len() {
                assert(t.subrange(j, j + next.len() + 1)[0] == next[0]);
                assert(!is_space(next[0]));
            }
        }
        assert(e2 == e);
        // The size text ends at whitespace before the same line feed.
        if f2 > l {
            assert(t[l] == '\n');
        }
        if f2 < f {
            assert(t[f2] == size[f2 - e - 3]);
        } else if f < f2 < l {
            assert(t[f2] == bytes_tag()[f2 - f]);
        } else if f2 == l {
            if j < t.len() {
                lemma_no_tag_at_name(t, j, next);
            }
        }
    }
    assert(preferred_name_span(t, pos, e, f));
}

/// A plain line's size is the first size read from its start.
#[verifier::spinoff_prover]
#[verifier::rlimit(40)]
proof fn lemma_line_first_size(t: Seq<char>, pos: int, name: Seq<char>, size: Seq<char>)
    requires
        plain_name(name),
        plain_size(size),
        0 <= pos,
        pos + listing_line(name, size).len() <= t.len(),
        t.subrange(pos, pos + listing_line(name, size).len()) == listing_line(name, size),
    ensures
        first_size_span(t, pos, pos + name.len() + 3, pos + name.len() + 3 + size.len()),
{
    lemma_line_chars(t, pos, name, size);
    let e = pos + name.len();
    let f = e + 3 + size.len();
    assert(bytes_tag_at(t, f)) by {
        assert(t[f + 0] == bytes_tag()[0]);
        assert(t[f + 1] == bytes_tag()[1]);
        assert(t[f + 2] == bytes_tag()[2]);
        assert(t[f + 3] == bytes_tag()[3]);
        assert(t[f + 4] == bytes_tag()[4]);
        assert(t[f + 5] == bytes_tag()[5]);
        assert(t[f + 6] == bytes_tag()[6]);
        assert(t[f + 7] == bytes_tag()[7]);
    }
    assert forall|k: int| e + 3 <= k < f implies is_decimal(#[trigger] t[k]) by {
        assert(t[k] == size[k - e - 3]);
    }
    assert(size_span(t, e + 3, f));
    assert forall|p2: int| pos <= p2 < e + 3 implies !size_matches_at(t, p2) by {
        if size_matches_at(t, p2) {
            let q = choose|q: int| size_span(t, p2, q);
            assert(size_span(t, p2, q));
            if p2 < e {
                if q < e {
                    assert(t[q] == name[q - pos]);
                } else if q == e {
                    assert(t[q + 1] == ' ');
                } else {
                    assert(is_decimal(t[e]));
                }
            } else {
                assert(is_decimal(t[p2]));
            }
        }
    }
}

/// The names of a sequence of entries.
pub open spec fn entry_names(entries: Seq<(Seq<char>, Seq<char>)>) -> Seq<Seq<char>> {
    entries.map_values(|e: (Seq<char>, Seq<char>)| e.0)
}

/// The sizes of a sequence of entries.
pub open spec fn entry_sizes(entries: Seq<(Seq<char>, Seq<char>)>) -> Seq<Seq<char>> {
    entries.map_values(|e: (Seq<char>, Seq<char>)| e.1)
}

/// Nothing is read from the end of a text.
proof fn lemma_fields_at_end(t: Seq<char>)
    ensures
        name_fields_from(t, t.len() as int) == Seq::<Seq<char>>::empty(),
        size_fields_from(t, t.len() as int) == Seq::<Seq<char>>::empty(),
{
    let pos = t.len() as int;
    assert forall|p: int, e: int, f: int| !first_name_span(t, pos, p, e, f) by {
        if first_name_span(t, pos, p, e, f) {
            assert(name_span(t, p, e, f));
        }
    }
    assert forall|p: int, q: int| !first_size_span(t, pos, p, q) by {
        if first_size_span(t, pos, p, q) {
            assert(size_span(t, p, q));
        }
    }
}

/// The first rendered line of `entries` at `pos`, and what follows it.
#[verifier::spinoff_prover]
#[verifier::rlimit(40)]
proof fn lemma_render_first_line(t: Seq<char>, pos: int, entries: Seq<(Seq<char>, Seq<char>)>)
    requires
        entries.len() > 0,
        forall|i: int| 0 <= i < entries.len() ==> plain_entry(#[trigger] entries[i]),
        0 <= pos,
        pos + render_listing(entries).len() == t.len(),
        t.subrange(pos, t.len() as int) == render_listing(entries),
    ensures
        ({
            let line = listing_line(entries[0].0, entries[0].1);
            let rest = entries.drop_first();
            let j = pos + line.len();
            let next = if rest.len() > 0 {
                rest[0].0
            } else {
                Seq::empty()
            };
            &&& j + render_listing(rest).len() == t.len()
            &&& t.subrange(pos, j) == line
            &&& t.subrange(j, t.len() as int) == render_listing(rest)
            &&& next_line_ok(t, j, next)
        }),
{
    let (name, size) = entries[0];
    let line = listing_line(name, size);
    let rest = entries.drop_first();
    let r = render_listing(rest);
    assert(render_listing(entries) == line + r);
    let j = pos + line.len();
    let u = t.subrange(pos, t.len() as int);
    assert(t.subrange(pos, j) =~= line) by {
        assert forall|i: int| 0 <= i < line.len() implies t.subrange(pos, j)[i] == line[i] by {
            assert(u[i] == (line + r)[i]);
        }
    }
    assert(t.subrange(j, t.len() as int) =~= r) by {
        assert forall|i: int| 0 <= i < r.len() implies t.subrange(j, t.len() as int)[i]
            == r[i] by {
            assert(u[line.len() + i] == (line + r)[line.len() + i]);
        }
    }
    if rest.len() > 0 {
        assert(plain_entry(rest[0])) by {
            assert(rest[0] == entries[1]);
        }
        let (n2, s2) = rest[0];
        assert(r == listing_line(n2, s2) + render_listing(rest.drop_first()));
        let w = t.subrange(j, t.len() as int);
        assert(t.subrange(j, j + n2.len() + 1) =~= n2.push(' ')) by {
            assert forall|i: int| 0 <= i < n2.len() + 1 implies t.subrange(j, j + n2.len() + 1)[i]
                == n2.push(' ')[i] by {
                assert(w[i] == r[i]);
                assert(r[i] == listing_line(n2, s2)[i]);
            }
        }
    }
}

/// The name and the size of a listing line standing at `pos` in `t`.
proof fn lemma_line_fields(t: Seq<char>, pos: int, name: Seq<char>, size: Seq<char>)
    requires
        0 <= pos,
        pos + listing_line(name, size).len() <= t.len(),
        t.subrange(pos, pos + listing_line(name, size).len()) == listing_line(name, size),
    ensures
        t.subrange(pos, pos + name.len()) == name,
        t.subrange(pos + name.len() + 3, pos + name.len() + 3 + size.len()) == size,
{
    lemma_line_chars(t, pos, name, size);
    assert(t.subrange(pos, pos + name.len()) =~= name);
    assert(t.subrange(pos + name.len() + 3, pos + name.len() + 3 + size.len()) =~= size);
}

/// Reading one plain line: its name and size come first, then what follows
/// the line.
#[verifier::spinoff_prover]
#[verifier::rlimit(40)]
proof fn lemma_one_line(t: Seq<char>, pos: int, name: Seq<char>, size: Seq<char>, next: Seq<char>)
    requires
        plain_name(name),
        plain_size(size),
        0 <= pos,
        pos + listing_line(name, size).len() <= t.len(),
        t.subrange(pos, pos + listing_line(name, size).len()) == listing_line(name, size),
        next_line_ok(t, pos + listing_line(name, size).len(), next),
    ensures
        name_fields_from(t, pos) == seq![name] + name_fields_from(
            t,
            pos + listing_line(name, size).len(),
        ),
        size_fields_from(t, pos) == seq![size] + size_fields_from(
            t,
            pos + listing_line(name, size).len(),
        ),
{
    lemma_line_first_name(t, pos, name, size, next);
    lemma_line_first_size(t, pos, name, size);
    let e = pos + name.len();
    let f = e + 3 + size.len();
    lemma_name_fields_step(t, pos, pos, e, f);
    lemma_size_fields_step(t, pos, e + 3, f);
    lemma_line_fields(t, pos, name, size);
}

/// Reading the rendered entries that end `t` from where they start.
#[verifier::spinoff_prover]
#[verifier::rlimit(40)]
proof fn lemma_fields_of_render(t: Seq<char>, pos: int, entries: Seq<(Seq<char>, Seq<char>)>)
    requires
        forall|i: int| 0 <= i < entries.len() ==> plain_entry(#[trigger] entries[i]),
        0 <= pos,
        pos + render_listing(entries).len() == t.len(),
        t.subrange(pos, t.len() as int) == render_listing(entries),
    ensures
        name_fields_from(t, pos) == entry_names(entries),
        size_fields_from(t, pos) == entry_sizes(entries),
    decreases entries.len(),
{
    if entries.len() == 0 {
        lemma_fields_at_end(t);
        assert(entry_names(entries) =~= Seq::<Seq<char>>::empty());
        assert(entry_sizes(entries) =~= Seq::<Seq<char>>::empty());
    } else {
        let (name, size) = entries[0];
        assert(plain_entry(entries[0]));
        let rest = entries.drop_first();
        let j = pos + listing_line(name, size).len();
        let next = if rest.len() > 0 {
            rest[0].0
        } else {
            Seq::empty()
        };
        lemma_render_first_line(t, pos, entries);
        lemma_one_line(t, pos, name, size, next);
        assert forall|i: int| 0 <= i < rest.len() implies plain_entry(#[trigger] rest[i]) by {
            assert(rest[i] == entries[i + 1]);
        }
        lemma_fields_of_render(t, j, rest);
        assert(entry_names(entries) =~= seq![name] + entry_names(rest));
        assert(entry_sizes(entries) =~= seq![size] + entry_sizes(rest));
    }
}

/// Law: the listing parser reads back every entry of a listing the server
/// renders, in order, each name with its own size, as long as names are not
/// empty and hold no whitespace and sizes are written in ASCII digits.
pub proof fn law_listing_round_trip(entries: Seq<(Seq<char>, Seq<char>)>)
    requires
        forall|i: int| 0 <= i < entries.len() ==> plain_entry(#[trigger] entries[i]),
    ensures
        name_fields(render_listing(entries)) == entry_names(entries),
        size_fields(render_listing(entries)) == entry_sizes(entries),
        listing_entries(render_listing(entries)) == entries,
{
    let t = render_listing(entries);
    assert(t.subrange(0, t.len() as int) =~= t);
    lemma_fields_of_render(t, 0, entries);
    assert(listing_entries(t) =~= entries);
}

} // verus!
