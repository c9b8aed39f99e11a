//! Names of files on the client side: where a downloaded file is stored and
//! how a stored file's name is read back from its path.

use vstd::prelude::*;
use vstd::string::*;
use crate::text::chars_vec;

verus! {

broadcast use vstd::string::group_string_axioms;

/// The directory, relative to the working directory, that holds the client's
/// shared files, as written before a file name.
pub open spec fn shared_dir() -> Seq<char> {
    seq!['.', '/', 's', 'r', 'c', '/', 's', 'h', 'a', 'r', 'e', 'd', '/']
}

/// The text removed from a listed path to recover the file's name.
pub open spec fn shared_root() -> Seq<char> {
    shared_dir().drop_last()
}

/// Where a downloaded file of the given name is stored.
pub fn shared_path(file_name: &str) -> (r: String)
    ensures
        r@ == shared_dir() + file_name@,
{
    let mut fullname = String::from_str("./src/shared/");
    proof {
        reveal_strlit("./src/shared/");
        assert("./src/shared/"@ =~= shared_dir());
    }
    fullname.append(file_name);
    fullname
}

/// `pat` occurs in `s` at position `i`.
pub open spec fn occurs_at(s: Seq<char>, pat: Seq<char>, i: int) -> bool {
    0 <= i && i + pat.len() <= s.len() && s.subrange(i, i + pat.len()) == pat
}

/// `s` with every occurrence of the non-empty `pat` removed, the occurrences
/// being taken from left to right without overlapping.
pub open spec fn remove_all(s: Seq<char>, pat: Seq<char>) -> Seq<char>
    decreases s.len(),
{
    if s.len() == 0 || pat.len() == 0 {
        s
    } else if occurs_at(s, pat, 0) {
        remove_all(s.skip(pat.len() as int), pat)
    } else {
        seq![s[0]] + remove_all(s.skip(1), pat)
    }
}

/// Whether `pat` occurs in `chars` at `i`.
fn occurs_at_exec(chars: &Vec<char>, pat: &Vec<char>, i: usize) -> (r: bool)
    requires
        i <= chars@.len(),
    ensures
        r == occurs_at(chars@, pat@, i as int),
{
    if pat.len() > chars.len() - i {
        return false;
    }
    let mut k: usize = 0;
    while k < pat.len()
        invariant
            k <= pat@.len(),
            i + pat@.len() <= chars@.len(),
            forall|j: int| 0 <= j < k ==> chars@[i + j] == pat@[j],
        decreases pat@.len() - k,
    {
        assert(i + k < chars.len());
        if chars[i + k] != pat[k] {
            assert(chars@.subrange(i as int, i + pat@.len())[k as int] != pat@[k as int]);
            return false;
        }
        k = k + 1;
    }
    assert(chars@.subrange(i as int, i + pat@.len()) =~= pat@);
    true
}

/// Removes every occurrence of `pat` from `s`, as `str::replace(s, pat, "")`
/// does.
pub fn remove_occurrences(s: &str, pat: &str) -> (r: String)
    ensures
        r@ == remove_all(s@, pat@),
{
    let chars = chars_vec(s);
    let pat_chars = chars_vec(pat);
    let m = pat_chars.len();
    if m == 0 {
        return s.to_owned();
    }
    let mut out = String::new();
    let mut start: usize = 0;
    let mut i: usize = 0;
    proof {
        assert(chars@.skip(0) =~= chars@);
        assert(out@ + chars@.subrange(0, 0) =~= Seq::<char>::empty());
        assert(Seq::<char>::empty() + remove_all(s@, pat@) =~= remove_all(s@, pat@));
    }
    while i < chars.len()
        invariant
            chars@ == s@,
            pat_chars@ == pat@,
            m == pat@.len(),
            m > 0,
            start <= i <= chars@.len(),
            out@ + chars@.subrange(start as int, i as int) + remove_all(chars@.skip(i as int), pat@)
                == remove_all(s@, pat@),
        decreases chars@.len() - i,
    {
        let ghost rest = chars@.skip(i as int);
        if occurs_at_exec(&chars, &pat_chars, i) {
            proof {
                assert(rest.subrange(0, m as int) =~= chars@.subrange(i as int, i + m));
                assert(occurs_at(rest, pat@, 0));
                assert(rest.skip(m as int) =~= chars@.skip(i + m));
            }
            let run = s.substring_char(start, i);
            out.append(run);
            i = i + m;
            start = i;
            proof {
                assert(chars@.subrange(start as int, i as int) =~= Seq::<char>::empty());
            }
        } else {
            proof {
                if occurs_at(rest, pat@, 0) {
                    assert(rest.subrange(0, m as int) =~= chars@.subrange(i as int, i + m));
                }
                assert(rest.skip(1) =~= chars@.skip(i + 1));
                assert(chars@.subrange(start as int, i + 1) =~= chars@.subrange(
                    start as int,
                    i as int,
                ).push(rest[0]));
            }
            i = i + 1;
        }
    }
    let run = s.substring_char(start, i);
    out.append(run);
    proof {
        assert(chars@.skip(i as int) =~= Seq::<char>::empty());
    }
    out
}

/// The name under which a stored file is listed: its path without the shared
/// directory, and without the separator that followed it.
pub open spec fn local_name(path: Seq<char>) -> Seq<char> {
    remove_all(path, shared_root()).drop_first()
}

/// Whether `local_file_name` accepts `path`: something must remain once the
/// shared directory is removed, and it must begin with an ASCII character.
pub open spec fn local_name_ok(path: Seq<char>) -> bool {
    let rest = remove_all(path, shared_root());
    rest.len() >= 1 && (rest[0] as u32) < 128
}

/// Recovers a stored file's name from its path.
pub fn local_file_name(fullpath: &str) -> (r: String)
    requires
        local_name_ok(fullpath@),
    ensures
        r@ == local_name(fullpath@),
{
    proof {
        reveal_strlit("./src/shared");
        assert("./src/shared"@ =~= shared_root());
    }
    let filename = remove_occurrences(fullpath, "./src/shared");
    let n = chars_vec(filename.as_str()).len();
    let trimmed = filename.as_str().substring_char(1, n);
    trimmed.to_owned()
}

/// Like `local_file_name`, but answers `None` on a path it does not accept.
pub fn try_local_file_name(fullpath: &str) -> (r: Option<String>)
    ensures
        r is Some <==> local_name_ok(fullpath@),
        r matches Some(name) ==> name@ == local_name(fullpath@),
{
    proof {
        reveal_strlit("./src/shared");
        assert("./src/shared"@ =~= shared_root());
    }
    let filename = remove_occurrences(fullpath, "./src/shared");
    let chars = chars_vec(filename.as_str());
    if chars.len() == 0 || chars[0] as u32 >= 128 {
        return None;
    }
    Some(local_file_name(fullpath))
}

} // verus!
