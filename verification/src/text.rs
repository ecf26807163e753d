//! Verified text primitives the scanner is built on: substring search,
//! suffix tests, case-insensitive comparison against lowercase tokens, and
//! extraction of a path's file name and extension.

use vstd::prelude::*;

verus! {

/// `needle` occurs in `hay` as the contiguous run starting at index `i`.
pub open spec fn matches_at(hay: Seq<char>, needle: Seq<char>, i: int) -> bool {
    0 <= i && i + needle.len() <= hay.len() && hay.subrange(i, i + needle.len()) == needle
}

/// `needle` occurs somewhere in `hay` as a contiguous run.
pub open spec fn contains_seq(hay: Seq<char>, needle: Seq<char>) -> bool {
    exists|i: int| matches_at(hay, needle, i)
}

/// `hay` ends with `needle`.
pub open spec fn ends_with_seq(hay: Seq<char>, needle: Seq<char>) -> bool {
    needle.len() <= hay.len() && hay.subrange(hay.len() - needle.len(), hay.len() as int)
        == needle
}

/// Compare `hay[i..i + n]` against `needle`, where `n` is `needle`'s length.
fn match_at(hay: &str, needle: &str, i: usize, n: usize) -> (r: bool)
    requires
        n == needle@.len(),
        i + n <= hay@.len(),
        hay@.len() <= usize::MAX,
    ensures
        r == matches_at(hay@, needle@, i as int),
{
    let mut j: usize = 0;
    while j < n
        invariant
            j <= n,
            n == needle@.len(),
            i + n <= hay@.len(),
            hay@.len() <= usize::MAX,
            forall|k: int| 0 <= k < j ==> hay@[i + k] == needle@[k],
        decreases n - j,
    {
        if hay.get_char(i + j) != needle.get_char(j) {
            assert(hay@.subrange(i as int, i + n)[j as int] == hay@[i + j]);
            assert(!matches_at(hay@, needle@, i as int));
            return false;
        }
        j += 1;
    }
    assert(hay@.subrange(i as int, i + n) =~= needle@);
    true
}

/// Substring search: does `hay` contain `needle` anywhere?
pub fn contains_sub(hay: &str, needle: &str) -> (r: bool)
    ensures
        r == contains_seq(hay@, needle@),
{
    let h = hay.unicode_len();
    let n = needle.unicode_len();
    if n > h {
        assert(forall|i: int| !matches_at(hay@, needle@, i));
        return false;
    }
    if n == 0 {
        assert(hay@.subrange(0, 0) =~= needle@);
        assert(matches_at(hay@, needle@, 0));
        return true;
    }
    let mut i: usize = 0;
    while i <= h - n
        invariant
            h == hay@.len(),
            n == needle@.len(),
            0 < n <= h,
            i <= h - n + 1,
            forall|k: int| 0 <= k < i ==> !matches_at(hay@, needle@, k),
        decreases h - i,
    {
        if match_at(hay, needle, i, n) {
            return true;
        }
        i += 1;
    }
    assert(forall|k: int| !matches_at(hay@, needle@, k));
    false
}

/// Does `hay` end with `needle`?
pub fn ends_with_sub(hay: &str, needle: &str) -> (r: bool)
    ensures
        r == ends_with_seq(hay@, needle@),
{
    let h = hay.unicode_len();
    let n = needle.unicode_len();
    if n > h {
        return false;
    }
    let r = match_at(hay, needle, h - n, n);
    assert(matches_at(hay@, needle@, h - n) == ends_with_seq(hay@, needle@));
    r
}

/// Character-for-character string equality.
pub fn str_eq(a: &str, b: &str) -> (r: bool)
    ensures
        r == (a@ == b@),
{
    let la = a.unicode_len();
    let lb = b.unicode_len();
    if la != lb {
        return false;
    }
    let mut j: usize = 0;
    while j < la
        invariant
            la == a@.len(),
            la == b@.len(),
            j <= la,
            forall|k: int| 0 <= k < j ==> a@[k] == b@[k],
        decreases la - j,
    {
        if a.get_char(j) != b.get_char(j) {
            return false;
        }
        j += 1;
    }
    assert(a@ =~= b@);
    true
}

/// The last index at which `c` occurs in `s`, if any.
pub open spec fn last_pos(s: Seq<char>, c: char) -> Option<int>
    decreases s.len(),
{
    if s.len() == 0 {
        None
    } else if s.last() == c {
        Some(s.len() - 1)
    } else {
        last_pos(s.drop_last(), c)
    }
}

/// `last_pos` returns the largest index holding `c`, or `None` when `c` is absent.
pub proof fn lemma_last_pos(s: Seq<char>, c: char)
    ensures
        match last_pos(s, c) {
            Some(i) => 0 <= i < s.len() && s[i] == c && forall|j: int|
                i < j < s.len() ==> s[j] != c,
            None => forall|j: int| 0 <= j < s.len() ==> s[j] != c,
        },
    decreases s.len(),
{
    if s.len() > 0 && s.last() != c {
        lemma_last_pos(s.drop_last(), c);
        assert(forall|j: int| 0 <= j < s.len() - 1 ==> s[j] == s.drop_last()[j]);
    }
}

/// Scan `s` from the right for the last occurrence of `c`, as an index.
pub fn rfind_char(s: &str, c: char) -> (r: Option<usize>)
    ensures
        match r {
            Some(i) => last_pos(s@, c) == Some(i as int),
            None => last_pos(s@, c) is None,
        },
{
    let n = s.unicode_len();
    let mut i: usize = n;
    while i > 0
        invariant
            n == s@.len(),
            i <= n,
            forall|j: int| i <= j < n ==> s@[j] != c,
        decreases i,
    {
        i -= 1;
        if s.get_char(i) == c {
            proof {
                lemma_last_pos(s@, c);
            }
            return Some(i);
        }
    }
    proof {
        lemma_last_pos(s@, c);
    }
    None
}

/// `last_pos` from its characterization: `i` holds `c` and nothing later does.
pub proof fn lemma_last_pos_is(s: Seq<char>, c: char, i: int)
    requires
        0 <= i < s.len(),
        s[i] == c,
        forall|j: int| i < j < s.len() ==> s[j] != c,
    ensures
        last_pos(s, c) == Some(i),
{
    lemma_last_pos(s, c);
    match last_pos(s, c) {
        Some(k) => {
            if k < i {
                assert(s[i] != c);
            }
            if k > i {
                assert(s[k] != c);
            }
        },
        None => {
            assert(s[i] != c);
        },
    }
}

/// `last_pos` is `None` when no index holds `c`.
pub proof fn lemma_last_pos_none(s: Seq<char>, c: char)
    requires
        forall|j: int| 0 <= j < s.len() ==> s[j] != c,
    ensures
        last_pos(s, c) is None,
{
    lemma_last_pos(s, c);
    if let Some(k) = last_pos(s, c) {
        assert(s[k] != c);
    }
}

/// Index at which the file name begins: just past the last '/'.
pub open spec fn name_start(p: Seq<char>) -> int {
    match last_pos(p, '/') {
        Some(i) => i + 1,
        None => 0,
    }
}

/// The file name: the part of the path after the last '/'.
pub open spec fn file_name(p: Seq<char>) -> Seq<char> {
    p.subrange(name_start(p), p.len() as int)
}

/// The directory part of the path: what precedes the last '/', and empty
/// when the path holds none.
pub open spec fn parent_of(p: Seq<char>) -> Seq<char> {
    match last_pos(p, '/') {
        Some(i) => p.subrange(0, i),
        None => Seq::empty(),
    }
}

/// Extract the file name of a path.
pub fn file_name_of(path: &str) -> (r: String)
    ensures
        r@ == file_name(path@),
{
    let n = path.unicode_len();
    match rfind_char(path, '/') {
        Some(i) => {
            proof {
                lemma_last_pos(path@, '/');
            }
            path.substring_char(i + 1, n).to_owned()
        },
        None => {
            proof {
                assert(path@.subrange(0, n as int) =~= path@);
            }
            path.to_owned()
        },
    }
}

/// Extract the parent directory of a path.
pub fn parent_dir_of(path: &str) -> (r: String)
    ensures
        r@ == parent_of(path@),
{
    match rfind_char(path, '/') {
        Some(i) => {
            proof {
                lemma_last_pos(path@, '/');
            }
            path.substring_char(0, i).to_owned()
        },
        None => String::new(),
    }
}

/// The extension: what follows the last '.' of the file name, provided that
/// dot is not the name's first character. A name without such a dot has none.
pub open spec fn ext_of(p: Seq<char>) -> Option<Seq<char>> {
    let name = file_name(p);
    match last_pos(name, '.') {
        Some(i) => if i > 0 {
            Some(name.subrange(i + 1, name.len() as int))
        } else {
            None
        },
        None => None,
    }
}

/// Extract the extension of `path`, as `ext_of` describes it.
pub fn extension_of(path: &str) -> (r: Option<String>)
    ensures
        match r {
            Some(e) => ext_of(path@) == Some(e@),
            None => ext_of(path@) is None,
        },
{
    let n = path.unicode_len();
    let ns: usize = match rfind_char(path, '/') {
        Some(i) => {
            proof {
                lemma_last_pos(path@, '/');
            }
            i + 1
        },
        None => 0,
    };
    proof {
        lemma_last_pos(path@, '/');
        assert(ns == name_start(path@));
    }
    let ghost name = file_name(path@);
    let d = rfind_char(path, '.');
    match d {
        Some(di) if di > ns => {
            proof {
                lemma_last_pos(path@, '.');
                assert(name[di - ns] == path@[di as int] == '.');
                assert forall|j: int| di - ns < j < name.len() implies name[j] != '.' by {
                    assert(name[j] == path@[ns + j]);
                }
                lemma_last_pos_is(name, '.', di - ns);
                assert(name.subrange(di - ns + 1, name.len() as int) =~= path@.subrange(
                    di + 1,
                    n as int,
                ));
            }
            let e = path.substring_char(di + 1, n);
            Some(e.to_owned())
        },
        _ => {
            proof {
                let nm = name;
                match d {
                    Some(di) => {
                        // The last '.' of the whole path lies before the file
                        // name, so the name holds no '.' at a positive index.
                        lemma_last_pos(path@, '.');
                        assert forall|j: int| 0 < j < nm.len() implies nm[j] != '.' by {
                            assert(nm[j] == path@[ns + j]);
                        }
                        match last_pos(nm, '.') {
                            Some(k) => {
                                lemma_last_pos(nm, '.');
                                if k > 0 {
                                    assert(nm[k] != '.');
                                }
                            },
                            None => {},
                        }
                    },
                    None => {
                        lemma_last_pos(path@, '.');
                        assert forall|j: int| 0 <= j < nm.len() implies nm[j] != '.' by {
                            assert(nm[j] == path@[ns + j]);
                        }
                        lemma_last_pos_none(nm, '.');
                    },
                }
            }
            None
        },
    }
}

/// ASCII lowercasing of one character: 'A' through 'Z' map to 'a' through 'z'.
pub open spec fn lower_char(c: char) -> char {
    if 65 <= c as u32 && c as u32 <= 90 {
        ((c as u32 + 32) as char)
    } else {
        c
    }
}

/// ASCII lowercasing of a character sequence.
pub open spec fn lower_seq(s: Seq<char>) -> Seq<char> {
    s.map_values(|c: char| lower_char(c))
}

/// The images of a sequence of strings.
pub open spec fn str_views(s: Seq<String>) -> Seq<Seq<char>> {
    s.map_values(|x: String| x@)
}

/// Relies on char::from_u32: it returns the character with the given code,
/// and `Some` exactly on Unicode scalar values; every value below the
/// surrogate range is one.
#[verifier::external_body]
fn char_from_u32(u: u32) -> (r: Option<char>)
    ensures
        r matches Some(c) ==> c as u32 == u,
        u < 0xD800 ==> r is Some,
{
    char::from_u32(u)
}

/// ASCII-lowercase one character, as `lower_char` describes.
pub fn lower_char_exec(c: char) -> (r: char)
    ensures
        r == lower_char(c),
{
    let x = c as u32;
    if 65 <= x && x <= 90 {
        match char_from_u32(x + 32) {
            Some(c2) => {
                proof {
                    vstd::utf8::char_u32_cast(c2, (x + 32) as u32);
                }
                c2
            },
            None => {
                proof {
                    assert(false);
                }
                c
            },
        }
    } else {
        c
    }
}

/// Does `s` lowercase (ASCII) to exactly the token `lower`?
pub fn eq_lowered(s: &str, lower: &str) -> (r: bool)
    ensures
        r == (lower_seq(s@) == lower@),
{
    let n = s.unicode_len();
    let m = lower.unicode_len();
    if n != m {
        assert(lower_seq(s@).len() == s@.len());
        return false;
    }
    let mut j: usize = 0;
    while j < n
        invariant
            n == s@.len(),
            n == lower@.len(),
            j <= n,
            forall|k: int| 0 <= k < j ==> lower_char(s@[k]) == lower@[k],
        decreases n - j,
    {
        let lowered = lower_char_exec(s.get_char(j));
        if lowered != lower.get_char(j) {
            assert(lower_seq(s@)[j as int] != lower@[j as int]);
            return false;
        }
        j += 1;
    }
    assert(lower_seq(s@) =~= lower@);
    true
}

} // verus!
