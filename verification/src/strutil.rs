//! Verified string helpers: equality, ASCII lowercasing, substring search,
//! and the filename / extension arithmetic the cache and the search need.

use vstd::prelude::*;

verus! {

/// Character-wise equality of two string slices.
pub fn str_eq(a: &str, b: &str) -> (r: bool)
    ensures
        r == (a@ == b@),
{
    let n = a.unicode_len();
    if n != b.unicode_len() {
        return false;
    }
    for i in 0..n
        invariant
            n == a@.len(),
            n == b@.len(),
            forall|j: int| 0 <= j < i ==> a@[j] == b@[j],
    {
        if a.get_char(i) != b.get_char(i) {
            return false;
        }
    }
    proof {
        assert(a@ =~= b@);
    }
    true
}

/// ASCII lowercase of one character; every other character is unchanged.
pub open spec fn lower_char(c: char) -> char {
    if 'A' <= c && c <= 'Z' {
        (((c as u8) + 32) as char)
    } else {
        c
    }
}

/// ASCII lowercase of a character sequence.
pub open spec fn lower_seq(s: Seq<char>) -> Seq<char> {
    s.map_values(|c: char| lower_char(c))
}

pub fn lower_char_exec(c: char) -> (r: char)
    ensures
        r == lower_char(c),
{
    if 'A' <= c && c <= 'Z' {
        ((c as u8) + 32) as char
    } else {
        c
    }
}

/// Relies on `String::push`: appends one character to the string.
#[verifier::external_body]
pub fn push_char(s: &mut String, c: char)
    ensures
        final(s)@ == old(s)@.push(c),
{
    s.push(c);
}

/// ASCII-lowercases a string.
pub fn lower_ascii(s: &str) -> (r: String)
    ensures
        r@ == lower_seq(s@),
{
    let n = s.unicode_len();
    let mut r = String::new();
    for i in 0..n
        invariant
            n == s@.len(),
            r@ == lower_seq(s@.take(i as int)),
    {
        push_char(&mut r, lower_char_exec(s.get_char(i)));
        proof {
            assert(lower_seq(s@.take(i + 1)) =~= lower_seq(s@.take(i as int)).push(
                lower_char(s@[i as int]),
            ));
        }
    }
    proof {
        assert(s@.take(n as int) =~= s@);
    }
    r
}

/// Whether `sub` occurs as a contiguous run inside `s`.
pub open spec fn contains_seq(s: Seq<char>, sub: Seq<char>) -> bool {
    exists|i: int|
        0 <= i && i + sub.len() <= s.len() && #[trigger] s.subrange(i, i + sub.len() as int)
            == sub
}

pub fn contains_sub(s: &str, sub: &str) -> (r: bool)
    ensures
        r == contains_seq(s@, sub@),
{
    let n = s.unicode_len();
    let m = sub.unicode_len();
    if m > n {
        return false;
    }
    if m == 0 {
        proof {
            assert(s@.subrange(0, 0 + sub@.len() as int) =~= sub@);
        }
        return true;
    }
    for i in 0..(n - m) + 1
        invariant
            n == s@.len(),
            m == sub@.len(),
            m <= n,
            forall|k: int|
                0 <= k < i ==> #[trigger] s@.subrange(k, k + sub@.len() as int) != sub@,
    {
        let mut all: bool = true;
        for j in 0..m
            invariant
                n == s@.len(),
                m == sub@.len(),
                i + m <= n,
                all ==> forall|l: int| 0 <= l < j ==> s@[i + l] == sub@[l],
                !all ==> s@.subrange(i as int, i + sub@.len() as int) != sub@,
        {
            if s.get_char(i + j) != sub.get_char(j) {
                proof {
                    if s@.subrange(i as int, i + sub@.len() as int) == sub@ {
                        assert(s@.subrange(i as int, i + sub@.len() as int)[j as int] == s@[
                            i + j]);
                        assert(false);
                    }
                }
                all = false;
            }
        }
        if all {
            proof {
                assert(s@.subrange(i as int, i + sub@.len() as int) =~= sub@);
            }
            return true;
        }
    }
    false
}

pub open spec fn is_sep(c: char) -> bool {
    c == '/' || c == '\\'
}

/// Largest index holding a path separator, or `-1` when there is none.
pub open spec fn last_sep_idx(s: Seq<char>) -> int
    decreases s.len(),
{
    if s.len() == 0 {
        -1
    } else if is_sep(s.last()) {
        s.len() - 1
    } else {
        last_sep_idx(s.drop_last())
    }
}

/// The final path component: everything after the last separator.
pub open spec fn spec_file_name(s: Seq<char>) -> Seq<char> {
    s.subrange(last_sep_idx(s) + 1, s.len() as int)
}

/// Extracts the final path component of `path`.
pub fn file_name_of(path: &str) -> (r: String)
    ensures
        r@ == spec_file_name(path@),
{
    let n = path.unicode_len();
    let mut start: usize = 0;
    for i in 0..n
        invariant
            n == path@.len(),
            start == last_sep_idx(path@.take(i as int)) + 1,
            start <= i,
    {
        proof {
            assert(path@.take(i + 1).drop_last() =~= path@.take(i as int));
            assert(path@.take(i + 1).last() == path@[i as int]);
        }
        let c = path.get_char(i);
        if c == '/' || c == '\\' {
            start = i + 1;
        }
    }
    proof {
        assert(path@.take(n as int) =~= path@);
    }
    path.substring_char(start, n).to_owned()
}

/// Largest index holding `c`, or `-1` when there is none.
pub open spec fn last_idx_of(s: Seq<char>, c: char) -> int
    decreases s.len(),
{
    if s.len() == 0 {
        -1
    } else if s.last() == c {
        s.len() - 1
    } else {
        last_idx_of(s.drop_last(), c)
    }
}

/// The extension of the final path component: everything after its last dot.
/// A name whose only dot is its first character (a dot-file) and a name with
/// no dot both have the empty extension.
pub open spec fn spec_extension(s: Seq<char>) -> Seq<char> {
    let name = spec_file_name(s);
    let d = last_idx_of(name, '.');
    if d <= 0 {
        Seq::empty()
    } else {
        name.subrange(d + 1, name.len() as int)
    }
}

/// Extracts the extension of the final component of `path`, or the empty
/// string when it has none.
pub fn get_extension(path: &str) -> (r: String)
    ensures
        r@ == spec_extension(path@),
{
    let name = file_name_of(path);
    let s = name.as_str();
    let n = s.unicode_len();
    let mut dot: usize = 0;
    let mut seen: bool = false;
    for i in 0..n
        invariant
            n == s@.len(),
            seen ==> 0 <= dot < i && last_idx_of(s@.take(i as int), '.') == dot,
            !seen ==> last_idx_of(s@.take(i as int), '.') == -1,
    {
        proof {
            assert(s@.take(i + 1).drop_last() =~= s@.take(i as int));
            assert(s@.take(i + 1).last() == s@[i as int]);
        }
        if s.get_char(i) == '.' {
            dot = i;
            seen = true;
        }
    }
    proof {
        assert(s@.take(n as int) =~= s@);
    }
    if !seen || dot == 0 {
        String::new()
    } else {
        s.substring_char(dot + 1, n).to_owned()
    }
}

/// Whether an entry name is hidden by the dot-prefix convention.
pub fn is_hidden(entry: &str) -> (r: bool)
    ensures
        r == (entry@.len() > 0 && entry@[0] == '.'),
{
    if entry.unicode_len() == 0 {
        false
    } else {
        entry.get_char(0) == '.'
    }
}

} // verus!
