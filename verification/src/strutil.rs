use vstd::prelude::*;
use crate::chars::{is_space_char, is_space_of};

verus! {

/// Character-by-character equality of two string slices.
pub fn str_eq(a: &str, b: &str) -> (r: bool)
    ensures
        r == (a@ == b@),
{
    let la = a.unicode_len();
    let lb = b.unicode_len();
    if la != lb {
        assert(a@ != b@) by {
            assert(a@.len() != b@.len());
        }
        return false;
    }
    let mut i: usize = 0;
    while i < la
        invariant
            la == a@.len(),
            lb == b@.len(),
            la == lb,
            i <= la,
            forall|k: int| 0 <= k < i ==> a@[k] == b@[k],
        decreases la - i,
    {
        if a.get_char(i) != b.get_char(i) {
            return false;
        }
        i += 1;
    }
    proof {
        assert(a@ =~= b@);
    }
    true
}

/// The characters of `s` from `from` (inclusive) to `to` (exclusive), as an
/// owned string.
pub fn string_from_range(s: &str, from: usize, to: usize) -> (r: String)
    requires
        from <= to <= s@.len(),
    ensures
        r@ == s@.subrange(from as int, to as int),
{
    String::from_str(s.substring_char(from, to))
}

/// The first position at or after `i` holding a character that is not
/// whitespace, or the end of the text.
pub open spec fn first_non_space(s: Seq<char>, i: int) -> int
    decreases s.len() - i
        when 0 <= i <= s.len()
{
    if i < s.len() && is_space_of(s[i]) {
        first_non_space(s, i + 1)
    } else {
        i
    }
}

/// The position after the last character at or before position `j - 1` that
/// is not whitespace, or zero.
pub open spec fn last_non_space_end(s: Seq<char>, j: int) -> int
    decreases j
        when 0 <= j <= s.len()
{
    if j > 0 && is_space_of(s[j - 1]) {
        last_non_space_end(s, j - 1)
    } else {
        j
    }
}

/// The characters of `s` with leading and trailing whitespace removed, as
/// `str::trim` removes it.
pub open spec fn trim_spec(s: Seq<char>) -> Seq<char> {
    let a = first_non_space(s, 0);
    let b = last_non_space_end(s, s.len() as int);
    if a <= b {
        s.subrange(a, b)
    } else {
        Seq::empty()
    }
}

/// The character at the first non-whitespace position is not whitespace.
proof fn lemma_first_non_space_char(s: Seq<char>, i: int)
    requires
        0 <= i <= s.len(),
    ensures
        first_non_space(s, i) < s.len() ==> !is_space_of(s[first_non_space(s, i)]),
    decreases s.len() - i,
{
    if i < s.len() && is_space_of(s[i]) {
        lemma_first_non_space_char(s, i + 1);
    }
}

proof fn lemma_last_non_space_end_bounds(s: Seq<char>, j: int)
    requires
        0 <= j <= s.len(),
    ensures
        0 <= last_non_space_end(s, j) <= j,
    decreases j,
{
    if j > 0 && is_space_of(s[j - 1]) {
        lemma_last_non_space_end_bounds(s, j - 1);
    }
}

/// A copy of `s` with leading and trailing whitespace removed.
pub fn trim_str(s: &str) -> (r: String)
    ensures
        r@ == trim_spec(s@),
{
    let len = s.unicode_len();
    let mut a: usize = 0;
    while a < len && is_space_char(s.get_char(a))
        invariant
            len == s@.len(),
            0 <= a <= len,
            first_non_space(s@, 0) == first_non_space(s@, a as int),
        decreases len - a,
    {
        a += 1;
    }
    assert(first_non_space(s@, 0) == a as int);
    let mut b: usize = len;
    while b > a && is_space_char(s.get_char(b - 1))
        invariant
            len == s@.len(),
            a <= b <= len,
            a < len ==> a < b,
            first_non_space(s@, 0) == a as int,
            last_non_space_end(s@, len as int) == last_non_space_end(s@, b as int),
        decreases b,
    {
        proof {
            if b - 1 == a && a < len {
                assert(!is_space_of(s@[a as int])) by {
                    lemma_first_non_space_char(s@, 0);
                }
            }
        }
        b -= 1;
    }
    proof {
        lemma_last_non_space_end_bounds(s@, len as int);
        if b > a {
            assert(last_non_space_end(s@, b as int) == b as int);
        } else {
            assert(a == len && b == len);
            assert(last_non_space_end(s@, b as int) == last_non_space_end(s@, len as int));
        }
    }
    let r = string_from_range(s, a, b);
    proof {
        if a < len {
            assert(r@ =~= trim_spec(s@));
        } else {
            assert(r@ =~= trim_spec(s@));
        }
    }
    r
}

/// Whether a batch line carries the leading echo marker, and the line with
/// the marker removed. The marker is the batch loader's convention; `run`
/// itself never interprets it.
pub fn split_echo_marker(line: &str) -> (r: (bool, String))
    ensures
        r.0 == (line@.len() > 0 && line@[0] == '!'),
        r.1@ == (if line@.len() > 0 && line@[0] == '!' {
            line@.subrange(1, line@.len() as int)
        } else {
            line@
        }),
{
    let n = line.unicode_len();
    if n > 0 && line.get_char(0) == '!' {
        (true, string_from_range(line, 1, n))
    } else {
        (false, String::from_str(line))
    }
}

} // verus!
