//! Verified string primitives used by the capability decoder: equality,
//! suffix test, substring search, and first-occurrence search.

use vstd::prelude::*;

verus! {

/// `needle` occurs as a contiguous run inside `hay`.
pub open spec fn contains_seq(hay: Seq<char>, needle: Seq<char>) -> bool {
    exists|i: int|
        0 <= i && i + needle.len() <= hay.len() && #[trigger] hay.subrange(
            i,
            i + needle.len() as int,
        ) =~= needle
}

/// Index of the first occurrence of `c` in `s`, if any.
pub open spec fn find_first(s: Seq<char>, c: char) -> Option<int>
    decreases s.len(),
{
    if s.len() == 0 {
        None
    } else if s[0] == c {
        Some(0)
    } else {
        match find_first(s.drop_first(), c) {
            None => None,
            Some(i) => Some(i + 1),
        }
    }
}

/// `find_first` returns exactly the smallest index holding `c`.
pub proof fn lemma_find_first_characterization(s: Seq<char>, c: char)
    ensures
        match find_first(s, c) {
            None => forall|j: int| 0 <= j < s.len() ==> s[j] != c,
            Some(i) => 0 <= i < s.len() && s[i] == c && (forall|j: int| 0 <= j < i ==> s[j] != c),
        },
    decreases s.len(),
{
    if s.len() != 0 && s[0] != c {
        lemma_find_first_characterization(s.drop_first(), c);
        match find_first(s.drop_first(), c) {
            None => {
                assert forall|j: int| 0 <= j < s.len() implies s[j] != c by {
                    if j > 0 {
                        assert(s.drop_first()[j - 1] == s[j]);
                    }
                }
            },
            Some(i) => {
                assert(s.drop_first()[i] == s[i + 1]);
                assert forall|j: int| 0 <= j < i + 1 implies s[j] != c by {
                    if j > 0 {
                        assert(s.drop_first()[j - 1] == s[j]);
                    }
                }
            },
        }
    }
}

/// The first occurrence in a concatenation whose left part lacks `c` is the
/// first occurrence in the right part, shifted.
pub proof fn lemma_find_first_append(a: Seq<char>, b: Seq<char>, c: char)
    requires
        forall|j: int| 0 <= j < a.len() ==> a[j] != c,
    ensures
        find_first(a + b, c) == match find_first(b, c) {
            None => None::<int>,
            Some(i) => Some(i + a.len()),
        },
    decreases a.len(),
{
    if a.len() == 0 {
        assert(a + b =~= b);
    } else {
        assert((a + b).drop_first() =~= a.drop_first() + b);
        lemma_find_first_append(a.drop_first(), b, c);
    }
}

/// Character-by-character equality of two string slices.
pub fn str_eq(a: &str, b: &str) -> (r: bool)
    ensures
        r == (a@ == b@),
{
    let an = a.unicode_len();
    let bn = b.unicode_len();
    if an != bn {
        return false;
    }
    let mut i: usize = 0;
    while i < an
        invariant
            an == a@.len(),
            an == b@.len(),
            0 <= i <= an,
            forall|j: int| 0 <= j < i ==> a@[j] == b@[j],
        decreases an - i,
    {
        if a.get_char(i) != b.get_char(i) {
            return false;
        }
        i = i + 1;
    }
    proof {
        assert(a@ =~= b@);
    }
    true
}

/// Whether `s` ends with `suffix`.
pub fn str_ends_with(s: &str, suffix: &str) -> (r: bool)
    ensures
        r == (s@.len() >= suffix@.len() && s@.subrange(
            s@.len() - suffix@.len(),
            s@.len() as int,
        ) =~= suffix@),
{
    let sn = s.unicode_len();
    let un = suffix.unicode_len();
    if sn < un {
        return false;
    }
    let off = sn - un;
    let mut i: usize = 0;
    while i < un
        invariant
            sn == s@.len(),
            un == suffix@.len(),
            off == sn - un,
            0 <= i <= un,
            forall|j: int| 0 <= j < i ==> s@[off + j] == suffix@[j],
        decreases un - i,
    {
        if s.get_char(off + i) != suffix.get_char(i) {
            proof {
                assert(s@.subrange(s@.len() - suffix@.len(), s@.len() as int)[i as int] == s@[off
                    + i]);
            }
            return false;
        }
        i = i + 1;
    }
    proof {
        assert(s@.subrange(s@.len() - suffix@.len(), s@.len() as int) =~= suffix@);
    }
    true
}

/// Whether `needle` occurs anywhere inside `hay`.
pub fn str_contains(hay: &str, needle: &str) -> (r: bool)
    ensures
        r == contains_seq(hay@, needle@),
{
    let hn = hay.unicode_len();
    let nn = needle.unicode_len();
    if nn > hn {
        return false;
    }
    if nn == 0 {
        proof {
            assert(hay@.subrange(0, 0 + needle@.len() as int) =~= needle@);
        }
        return true;
    }
    let mut start: usize = 0;
    while start <= hn - nn
        invariant
            hn == hay@.len(),
            nn == needle@.len(),
            0 < nn <= hn,
            0 <= start <= hn - nn + 1,
            forall|i: int|
                0 <= i < start ==> #[trigger] hay@.subrange(i, i + nn as int) != needle@,
        decreases hn + 1 - start,
    {
        let mut i: usize = 0;
        let mut matched = true;
        while i < nn
            invariant
                hn == hay@.len(),
                nn == needle@.len(),
                0 < nn <= hn,
                0 <= start <= hn - nn,
                0 <= i <= nn,
                matched ==> forall|j: int| 0 <= j < i ==> hay@[start + j] == needle@[j],
                !matched ==> hay@.subrange(start as int, start + nn as int) != needle@,
            decreases nn - i,
        {
            if hay.get_char(start + i) != needle.get_char(i) {
                proof {
                    assert(hay@.subrange(start as int, start + nn as int)[i as int] == hay@[start
                        + i]);
                }
                matched = false;
                i = nn;
            } else {
                i = i + 1;
            }
        }
        if matched {
            proof {
                assert(hay@.subrange(start as int, start + nn as int) =~= needle@);
            }
            return true;
        }
        start = start + 1;
    }
    proof {
        assert forall|i: int| 0 <= i && i + needle@.len() <= hay@.len() implies #[trigger] hay@.subrange(
            i,
            i + needle@.len() as int,
        ) != needle@ by {}
    }
    false
}

/// Index of the first occurrence of `c` in `s`, as `find_first` gives it.
pub fn str_find(s: &str, c: char) -> (r: Option<usize>)
    ensures
        match r {
            None => find_first(s@, c) is None,
            Some(i) => find_first(s@, c) == Some(i as int),
        },
{
    let n = s.unicode_len();
    let mut i: usize = 0;
    while i < n
        invariant
            n == s@.len(),
            0 <= i <= n,
            forall|j: int| 0 <= j < i ==> s@[j] != c,
        decreases n - i,
    {
        if s.get_char(i) == c {
            proof {
                lemma_find_first_characterization(s@, c);
            }
            return Some(i);
        }
        i = i + 1;
    }
    proof {
        lemma_find_first_characterization(s@, c);
    }
    None
}

} // verus!
