//! Character-level helpers on strings, proved against `Seq<char>` views.

use vstd::prelude::*;
use vstd::std_specs::iter::IteratorSpec;

verus! {

/// Collects the characters of `s` into a vector.
pub fn chars_of(s: &str) -> (v: Vec<char>)
    ensures
        v@ == s@,
{
    let mut v: Vec<char> = Vec::new();
    proof { vstd::string::axiom_spec_iter(s); }
    for c in it: s.chars()
        invariant
            v@ == it.seq().take(it.index() as int),
    {
        v.push(c);
    }
    v
}

/// `needle` occurs in `hay` at position `i`.
pub open spec fn occurs_at(hay: Seq<char>, needle: Seq<char>, i: int) -> bool {
    0 <= i && i + needle.len() <= hay.len() && hay.subrange(i, i + needle.len()) == needle
}

/// `needle` occurs somewhere in `hay` (the empty text occurs everywhere).
pub open spec fn has_substring(hay: Seq<char>, needle: Seq<char>) -> bool {
    exists|i: int| occurs_at(hay, needle, i)
}

/// Compares two character vectors for equality.
pub fn same_chars(a: &Vec<char>, b: &Vec<char>) -> (r: bool)
    ensures
        r == (a@ == b@),
{
    if a.len() != b.len() {
        return false;
    }
    let mut i: usize = 0;
    while i < a.len()
        invariant
            a.len() == b.len(),
            i <= a.len(),
            forall|j: int| 0 <= j < i ==> a@[j] == b@[j],
        decreases a.len() - i,
    {
        if a[i] != b[i] {
            return false;
        }
        i = i + 1;
    }
    assert(a@ =~= b@);
    true
}

/// Compares two strings character by character.
pub fn same_text(a: &str, b: &str) -> (r: bool)
    ensures
        r == (a@ == b@),
{
    let ca = chars_of(a);
    let cb = chars_of(b);
    same_chars(&ca, &cb)
}

/// Whether `needle` occurs in `hay` at position `i`, on character vectors.
fn chars_occur_at(hay: &Vec<char>, needle: &Vec<char>, i: usize) -> (r: bool)
    requires
        i + needle.len() <= hay.len(),
    ensures
        r == occurs_at(hay@, needle@, i as int),
{
    let mut j: usize = 0;
    while j < needle.len()
        invariant
            i + needle.len() <= hay.len(),
            j <= needle.len(),
            forall|k: int| 0 <= k < j ==> hay@[i + k] == needle@[k],
        decreases needle.len() - j,
    {
        if hay[i + j] != needle[j] {
            assert(hay@.subrange(i as int, i + needle.len())[j as int] != needle@[j as int]);
            return false;
        }
        j = j + 1;
    }
    assert(hay@.subrange(i as int, i + needle.len()) =~= needle@);
    true
}

/// Substring search: whether `needle` occurs in `hay`.
pub fn contains_text(hay: &str, needle: &str) -> (r: bool)
    ensures
        r == has_substring(hay@, needle@),
{
    let h = chars_of(hay);
    let n = chars_of(needle);
    if n.len() > h.len() {
        assert forall|i: int| !occurs_at(hay@, needle@, i) by {}
        return false;
    }
    if n.len() == 0 {
        assert(hay@.subrange(0, 0) =~= needle@);
        assert(occurs_at(hay@, needle@, 0));
        return true;
    }
    let last = h.len() - n.len();
    let mut i: usize = 0;
    while i <= last
        invariant
            h@ == hay@,
            n@ == needle@,
            last == h.len() - n.len(),
            last < h.len(),
            i <= last + 1,
            forall|j: int| 0 <= j < i ==> !occurs_at(hay@, needle@, j),
        decreases last + 1 - i,
    {
        if chars_occur_at(&h, &n, i) {
            return true;
        }
        i = i + 1;
    }
    assert forall|j: int| !occurs_at(hay@, needle@, j) by {
        if 0 <= j < i {
        }
    }
    false
}

/// `e` is where a scan of `s` for `c` stops: the first occurrence of `c`, or
/// the length of `s` when `c` does not occur.
pub open spec fn is_first_stop(s: Seq<char>, c: char, e: int) -> bool {
    &&& 0 <= e <= s.len()
    &&& e < s.len() ==> s[e] == c
    &&& forall|j: int| 0 <= j < e ==> s[j] != c
}

/// Index of the first occurrence of `c` in `s`, or `s.len()` when there is none.
pub open spec fn first_stop(s: Seq<char>, c: char) -> int {
    choose|e: int| is_first_stop(s, c, e)
}

/// The first-stop index is unique, so `first_stop` names it.
pub proof fn lemma_first_stop_is(s: Seq<char>, c: char, e: int)
    requires
        is_first_stop(s, c, e),
    ensures
        first_stop(s, c) == e,
{
    let f = first_stop(s, c);
    assert(is_first_stop(s, c, f));
    if f < e {
        assert(s[f] != c);
    } else if e < f {
        assert(s[e] != c);
    }
}

/// A scan of `s` for `c` always stops somewhere.
pub proof fn lemma_first_stop_exists(s: Seq<char>, c: char)
    ensures
        is_first_stop(s, c, first_stop(s, c)),
    decreases s.len(),
{
    if s.len() == 0 {
        assert(is_first_stop(s, c, 0));
    } else if s[0] == c {
        assert(is_first_stop(s, c, 0));
    } else {
        let rest = s.drop_first();
        lemma_first_stop_exists(rest, c);
        let e = first_stop(rest, c);
        assert forall|j: int| 0 <= j < e + 1 implies s[j] != c by {
            if j > 0 {
                assert(s[j] == rest[j - 1]);
            }
        }
        if e < rest.len() {
            assert(s[e + 1] == rest[e]);
        }
        assert(is_first_stop(s, c, e + 1));
    }
}

/// Finds the first `c` in `v` at or after `from` (or `v.len()`).
pub fn find_char_from(v: &Vec<char>, from: usize, c: char) -> (e: usize)
    requires
        from <= v.len(),
        forall|j: int| 0 <= j < from ==> v@[j] != c,
    ensures
        is_first_stop(v@, c, e as int),
        e == first_stop(v@, c),
{
    let mut i = from;
    while i < v.len()
        invariant
            from <= i <= v.len(),
            forall|j: int| 0 <= j < i ==> v@[j] != c,
        decreases v.len() - i,
    {
        if v[i] == c {
            proof { lemma_first_stop_is(v@, c, i as int); }
            return i;
        }
        i = i + 1;
    }
    proof { lemma_first_stop_is(v@, c, i as int); }
    i
}

} // verus!
