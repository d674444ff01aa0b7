//! Character-level string operations on which the search is built.

use vstd::prelude::*;

verus! {

/// The characters of each string of a sequence.
pub open spec fn string_views(v: Seq<String>) -> Seq<Seq<char>> {
    v.map_values(|s: String| s@)
}

/// `needle` occurs in `hay` starting at character `i`.
pub open spec fn occurs_at(hay: Seq<char>, needle: Seq<char>, i: int) -> bool {
    &&& 0 <= i
    &&& i + needle.len() <= hay.len()
    &&& hay.subrange(i, i + needle.len()) == needle
}

/// `needle` occurs somewhere in `hay`.
pub open spec fn contains(hay: Seq<char>, needle: Seq<char>) -> bool {
    exists|i: int| occurs_at(hay, needle, i)
}

/// `i` is the leftmost position at which `needle` occurs in `hay`.
pub open spec fn is_first_occurrence(hay: Seq<char>, needle: Seq<char>, i: int) -> bool {
    &&& occurs_at(hay, needle, i)
    &&& forall|j: int| 0 <= j < i ==> !occurs_at(hay, needle, j)
}

/// The leftmost position of `needle` in `hay`, if it occurs at all.
pub open spec fn first_occurrence(hay: Seq<char>, needle: Seq<char>) -> Option<int> {
    if contains(hay, needle) {
        Some(choose|i: int| is_first_occurrence(hay, needle, i))
    } else {
        None
    }
}

/// An occurrence at `i` means a leftmost occurrence exists at or before `i`.
proof fn lemma_leftmost_below(hay: Seq<char>, needle: Seq<char>, i: int)
    requires
        occurs_at(hay, needle, i),
    ensures
        exists|k: int| 0 <= k <= i && is_first_occurrence(hay, needle, k),
    decreases i,
{
    if exists|j: int| 0 <= j < i && occurs_at(hay, needle, j) {
        let j = choose|j: int| 0 <= j < i && occurs_at(hay, needle, j);
        lemma_leftmost_below(hay, needle, j);
    } else {
        assert(is_first_occurrence(hay, needle, i));
    }
}

/// `first_occurrence` names the leftmost occurrence whenever there is one.
pub proof fn lemma_first_occurrence(hay: Seq<char>, needle: Seq<char>)
    ensures
        first_occurrence(hay, needle) matches Some(p) ==> is_first_occurrence(hay, needle, p),
        first_occurrence(hay, needle) is None <==> !contains(hay, needle),
{
    if contains(hay, needle) {
        let i = choose|i: int| occurs_at(hay, needle, i);
        lemma_leftmost_below(hay, needle, i);
    }
}

/// The characters of `s`, one by one.
pub fn chars_of(s: &str) -> (v: Vec<char>)
    ensures
        v@ == s@,
{
    let mut v: Vec<char> = Vec::new();
    for c in it: s.chars()
        invariant
            v@ == it.seq().take(it.index()),
    {
        v.push(c);
    }
    v
}

/// Whether `needle` occurs in `hay` at position `i`.
fn matches_at(hay: &Vec<char>, needle: &Vec<char>, i: usize) -> (b: bool)
    requires
        i + needle@.len() <= hay@.len(),
    ensures
        b == occurs_at(hay@, needle@, i as int),
{
    let n = needle.len();
    let mut j: usize = 0;
    while j < n
        invariant
            n == needle@.len(),
            i + n <= hay.len(),
            j <= n,
            forall|k: int| 0 <= k < j ==> hay@[i + k] == needle@[k],
        decreases n - j,
    {
        if hay[i + j] != needle[j] {
            assert(hay@.subrange(i as int, i + n)[j as int] != needle@[j as int]);
            return false;
        }
        j = j + 1;
    }
    assert(hay@.subrange(i as int, i + n) =~= needle@);
    true
}

/// The leftmost position of `needle` in `hay`, counted in characters.
pub fn find_chars(hay: &Vec<char>, needle: &Vec<char>) -> (r: Option<usize>)
    ensures
        match r {
            Some(i) => first_occurrence(hay@, needle@) == Some(i as int),
            None => first_occurrence(hay@, needle@) is None,
        },
{
    if needle.len() > hay.len() {
        assert forall|j: int| !occurs_at(hay@, needle@, j) by {}
        return None;
    }
    let last = hay.len() - needle.len();
    let mut i: usize = 0;
    loop
        invariant
            last + needle@.len() == hay@.len(),
            i <= last,
            forall|j: int| 0 <= j < i ==> !occurs_at(hay@, needle@, j),
        decreases last - i,
    {
        if matches_at(hay, needle, i) {
            proof {
                assert(is_first_occurrence(hay@, needle@, i as int));
                let c = choose|k: int| is_first_occurrence(hay@, needle@, k);
                assert(c == i);
            }
            return Some(i);
        }
        if i == last {
            return None;
        }
        i = i + 1;
    }
}

/// How many times a non-empty `needle` occurs in `hay` when the occurrences are taken from
/// left to right without overlapping, as `str::matches` finds them.
pub open spec fn non_overlapping_count(hay: Seq<char>, needle: Seq<char>) -> nat
    decreases hay.len(),
{
    if needle.len() == 0 || hay.len() < needle.len() {
        0
    } else if hay.take(needle.len() as int) == needle {
        1 + non_overlapping_count(hay.skip(needle.len() as int), needle)
    } else {
        non_overlapping_count(hay.skip(1), needle)
    }
}

/// A non-empty needle that occurs is counted at least once; one that does not is not counted.
pub proof fn lemma_count_positive(hay: Seq<char>, needle: Seq<char>)
    requires
        needle.len() > 0,
    ensures
        contains(hay, needle) <==> non_overlapping_count(hay, needle) >= 1,
    decreases hay.len(),
{
    if hay.len() >= needle.len() {
        if hay.take(needle.len() as int) == needle {
            assert(occurs_at(hay, needle, 0)) by {
                assert(hay.subrange(0, 0 + needle.len() as int) =~= hay.take(needle.len() as int));
            }
        } else {
            let rest = hay.skip(1);
            lemma_count_positive(rest, needle);
            if contains(hay, needle) {
                let i = choose|i: int| occurs_at(hay, needle, i);
                if i == 0 {
                    assert(hay.subrange(0, 0 + needle.len() as int) =~= hay.take(needle.len() as int));
                }
                assert(rest.subrange(i - 1, i - 1 + needle.len()) =~= hay.subrange(
                    i,
                    i + needle.len(),
                ));
                assert(occurs_at(rest, needle, i - 1));
            }
            if contains(rest, needle) {
                let j = choose|j: int| occurs_at(rest, needle, j);
                assert(hay.subrange(j + 1, j + 1 + needle.len()) =~= rest.subrange(
                    j,
                    j + needle.len(),
                ));
                assert(occurs_at(hay, needle, j + 1));
            }
        }
    } else {
        if contains(hay, needle) {
            let i = choose|i: int| occurs_at(hay, needle, i);
        }
    }
}

/// The number of non-overlapping occurrences of a non-empty `needle` in `hay`.
pub fn count_occurrences(hay: &Vec<char>, needle: &Vec<char>) -> (r: usize)
    requires
        needle@.len() > 0,
    ensures
        r == non_overlapping_count(hay@, needle@),
{
    let n = needle.len();
    let len = hay.len();
    let mut count: usize = 0;
    let mut i: usize = 0;
    assert(hay@.skip(0) =~= hay@);
    while i <= len && n <= len - i
        invariant
            n == needle@.len(),
            n > 0,
            len == hay@.len(),
            i <= len,
            count <= i,
            count + non_overlapping_count(hay@.skip(i as int), needle@) == non_overlapping_count(
                hay@,
                needle@,
            ),
        decreases len - i,
    {
        let ghost rest = hay@.skip(i as int);
        if matches_at(hay, needle, i) {
            assert(rest.take(n as int) =~= hay@.subrange(i as int, i + n));
            assert(rest.skip(n as int) =~= hay@.skip(i + n));
            count = count + 1;
            i = i + n;
        } else {
            assert(rest.take(n as int) =~= hay@.subrange(i as int, i + n));
            assert(rest.skip(1) =~= hay@.skip(i + 1));
            i = i + 1;
        }
    }
    assert(hay@.skip(i as int).len() < n);
    count
}

} // verus!
