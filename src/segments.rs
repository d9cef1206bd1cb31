use vstd::prelude::*;

verus! {

/// The delimiter `d` stands in `s` starting at position `i`.
pub open spec fn occurs_at(s: Seq<char>, d: Seq<char>, i: int) -> bool {
    0 <= i && i + d.len() <= s.len() && s.subrange(i, i + d.len()) == d
}

/// The leftmost position at or after `start` where `d` stands in `s`.
pub open spec fn find_from(s: Seq<char>, d: Seq<char>, start: int) -> Option<int>
    decreases s.len() + 1 - start,
{
    if start < 0 || start + d.len() > s.len() {
        None
    } else if occurs_at(s, d, start) {
        Some(start)
    } else {
        find_from(s, d, start + 1)
    }
}

/// What the leftmost search finds: a position no earlier than `start` where
/// `d` stands, with no earlier one; or, when nothing is found, no position at all.
pub proof fn lemma_find_from(s: Seq<char>, d: Seq<char>, start: int)
    requires
        0 <= start,
    ensures
        match find_from(s, d, start) {
            Some(i) => start <= i && occurs_at(s, d, i) && forall|j: int|
                start <= j < i ==> !#[trigger] occurs_at(s, d, j),
            None => forall|j: int| start <= j ==> !#[trigger] occurs_at(s, d, j),
        },
    decreases s.len() + 1 - start,
{
    if start + d.len() > s.len() {
    } else if occurs_at(s, d, start) {
    } else {
        lemma_find_from(s, d, start + 1);
    }
}

/// Conversely: the first position at or after `start` where `d` stands is what
/// the search finds, and where it stands nowhere the search finds nothing.
pub proof fn lemma_find_from_exact(s: Seq<char>, d: Seq<char>, start: int, i: Option<int>)
    requires
        0 <= start,
        match i {
            Some(i) => start <= i && occurs_at(s, d, i) && forall|j: int|
                start <= j < i ==> !#[trigger] occurs_at(s, d, j),
            None => forall|j: int| start <= j ==> !#[trigger] occurs_at(s, d, j),
        },
    ensures
        find_from(s, d, start) == i,
{
    lemma_find_from(s, d, start);
    match (find_from(s, d, start), i) {
        (Some(a), Some(b)) => {
            if a < b {
                assert(!occurs_at(s, d, a));
            } else if b < a {
                assert(!occurs_at(s, d, b));
            }
        },
        (Some(a), None) => {
            assert(!occurs_at(s, d, a));
        },
        (None, Some(b)) => {
            assert(!occurs_at(s, d, b));
        },
        (None, None) => {},
    }
}

/// The segments of `s[start..]` between the non-overlapping occurrences of
/// `d`, found from left to right.
pub open spec fn segments_from(s: Seq<char>, d: Seq<char>, start: int) -> Seq<Seq<char>>
    decreases s.len() - start,
{
    if d.len() == 0 || start < 0 || start > s.len() {
        seq![]
    } else {
        match find_from(s, d, start) {
            Some(i) => {
                proof {
                    lemma_find_from(s, d, start);
                }
                seq![s.subrange(start, i)] + segments_from(s, d, i + d.len())
            },
            None => seq![s.subrange(start, s.len() as int)],
        }
    }
}

/// The segments of `s` split on every occurrence of a non-empty delimiter `d`.
pub open spec fn segments(s: Seq<char>, d: Seq<char>) -> Seq<Seq<char>> {
    segments_from(s, d, 0)
}

/// A non-empty delimiter splits any stretch of text into at least one segment.
pub proof fn lemma_segments_nonempty(s: Seq<char>, d: Seq<char>, start: int)
    requires
        d.len() > 0,
        0 <= start <= s.len(),
    ensures
        segments_from(s, d, start).len() >= 1,
{
}

/// Whether `d` stands in `s` at position `i`.
pub fn matches_at(s: &Vec<char>, d: &Vec<char>, i: usize) -> (r: bool)
    requires
        i + d@.len() <= s@.len(),
    ensures
        r == occurs_at(s@, d@, i as int),
{
    let mut k: usize = 0;
    while k < d.len()
        invariant
            i + d@.len() <= s@.len(),
            k <= d@.len(),
            forall|j: int| 0 <= j < k ==> s@[i + j] == d@[j],
        decreases d@.len() - k,
    {
        let n = s.len();
        assert(i + k < n);
        if s[i + k] != d[k] {
            assert(s@.subrange(i as int, i + d@.len())[k as int] != d@[k as int]);
            return false;
        }
        k = k + 1;
    }
    assert(s@.subrange(i as int, i + d@.len()) =~= d@);
    true
}

/// The leftmost position at or after `start` where `d` stands in `s`.
pub fn find(s: &Vec<char>, d: &Vec<char>, start: usize) -> (r: Option<usize>)
    requires
        start <= s@.len(),
    ensures
        r is None <==> find_from(s@, d@, start as int) is None,
        r is Some ==> find_from(s@, d@, start as int) == Some(r->0 as int),
{
    if d.len() > s.len() || start > s.len() - d.len() {
        return None;
    }
    let last = s.len() - d.len();
    let mut i: usize = start;
    loop
        invariant
            start <= i <= last,
            last + d@.len() == s@.len(),
            find_from(s@, d@, start as int) == find_from(s@, d@, i as int),
        decreases last - i,
    {
        if matches_at(s, d, i) {
            return Some(i);
        }
        if i == last {
            assert(find_from(s@, d@, i + 1) is None);
            return None;
        }
        i = i + 1;
    }
}

} // verus!
