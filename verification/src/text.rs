//! Searching and cutting text, as sequences of characters.

use vstd::prelude::*;
use vstd::string::StrSliceExecFns;

verus! {

/// `pat` stands in `text` at position `i`.
pub open spec fn occurs_at(text: Seq<char>, pat: Seq<char>, i: int) -> bool {
    &&& 0 <= i
    &&& i + pat.len() <= text.len()
    &&& forall|k: int| 0 <= k < pat.len() ==> text[i + k] == #[trigger] pat[k]
}

/// `pat` stands somewhere in `text`.
pub open spec fn occurs(text: Seq<char>, pat: Seq<char>) -> bool {
    exists|i: int| occurs_at(text, pat, i)
}

/// `i` is the leftmost position at which `pat` stands in `text`.
pub open spec fn is_first_occurrence(text: Seq<char>, pat: Seq<char>, i: int) -> bool {
    &&& occurs_at(text, pat, i)
    &&& forall|j: int| 0 <= j < i ==> !occurs_at(text, pat, j)
}

/// The leftmost position at which `pat` stands in `text`, if there is one.
pub open spec fn first_occurrence(text: Seq<char>, pat: Seq<char>) -> Option<int> {
    if occurs(text, pat) {
        Some(choose|i: int| is_first_occurrence(text, pat, i))
    } else {
        None
    }
}

/// A leftmost position is the one that `first_occurrence` gives.
pub proof fn lemma_first_occurrence_is(text: Seq<char>, pat: Seq<char>, i: int)
    requires
        is_first_occurrence(text, pat, i),
    ensures
        first_occurrence(text, pat) == Some(i),
{
    assert(occurs_at(text, pat, i));
    let j = choose|j: int| is_first_occurrence(text, pat, j);
    assert(is_first_occurrence(text, pat, j));
    if j < i {
        assert(!occurs_at(text, pat, j));
    } else if i < j {
        assert(!occurs_at(text, pat, i));
    }
}

/// Where a pattern stands nowhere, there is no leftmost position.
pub proof fn lemma_first_occurrence_none(text: Seq<char>, pat: Seq<char>)
    requires
        forall|j: int| 0 <= j ==> !occurs_at(text, pat, j),
    ensures
        first_occurrence(text, pat) is None,
{
    if occurs(text, pat) {
        let i = choose|i: int| occurs_at(text, pat, i);
        assert(!occurs_at(text, pat, i));
    }
}

/// The characters of a text, one by one.
pub fn chars_of(s: &str) -> (v: Vec<char>)
    ensures
        v@ == s@,
{
    let n = s.unicode_len();
    let mut v: Vec<char> = Vec::new();
    let mut i: usize = 0;
    while i < n
        invariant
            n == s@.len(),
            i <= n,
            v@ == s@.subrange(0, i as int),
        decreases n - i,
    {
        v.push(s.get_char(i));
        i += 1;
        assert(v@ =~= s@.subrange(0, i as int));
    }
    assert(s@.subrange(0, n as int) =~= s@);
    v
}

/// Tells whether `pat` stands in `text` at position `at`.
pub fn matches_at(text: &Vec<char>, pat: &Vec<char>, at: usize) -> (b: bool)
    ensures
        b == occurs_at(text@, pat@, at as int),
{
    if pat.len() > text.len() || at > text.len() - pat.len() {
        return false;
    }
    let mut k: usize = 0;
    while k < pat.len()
        invariant
            k <= pat.len(),
            at + pat.len() <= text.len(),
            forall|j: int| 0 <= j < k ==> text@[at + j] == #[trigger] pat@[j],
        decreases pat.len() - k,
    {
        if text[at + k] != pat[k] {
            return false;
        }
        k += 1;
    }
    true
}

/// Finds the leftmost position at which `pat` stands in `text`.
pub fn find(text: &Vec<char>, pat: &Vec<char>) -> (r: Option<usize>)
    ensures
        r matches Some(i) ==> first_occurrence(text@, pat@) == Some(i as int),
        r is None ==> first_occurrence(text@, pat@) is None,
{
    if pat.len() > text.len() {
        proof {
            lemma_first_occurrence_none(text@, pat@);
        }
        return None;
    }
    let last = text.len() - pat.len();
    let mut i: usize = 0;
    while i <= last
        invariant
            last + pat.len() == text.len(),
            i <= last + 1,
            forall|j: int| 0 <= j < i ==> !occurs_at(text@, pat@, j),
        decreases last + 1 - i,
    {
        if matches_at(text, pat, i) {
            proof {
                lemma_first_occurrence_is(text@, pat@, i as int);
            }
            return Some(i);
        }
        i += 1;
    }
    proof {
        lemma_first_occurrence_none(text@, pat@);
    }
    None
}

} // verus!
