//! Bounded scanning primitives: find a marker, test a match at a
//! position, cut a range. Everything works over `Vec<char>`.
use vstd::prelude::*;

verus! {

/// `pat` occurs in `s` starting exactly at `i`.
pub open spec fn match_at(s: Seq<char>, pat: Seq<char>, i: int) -> bool {
    &&& 0 <= i
    &&& i + pat.len() <= s.len()
    &&& forall|k: int| 0 <= k < pat.len() ==> s[i + k] == pat[k]
}

/// The first position at or after `from` where `pat` occurs in `s`.
pub open spec fn spec_find_from(s: Seq<char>, pat: Seq<char>, from: int) -> Option<int>
    decreases s.len() - from,
{
    if from < 0 || from + pat.len() > s.len() {
        None
    } else if match_at(s, pat, from) {
        Some(from)
    } else {
        spec_find_from(s, pat, from + 1)
    }
}

/// `pat` occurs somewhere in `s` at or after `from`.
pub open spec fn contains_from(s: Seq<char>, pat: Seq<char>, from: int) -> bool {
    spec_find_from(s, pat, from) is Some
}

/// `pat` occurs somewhere in `s`.
pub open spec fn contains_seq(s: Seq<char>, pat: Seq<char>) -> bool {
    contains_from(s, pat, 0)
}

/// What `spec_find_from` promises: a found position carries a match and
/// is the first one at or after `from`; `None` means no position at or
/// after `from` matches.
pub proof fn lemma_find_from(s: Seq<char>, pat: Seq<char>, from: int)
    requires
        from >= 0,
    ensures
        match spec_find_from(s, pat, from) {
            Some(p) => from <= p && match_at(s, pat, p) && forall|q: int|
                from <= q < p ==> !match_at(s, pat, q),
            None => forall|q: int| from <= q ==> !match_at(s, pat, q),
        },
    decreases s.len() - from,
{
    if from + pat.len() > s.len() {
    } else if match_at(s, pat, from) {
    } else {
        lemma_find_from(s, pat, from + 1);
    }
}

/// Containment of a one-character pattern is membership.
pub proof fn lemma_contains_single(s: Seq<char>, c: char)
    ensures
        contains_seq(s, seq![c]) <==> s.contains(c),
{
    lemma_find_from(s, seq![c], 0);
    if contains_seq(s, seq![c]) {
        let w = spec_find_from(s, seq![c], 0)->Some_0;
        assert(match_at(s, seq![c], w));
        assert(s[w + 0] == seq![c][0]);
        assert(s[w] == c);
    }
    if s.contains(c) {
        let w = choose|w: int| 0 <= w < s.len() && s[w] == c;
        assert forall|k: int| 0 <= k < seq![c].len() implies s[w + k] == seq![c][k] by {
            assert(s[w + 0] == c);
        }
        assert(match_at(s, seq![c], w));
    }
}

/// Decides `match_at`.
pub fn starts_with_at(text: &Vec<char>, pat: &Vec<char>, i: usize) -> (r: bool)
    ensures
        r == match_at(text@, pat@, i as int),
{
    if i > text.len() || pat.len() > text.len() - i {
        return false;
    }
    let mut k: usize = 0;
    while k < pat.len()
        invariant
            k <= pat.len(),
            i + pat.len() <= text.len(),
            forall|j: int| 0 <= j < k ==> text@[i + j] == pat@[j],
        decreases pat.len() - k,
    {
        if text[i + k] != pat[k] {
            return false;
        }
        k = k + 1;
    }
    true
}

/// First occurrence of `pat` in `text` at or after `from`.
pub fn find_from(text: &Vec<char>, pat: &Vec<char>, from: usize) -> (r: Option<usize>)
    ensures
        match r {
            Some(p) => from <= p && spec_find_from(text@, pat@, from as int) == Some(p as int),
            None => spec_find_from(text@, pat@, from as int) is None,
        },
{
    if from > text.len() || pat.len() > text.len() - from {
        return None;
    }
    let mut i: usize = from;
    while i <= text.len() - pat.len()
        invariant
            from <= i,
            i + pat.len() <= text.len() + 1,
            pat.len() <= text.len(),
            spec_find_from(text@, pat@, from as int) == spec_find_from(text@, pat@, i as int),
        decreases text.len() - i,
    {
        if starts_with_at(text, pat, i) {
            return Some(i);
        }
        i = i + 1;
    }
    None
}

/// `pat` occurs in `text` at or after `from`.
pub fn contains_sub_from(text: &Vec<char>, pat: &Vec<char>, from: usize) -> (r: bool)
    ensures
        r == contains_from(text@, pat@, from as int),
{
    find_from(text, pat, from).is_some()
}

/// `pat` occurs in `text`.
pub fn contains_sub(text: &Vec<char>, pat: &Vec<char>) -> (r: bool)
    ensures
        r == contains_seq(text@, pat@),
{
    find_from(text, pat, 0).is_some()
}

/// The characters of `text[start..end]`.
pub fn subvec(text: &Vec<char>, start: usize, end: usize) -> (r: Vec<char>)
    requires
        start <= end <= text@.len(),
    ensures
        r@ == text@.subrange(start as int, end as int),
{
    let mut out: Vec<char> = Vec::new();
    let mut k: usize = start;
    while k < end
        invariant
            start <= k <= end <= text@.len(),
            out@ == text@.subrange(start as int, k as int),
        decreases end - k,
    {
        out.push(text[k]);
        proof {
            assert(text@.subrange(start as int, k + 1 as int) =~= text@.subrange(
                start as int,
                k as int,
            ).push(text@[k as int]));
        }
        k = k + 1;
    }
    out
}

} // verus!
