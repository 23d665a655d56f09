//! Sentence-boundary-aware excerpt capping and paragraph normalization.
use vstd::prelude::*;

use crate::chars::{chars_of, string_of};
use crate::scan::{match_at, subvec};
use crate::text::{is_ws, ws_char, trim_start_ws, trim_end_ws, spec_trim_ws};

verus! {

/// Longest excerpt kept without truncation, in characters.
pub const EXCERPT_MAX: usize = 2000;

/// `s[i..]` with each run of white space collapsed to a single space;
/// `prev` says whether the previous character was white space.
pub open spec fn collapse_ws_from(s: Seq<char>, i: int, prev: bool) -> Seq<char>
    decreases s.len() - i,
{
    if i < 0 || i >= s.len() {
        Seq::empty()
    } else if is_ws(s[i]) {
        if prev {
            collapse_ws_from(s, i + 1, true)
        } else {
            seq![' '] + collapse_ws_from(s, i + 1, true)
        }
    } else {
        seq![s[i]] + collapse_ws_from(s, i + 1, false)
    }
}

/// What `collapse_ws_chars` returns.
pub open spec fn spec_collapse_ws(s: Seq<char>) -> Seq<char> {
    collapse_ws_from(s, 0, false)
}

/// Collapse each run of white space to one space.
pub fn collapse_ws_chars(text: &Vec<char>) -> (r: Vec<char>)
    ensures
        r@ == spec_collapse_ws(text@),
{
    let n = text.len();
    let mut out: Vec<char> = Vec::new();
    let mut prev = false;
    let mut i: usize = 0;
    while i < n
        invariant
            i <= n == text.len(),
            collapse_ws_from(text@, 0, false) == out@ + collapse_ws_from(text@, i as int, prev),
        decreases n - i,
    {
        let c = text[i];
        if ws_char(c) {
            if !prev {
                out.push(' ');
            }
            prev = true;
        } else {
            out.push(c);
            prev = false;
        }
        i = i + 1;
    }
    out
}

/// Remove white space at both ends.
pub fn trim_ws_chars(text: &Vec<char>) -> (r: Vec<char>)
    ensures
        r@ == spec_trim_ws(text@),
{
    let mut end: usize = text.len();
    proof {
        assert(text@.take(end as int) =~= text@);
    }
    while end > 0 && ws_char(text[end - 1])
        invariant
            end <= text.len(),
            trim_end_ws(text@) == trim_end_ws(text@.take(end as int)),
        decreases end,
    {
        proof {
            assert(text@.take(end as int).drop_last() =~= text@.take(end - 1));
        }
        end = end - 1;
    }
    proof {
        assert(trim_end_ws(text@) == text@.take(end as int));
    }
    let mut start: usize = 0;
    while start < end && ws_char(text[start])
        invariant
            start <= end <= text.len(),
            trim_end_ws(text@) == text@.take(end as int),
            trim_start_ws(text@.take(end as int)) == trim_start_ws(
                text@.subrange(start as int, end as int),
            ),
        decreases end - start,
    {
        proof {
            assert(text@.subrange(start as int, end as int).drop_first() =~= text@.subrange(
                start + 1 as int,
                end as int,
            ));
        }
        start = start + 1;
    }
    proof {
        assert(trim_start_ws(text@.subrange(start as int, end as int)) == text@.subrange(
            start as int,
            end as int,
        ));
    }
    subvec(text, start, end)
}

/// The last position before `end` where `pat` starts and fits wholly
/// within `s[..end]`.
pub open spec fn spec_rfind_before(s: Seq<char>, pat: Seq<char>, end: int) -> Option<int>
    decreases end,
{
    if end < pat.len() || end > s.len() {
        None
    } else if match_at(s, pat, end - pat.len()) {
        Some(end - pat.len())
    } else {
        spec_rfind_before(s, pat, end - 1)
    }
}

/// Last occurrence of `pat` fitting within `text[..end]`.
pub fn rfind_before(text: &Vec<char>, pat: &Vec<char>, end: usize) -> (r: Option<usize>)
    requires
        end <= text@.len(),
        pat@.len() > 0,
    ensures
        match r {
            Some(p) => spec_rfind_before(text@, pat@, end as int) == Some(p as int),
            None => spec_rfind_before(text@, pat@, end as int) is None,
        },
{
    let mut e: usize = end;
    while e >= pat.len()
        invariant
            e <= end <= text@.len(),
            spec_rfind_before(text@, pat@, end as int) == spec_rfind_before(
                text@,
                pat@,
                e as int,
            ),
        decreases e,
    {
        if crate::scan::starts_with_at(text, pat, e - pat.len()) {
            return Some(e - pat.len());
        }
        e = e - 1;
    }
    None
}

/// What excerpt truncation returns: text of at most `EXCERPT_MAX`
/// characters stays whole; longer text is cut just after the last
/// sentence boundary `". "` that fits within the first `EXCERPT_MAX`
/// characters, the period kept; with no such boundary it is cut hard at
/// `EXCERPT_MAX` characters and an ellipsis is appended.
pub open spec fn spec_truncate(s: Seq<char>) -> Seq<char> {
    if s.len() <= EXCERPT_MAX {
        s
    } else {
        match spec_rfind_before(s, ". "@, EXCERPT_MAX as int) {
            Some(p) => s.take(p + 1),
            None => s.take(EXCERPT_MAX as int) + "..."@,
        }
    }
}

/// Cap an excerpt at a sentence boundary.
pub fn truncate_chars(text: &Vec<char>) -> (r: Vec<char>)
    ensures
        r@ == spec_truncate(text@),
{
    if text.len() <= EXCERPT_MAX {
        let r = subvec(text, 0, text.len());
        proof {
            assert(r@ =~= text@);
        }
        return r;
    }
    let pat = chars_of(". ");
    proof {
        reveal_strlit(". ");
        reveal_strlit("...");
    }
    match rfind_before(text, &pat, EXCERPT_MAX) {
        Some(p) => {
            proof {
                lemma_rfind_in_range(text@, ". "@, EXCERPT_MAX as int);
            }
            subvec(text, 0, p + 1)
        },
        None => {
            let mut r = subvec(text, 0, EXCERPT_MAX);
            r.push('.');
            r.push('.');
            r.push('.');
            proof {
                assert(r@ =~= text@.take(EXCERPT_MAX as int) + "..."@);
            }
            r
        },
    }
}

/// A found occurrence lies wholly before `end`.
pub proof fn lemma_rfind_in_range(s: Seq<char>, pat: Seq<char>, end: int)
    requires
        0 <= end <= s.len(),
    ensures
        match spec_rfind_before(s, pat, end) {
            Some(p) => 0 <= p && p + pat.len() <= end,
            None => true,
        },
    decreases end,
{
    if end < pat.len() || end > s.len() {
    } else if match_at(s, pat, end - pat.len()) {
    } else {
        lemma_rfind_in_range(s, pat, end - 1);
    }
}

/// Truncation caps every text: at most `EXCERPT_MAX` characters when a
/// sentence boundary is found or the text was short, and exactly
/// `EXCERPT_MAX` plus the three ellipsis characters otherwise.
pub proof fn lemma_truncate_bounded(s: Seq<char>)
    ensures
        spec_truncate(s).len() <= EXCERPT_MAX + 3,
        s.len() <= EXCERPT_MAX ==> spec_truncate(s) == s,
{
    reveal_strlit("...");
    reveal_strlit(". ");
    if s.len() > EXCERPT_MAX {
        lemma_rfind_in_range(s, ". "@, EXCERPT_MAX as int);
    }
}

/// Cap an excerpt at a sentence boundary, as a string.
pub fn truncate_excerpt(text: &str) -> (r: String)
    ensures
        r@ == spec_truncate(text@),
{
    let cs = chars_of(text);
    let out = truncate_chars(&cs);
    string_of(&out)
}

} // verus!
