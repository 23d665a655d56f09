//! Multi-pass fuzzy slug matching over search-result candidates.
use vstd::prelude::*;

use crate::chars::{chars_of, string_of};
use crate::scan::{spec_find_from, lemma_find_from, contains_seq, contains_sub, find_from,
    subvec};
use crate::excerpt::{spec_rfind_before, rfind_before};
use crate::text::spec_slugify;

verus! {

/// A discovered link plus a trailing window of the surrounding text,
/// used as a secondary signal for artist verification.
pub struct Candidate {
    pub url: String,
    pub context: String,
}

pub open spec fn is_hex_char(c: char) -> bool {
    ('0' <= c && c <= '9') || ('a' <= c && c <= 'f') || ('A' <= c && c <= 'F')
}

pub open spec fn hex_char_val(c: char) -> int {
    if '0' <= c && c <= '9' {
        c as int - 48
    } else if 'a' <= c && c <= 'f' {
        c as int - 87
    } else {
        c as int - 55
    }
}

/// `s[i..]` with each `%XX` escape (two hexadecimal digits) replaced by
/// the character of that byte value; a `%` not followed by two
/// hexadecimal digits stays literal. Multi-byte UTF-8 escape sequences
/// are not reassembled; each escaped byte stands alone.
pub open spec fn decode_url_from(s: Seq<char>, i: int) -> Seq<char>
    decreases s.len() - i,
{
    if i < 0 || i >= s.len() {
        Seq::empty()
    } else if s[i] == '%' && i + 2 < s.len() && is_hex_char(s[i + 1]) && is_hex_char(
        s[i + 2],
    ) {
        seq![((16 * hex_char_val(s[i + 1]) + hex_char_val(s[i + 2])) as u8) as char]
            + decode_url_from(s, i + 3)
    } else {
        seq![s[i]] + decode_url_from(s, i + 1)
    }
}

/// What `simple_url_decode` returns.
pub open spec fn spec_url_decode(s: Seq<char>) -> Seq<char> {
    decode_url_from(s, 0)
}

/// Percent-decode a URL path segment.
pub fn url_decode_chars(text: &Vec<char>) -> (r: Vec<char>)
    ensures
        r@ == spec_url_decode(text@),
{
    let n = text.len();
    let mut out: Vec<char> = Vec::new();
    let mut i: usize = 0;
    while i < n
        invariant
            i <= n == text.len(),
            decode_url_from(text@, 0) == out@ + decode_url_from(text@, i as int),
        decreases n - i,
    {
        let c = text[i];
        if c == '%' && n - i > 2 {
            let c1 = text[i + 1];
            let c2 = text[i + 2];
            let h1 = hex_digit_val(c1);
            let h2 = hex_digit_val(c2);
            match (h1, h2) {
                (Some(v1), Some(v2)) => {
                    let b: u8 = (16 * v1 + v2) as u8;
                    out.push(b as char);
                    i = i + 3;
                },
                _ => {
                    out.push(c);
                    i = i + 1;
                },
            }
        } else {
            out.push(c);
            i = i + 1;
        }
    }
    out
}

/// The value of one hexadecimal digit.
fn hex_digit_val(c: char) -> (r: Option<u8>)
    ensures
        r matches Some(v) ==> is_hex_char(c) && v == hex_char_val(c) && v < 16,
        r is None ==> !is_hex_char(c),
{
    if '0' <= c && c <= '9' {
        Some((c as u32 - 48) as u8)
    } else if 'a' <= c && c <= 'f' {
        Some((c as u32 - 87) as u8)
    } else if 'A' <= c && c <= 'F' {
        Some((c as u32 - 55) as u8)
    } else {
        None
    }
}

/// Simple percent-decoding for URL path segments.
pub fn simple_url_decode(s: &str) -> (r: String)
    ensures
        r@ == spec_url_decode(s@),
{
    let cs = chars_of(s);
    let out = url_decode_chars(&cs);
    string_of(&out)
}

/// The title slug is at least 70 percent of the URL slug's length, and
/// the URL slug is not empty. Guards pass two against short titles
/// matching inside long unrelated slugs.
pub open spec fn spec_close_length(title_slug: Seq<char>, url_slug: Seq<char>) -> bool {
    url_slug.len() > 0 && 10 * title_slug.len() >= 7 * url_slug.len()
}

/// Length-ratio guard for substring matches.
pub fn is_close_length(title_slug: &str, url_slug: &str) -> (r: bool)
    ensures
        r == spec_close_length(title_slug@, url_slug@),
{
    let t = chars_of(title_slug);
    let u = chars_of(url_slug);
    close_length_chars(&t, &u)
}

/// Length-ratio guard over character vectors.
pub fn close_length_chars(title_slug: &Vec<char>, url_slug: &Vec<char>) -> (r: bool)
    ensures
        r == spec_close_length(title_slug@, url_slug@),
{
    if url_slug.len() == 0 {
        return false;
    }
    let t: u128 = title_slug.len() as u128;
    let u: u128 = url_slug.len() as u128;
    10 * t >= 7 * u
}

/// A URL slug counts as an exact match when it equals the title slug
/// directly, or after percent-decoding and re-slugifying.
pub open spec fn spec_slug_exact(url_slug: Seq<char>, title_slug: Seq<char>) -> bool {
    url_slug == title_slug || spec_slugify(spec_url_decode(url_slug)) == title_slug
}

/// Exact slug match, directly or after decoding.
pub fn slug_exact_chars(url_slug: &Vec<char>, title_slug: &Vec<char>) -> (r: bool)
    ensures
        r == spec_slug_exact(url_slug@, title_slug@),
{
    if eq_chars(url_slug, title_slug) {
        return true;
    }
    let decoded = url_decode_chars(url_slug);
    let ds = string_of(&decoded);
    let reslugged = crate::text::slugify(ds.as_str());
    let rv = chars_of(reslugged.as_str());
    eq_chars(&rv, title_slug)
}

/// A URL slug counts as a substring match when it contains the title
/// slug - directly or after decoding and re-slugifying - and the
/// length-ratio guard holds.
pub open spec fn spec_slug_contains(url_slug: Seq<char>, title_slug: Seq<char>) -> bool {
    let decoded = spec_slugify(spec_url_decode(url_slug));
    (contains_seq(url_slug, title_slug) && spec_close_length(title_slug, url_slug))
        || (contains_seq(decoded, title_slug) && spec_close_length(title_slug, decoded))
}

/// Substring slug match with the length-ratio guard.
pub fn slug_contains_chars(url_slug: &Vec<char>, title_slug: &Vec<char>) -> (r: bool)
    ensures
        r == spec_slug_contains(url_slug@, title_slug@),
{
    if contains_sub(url_slug, title_slug) && close_length_chars(title_slug, url_slug) {
        return true;
    }
    let decoded = url_decode_chars(url_slug);
    let ds = string_of(&decoded);
    let reslugged = crate::text::slugify(ds.as_str());
    let rv = chars_of(reslugged.as_str());
    contains_sub(&rv, title_slug) && close_length_chars(title_slug, &rv)
}

/// Character-wise equality of two vectors.
pub fn eq_chars(a: &Vec<char>, b: &Vec<char>) -> (r: bool)
    ensures
        r == (a@ == b@),
{
    if a.len() != b.len() {
        proof {
            assert(a@ != b@);
        }
        return false;
    }
    let n = a.len();
    let mut i: usize = 0;
    while i < n
        invariant
            i <= n == a.len() && n == b.len(),
            forall|j: int| 0 <= j < i ==> a@[j] == b@[j],
        decreases n - i,
    {
        if a[i] != b[i] {
            return false;
        }
        i = i + 1;
    }
    proof {
        assert(a@ =~= b@);
    }
    true
}

/// The slug of an album URL: the part between the first `/album/` and
/// the next one (or the end), cut before the last `-mw` marker; an URL
/// without `/album/` yields the empty slug.
pub open spec fn spec_slug_of_url(url: Seq<char>) -> Seq<char> {
    match spec_find_from(url, "/album/"@, 0) {
        Some(p) => {
            let path_end = match spec_find_from(url, "/album/"@, p + 7) {
                Some(q2) => q2,
                None => url.len() as int,
            };
            let path = url.subrange(p + 7, path_end);
            match spec_rfind_before(path, "-mw"@, path.len() as int) {
                Some(q) => path.take(q),
                None => path,
            }
        },
        None => Seq::empty(),
    }
}

/// Extract the title slug from an album URL.
pub fn slug_of_url_chars(url: &Vec<char>) -> (r: Vec<char>)
    ensures
        r@ == spec_slug_of_url(url@),
{
    proof {
        reveal_strlit("/album/");
    }
    let pat = chars_of("/album/");
    match find_from(url, &pat, 0) {
        Some(p) => {
            let ul = url.len();
            proof {
                lemma_find_from(url@, "/album/"@, 0);
                assert(p + 7 <= ul);
            }
            let path_end = match find_from(url, &pat, p + 7) {
                Some(q2) => {
                    proof {
                        lemma_find_from(url@, "/album/"@, p + 7 as int);
                    }
                    q2
                },
                None => ul,
            };
            let path = subvec(url, p + 7, path_end);
            let mw = chars_of("-mw");
            proof {
                reveal_strlit("-mw");
            }
            match rfind_before(&path, &mw, path.len()) {
                Some(q) => {
                    proof {
                        crate::excerpt::lemma_rfind_in_range(path@, "-mw"@, path@.len() as int);
                    }
                    subvec(&path, 0, q)
                },
                None => path,
            }
        },
        None => Vec::new(),
    }
}

/// The candidate's context window, slugified, mentions the artist slug;
/// an empty artist slug verifies vacuously.
pub open spec fn spec_ctx_ok(context: Seq<char>, artist_slug: Seq<char>) -> bool {
    contains_seq(spec_slugify(context), artist_slug) || artist_slug.len() == 0
}

/// Pass one: exact slug match with artist verified by context.
pub open spec fn pass1_hit(c: Candidate, ts: Seq<char>, asl: Seq<char>) -> bool {
    spec_slug_exact(spec_slug_of_url(c.url@), ts) && spec_ctx_ok(c.context@, asl)
}

/// An exact slug match, verified or not.
pub open spec fn exact_hit(c: Candidate, ts: Seq<char>) -> bool {
    spec_slug_exact(spec_slug_of_url(c.url@), ts)
}

/// Pass two: substring slug match under the length-ratio guard, with
/// artist verified by context.
pub open spec fn pass2_hit(c: Candidate, ts: Seq<char>, asl: Seq<char>) -> bool {
    spec_slug_contains(spec_slug_of_url(c.url@), ts) && spec_ctx_ok(c.context@, asl)
}

/// Index of the first pass-one hit at or after `i`.
pub open spec fn first_pass1(cands: Seq<Candidate>, ts: Seq<char>, asl: Seq<char>, i: int) -> Option<int>
    decreases cands.len() - i,
{
    if i < 0 || i >= cands.len() {
        None
    } else if pass1_hit(cands[i], ts, asl) {
        Some(i)
    } else {
        first_pass1(cands, ts, asl, i + 1)
    }
}

/// Index of the first exact slug match at or after `i`.
pub open spec fn first_exact(cands: Seq<Candidate>, ts: Seq<char>, i: int) -> Option<int>
    decreases cands.len() - i,
{
    if i < 0 || i >= cands.len() {
        None
    } else if exact_hit(cands[i], ts) {
        Some(i)
    } else {
        first_exact(cands, ts, i + 1)
    }
}

/// Index of the first pass-two hit at or after `i`.
pub open spec fn first_pass2(cands: Seq<Candidate>, ts: Seq<char>, asl: Seq<char>, i: int) -> Option<int>
    decreases cands.len() - i,
{
    if i < 0 || i >= cands.len() {
        None
    } else if pass2_hit(cands[i], ts, asl) {
        Some(i)
    } else {
        first_pass2(cands, ts, asl, i + 1)
    }
}

/// What the matcher returns, in strict priority order: the first exact
/// match verified by context; else the first guarded substring match
/// verified by context; else the first exact match without verification;
/// else nothing.
pub open spec fn spec_find_best(cands: Seq<Candidate>, ts: Seq<char>, asl: Seq<char>) -> Option<
    Seq<char>,
> {
    match first_pass1(cands, ts, asl, 0) {
        Some(i) => Some(cands[i].url@),
        None => match first_pass2(cands, ts, asl, 0) {
            Some(i) => Some(cands[i].url@),
            None => match first_exact(cands, ts, 0) {
                Some(i) => Some(cands[i].url@),
                None => None,
            },
        },
    }
}

/// Find the best matching album URL among the candidates.
pub fn find_best_album_match(cands: &Vec<Candidate>, title_slug: &str, artist_slug: &str) -> (r:
    Option<String>)
    ensures
        match r {
            Some(u) => spec_find_best(cands@, title_slug@, artist_slug@) == Some(u@),
            None => spec_find_best(cands@, title_slug@, artist_slug@) is None,
        },
{
    let ts = chars_of(title_slug);
    let asl = chars_of(artist_slug);
    let n = cands.len();

    let mut fallback: Option<String> = None;
    let ghost mut fe: Option<int> = None;

    let mut i: usize = 0;
    while i < n
        invariant
            i <= n == cands.len(),
            ts@ == title_slug@,
            asl@ == artist_slug@,
            first_pass1(cands@, ts@, asl@, 0) == first_pass1(cands@, ts@, asl@, i as int),
            first_exact(cands@, ts@, 0) == match fe {
                Some(k) => Some(k),
                None => first_exact(cands@, ts@, i as int),
            },
            match fe {
                Some(k) => 0 <= k < i && exact_hit(cands@[k], ts@) && (fallback matches Some(u)
                    && u@ == cands@[k].url@),
                None => fallback is None,
            },
        decreases n - i,
    {
        let cand: &Candidate = &cands[i];
        let url_chars = chars_of(cand.url.as_str());
        let url_slug = slug_of_url_chars(&url_chars);
        let is_exact = slug_exact_chars(&url_slug, &ts);
        if is_exact {
            let ctx = context_ok(&cand.context, &asl);
            if ctx {
                return Some(cand.url.clone());
            }
            if fallback.is_none() {
                fallback = Some(cand.url.clone());
                proof {
                    fe = Some(i as int);
                }
            }
        } else {
            proof {
                assert(!pass1_hit(cands@[i as int], ts@, asl@));
            }
        }
        i = i + 1;
    }

    let mut j: usize = 0;
    while j < n
        invariant
            j <= n == cands.len(),
            ts@ == title_slug@,
            asl@ == artist_slug@,
            first_pass1(cands@, ts@, asl@, 0) is None,
            first_pass2(cands@, ts@, asl@, 0) == first_pass2(cands@, ts@, asl@, j as int),
            first_exact(cands@, ts@, 0) == match fe {
                Some(k) => Some(k),
                None => None,
            },
            match fe {
                Some(k) => 0 <= k < n && exact_hit(cands@[k], ts@) && (fallback matches Some(u)
                    && u@ == cands@[k].url@),
                None => fallback is None,
            },
        decreases n - j,
    {
        let cand: &Candidate = &cands[j];
        let url_chars = chars_of(cand.url.as_str());
        let url_slug = slug_of_url_chars(&url_chars);
        if slug_contains_chars(&url_slug, &ts) {
            let ctx = context_ok(&cand.context, &asl);
            if ctx {
                return Some(cand.url.clone());
            }
        }
        j = j + 1;
    }

    fallback
}

/// Decide artist verification against a candidate's context window.
pub fn context_ok(context: &String, artist_slug: &Vec<char>) -> (r: bool)
    ensures
        r == spec_ctx_ok(context@, artist_slug@),
{
    if artist_slug.len() == 0 {
        return true;
    }
    let ctx_slug = crate::text::slugify(context.as_str());
    let cv = chars_of(ctx_slug.as_str());
    contains_sub(&cv, artist_slug)
}

} // verus!
