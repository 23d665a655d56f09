//! Locating embedded JSON-LD blocks in page markup.
use vstd::prelude::*;

use crate::chars::{chars_of, string_of};
use crate::scan::{contains_seq, contains_sub, subvec};
use crate::html::{spec_next_block, lemma_next_block, next_block, scan_floor};
use crate::excerpt::trim_ws_chars;
use crate::text::spec_trim_ws;
use crate::json::json_array_texts_of;

verus! {

/// The first of the serialized texts, from `i` on, that contains one of
/// the two markers.
pub open spec fn first_marked(
    texts: Seq<Seq<char>>,
    m1: Seq<char>,
    m2: Seq<char>,
    i: int,
) -> Option<int>
    decreases texts.len() - i,
{
    if i < 0 || i >= texts.len() {
        None
    } else if contains_seq(texts[i], m1) || contains_seq(texts[i], m2) {
        Some(i)
    } else {
        first_marked(texts, m1, m2, i + 1)
    }
}

/// The first JSON-LD block at or after `from` that contains one of the
/// two markers by raw substring containment. A block that is a JSON
/// array yields its first element whose serialized text contains a
/// marker, or the whole block when no element qualifies or the array
/// does not parse.
pub open spec fn spec_extract_ld_from(
    s: Seq<char>,
    m1: Seq<char>,
    m2: Seq<char>,
    from: int,
) -> Option<Seq<char>>
    decreases s.len() - from,
    when from >= 0
    via extract_ld_decreases
{
    match spec_next_block(s, "application/ld+json"@, from) {
        None => None,
        Some(b) => {
            let block = spec_trim_ws(s.subrange(b.0, b.1));
            if contains_seq(block, m1) || contains_seq(block, m2) {
                if block.len() > 0 && block[0] == '[' {
                    match json_array_texts_of(block) {
                        Some(texts) => match first_marked(texts, m1, m2, 0) {
                            Some(i) => Some(texts[i]),
                            None => Some(block),
                        },
                        None => Some(block),
                    }
                } else {
                    Some(block)
                }
            } else if b.1 >= scan_floor(s.len() as int) {
                None
            } else {
                spec_extract_ld_from(s, m1, m2, b.1)
            }
        },
    }
}

#[via_fn]
proof fn extract_ld_decreases(s: Seq<char>, m1: Seq<char>, m2: Seq<char>, from: int) {
    lemma_next_block(s, "application/ld+json"@, from);
}

/// What `extract_ld_block` returns.
pub open spec fn spec_extract_ld(s: Seq<char>, m1: Seq<char>, m2: Seq<char>) -> Option<
    Seq<char>,
> {
    spec_extract_ld_from(s, m1, m2, 0)
}

/// Find the first embedded JSON-LD block whose text contains one of the
/// two markers, resolving array envelopes to the first qualifying
/// element's serialized text.
pub fn extract_ld_block(html: &str, m1: &str, m2: &str) -> (r: Option<String>)
    ensures
        match r {
            Some(t) => spec_extract_ld(html@, m1@, m2@) == Some(t@),
            None => spec_extract_ld(html@, m1@, m2@) is None,
        },
{
    let cs = chars_of(html);
    let m1v = chars_of(m1);
    let m2v = chars_of(m2);
    let opening = chars_of("application/ld+json");
    let mut from: usize = 0;
    loop
        invariant
            from <= cs@.len(),
            cs@ == html@,
            m1v@ == m1@,
            m2v@ == m2@,
            opening@ == "application/ld+json"@,
            spec_extract_ld_from(html@, m1@, m2@, 0) == spec_extract_ld_from(
                html@,
                m1@,
                m2@,
                from as int,
            ),
        decreases cs@.len() - from,
    {
        match next_block(&cs, &opening, from) {
            None => {
                return None;
            },
            Some((bs, be)) => {
                let raw = subvec(&cs, bs, be);
                let block = trim_ws_chars(&raw);
                if contains_sub(&block, &m1v) || contains_sub(&block, &m2v) {
                    if block.len() > 0 && block[0] == '[' {
                        let block_str = string_of(&block);
                        match crate::json::json_array_texts(block_str.as_str()) {
                            Some(texts) => {
                                proof {
                                    assert(spec_extract_ld_from(html@, m1@, m2@, 0) == (
                                    match first_marked(texts.deep_view(), m1@, m2@, 0) {
                                        Some(i) => Some(texts.deep_view()[i]),
                                        None => Some(block@),
                                    }));
                                }
                                let tn = texts.len();
                                let mut k: usize = 0;
                                while k < tn
                                    invariant
                                        k <= tn == texts.len(),
                                        m1v@ == m1@,
                                        m2v@ == m2@,
                                        spec_extract_ld_from(html@, m1@, m2@, 0) == (
                                        match first_marked(texts.deep_view(), m1@, m2@, 0) {
                                            Some(i) => Some(texts.deep_view()[i]),
                                            None => Some(block@),
                                        }),
                                        first_marked(texts.deep_view(), m1@, m2@, 0)
                                            == first_marked(
                                            texts.deep_view(),
                                            m1@,
                                            m2@,
                                            k as int,
                                        ),
                                    decreases tn - k,
                                {
                                    let t: &String = &texts[k];
                                    let tc = chars_of(t.as_str());
                                    proof {
                                        assert(texts.deep_view()[k as int] == texts@[
                                            k as int
                                        ]@);
                                    }
                                    if contains_sub(&tc, &m1v) || contains_sub(&tc, &m2v) {
                                        return Some(t.clone());
                                    }
                                    k = k + 1;
                                }
                                return Some(string_of(&block));
                            },
                            None => {
                                return Some(string_of(&block));
                            },
                        }
                    }
                    return Some(string_of(&block));
                }
                let floor = if cs.len() >= 50 {
                    cs.len() - 50
                } else {
                    0
                };
                if be >= floor {
                    return None;
                }
                from = be;
            },
        }
    }
}

/// What review-page JSON-LD extraction returns: the first block marked
/// `"Review"` or `"reviewBody"`.
pub open spec fn spec_extract_json_ld(s: Seq<char>) -> Option<Seq<char>> {
    spec_extract_ld(s, "\"Review\""@, "\"reviewBody\""@)
}

/// Extract the first JSON-LD block from HTML that contains a review.
pub fn extract_json_ld(html: &str) -> (r: Option<String>)
    ensures
        match r {
            Some(t) => spec_extract_json_ld(html@) == Some(t@),
            None => spec_extract_json_ld(html@) is None,
        },
{
    extract_ld_block(html, "\"Review\"", "\"reviewBody\"")
}

/// What album-page JSON-LD extraction returns: the first block marked
/// `"MusicAlbum"`.
pub open spec fn spec_extract_album_json_ld(s: Seq<char>) -> Option<Seq<char>> {
    spec_extract_ld(s, "\"MusicAlbum\""@, "\"MusicAlbum\""@)
}

/// Extract the JSON-LD block containing the album schema from HTML.
pub fn extract_album_json_ld(html: &str) -> (r: Option<String>)
    ensures
        match r {
            Some(t) => spec_extract_album_json_ld(html@) == Some(t@),
            None => spec_extract_album_json_ld(html@) is None,
        },
{
    extract_ld_block(html, "\"MusicAlbum\"", "\"MusicAlbum\"")
}

} // verus!
