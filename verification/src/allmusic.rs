//! The album-database adapter: candidate links from search results, and
//! rating data from the album page's structured block, verified against
//! the queried artist.
use vstd::prelude::*;

use crate::chars::{chars_of, string_of};
use crate::scan::{spec_find_from, lemma_find_from, contains_seq, contains_sub, find_from,
    subvec};
use crate::html::{scan_floor, spec_strip_tags, strip_tags_chars};
use crate::excerpt::trim_ws_chars;
use crate::text::{spec_trim_ws, spec_slugify, slugify};
use crate::matcher::Candidate;
use crate::json::{JsonVal, spec_obj_get, spec_num_or_str, spec_as_num_text, obj_get,
    as_arr, as_str_val, num_or_str_val, as_num_text, is_obj, json_of, parse_json};
use crate::num::{Dec, Rating, spec_parse_dec, parse_dec, spec_normalize, normalize_rating};
use crate::review::SiteReview;
use crate::ld::{spec_extract_album_json_ld, extract_album_json_ld};
use vstd::string::StringExecFns;

verus! {

/// A URL in the accumulated candidate list.
pub open spec fn has_url(acc: Seq<(Seq<char>, Seq<char>)>, url: Seq<char>) -> bool {
    exists|j: int| 0 <= j < acc.len() && acc[j].0 == url
}

/// The candidate list grown from scanning `s[i..]` for album links:
/// each `href="/album/..."` whose path carries the album marker `-mw`
/// joins the list - deduplicated by URL - together with the following
/// window of up to 2000 characters of context.
pub open spec fn links_from(
    s: Seq<char>,
    i: int,
    acc: Seq<(Seq<char>, Seq<char>)>,
) -> Seq<(Seq<char>, Seq<char>)>
    decreases s.len() - i,
    when i >= 0
    via links_from_decreases
{
    match spec_find_from(s, "href=\"/album/"@, i) {
        None => acc,
        Some(p) => {
            match spec_find_from(s, seq!['"'], p + 6) {
                None => acc,
                Some(pe) => {
                    let path = s.subrange(p + 6, pe);
                    let url = "https://www.allmusic.com"@ + path;
                    let ctx_end = if pe + 2000 <= s.len() {
                        pe + 2000
                    } else {
                        s.len() as int
                    };
                    let ctx = s.subrange(pe, ctx_end);
                    let acc2 = if contains_seq(path, "-mw"@) && !has_url(acc, url) {
                        acc.push((url, ctx))
                    } else {
                        acc
                    };
                    if pe >= scan_floor(s.len() as int) {
                        acc2
                    } else {
                        links_from(s, pe, acc2)
                    }
                },
            }
        },
    }
}

#[via_fn]
proof fn links_from_decreases(s: Seq<char>, i: int, acc: Seq<(Seq<char>, Seq<char>)>) {
    lemma_find_from(s, "href=\"/album/"@, i);
    match spec_find_from(s, "href=\"/album/"@, i) {
        None => {},
        Some(p) => {
            lemma_find_from(s, seq!['"'], p + 6);
        },
    }
}

/// The URL and context views of a candidate list.
pub open spec fn cand_views(cs: Seq<Candidate>) -> Seq<(Seq<char>, Seq<char>)> {
    cs.map_values(|c: Candidate| (c.url@, c.context@))
}

/// Extract album links and their surrounding context from search
/// results.
pub fn extract_album_links(html: &str) -> (r: Vec<Candidate>)
    ensures
        cand_views(r@) == links_from(html@, 0, Seq::empty()),
{
    proof {
        reveal_strlit("href=\"/album/");
    }
    let cs = chars_of(html);
    let n = cs.len();
    let pat = chars_of("href=\"/album/");
    let mut quote: Vec<char> = Vec::new();
    quote.push('"');
    proof {
        assert(quote@ =~= seq!['"']);
    }
    let mw = chars_of("-mw");
    let base = "https://www.allmusic.com";
    let mut results: Vec<Candidate> = Vec::new();
    let mut i: usize = 0;
    proof {
        assert(cand_views(results@) =~= Seq::<(Seq<char>, Seq<char>)>::empty());
    }
    loop
        invariant
            i <= n == cs@.len(),
            cs@ == html@,
            pat@ == "href=\"/album/"@,
            quote@ == seq!['"'],
            mw@ == "-mw"@,
            base@ == "https://www.allmusic.com"@,
            links_from(html@, 0, Seq::empty()) == links_from(html@, i as int, cand_views(
                results@,
            )),
        decreases n - i,
    {
        let p = match find_from(&cs, &pat, i) {
            Some(p) => p,
            None => {
                return results;
            },
        };
        proof {
            lemma_find_from(cs@, pat@, i as int);
            reveal_strlit("href=\"/album/");
            assert(p + 13 <= n);
        }
        let pe = match find_from(&cs, &quote, p + 6) {
            Some(pe) => pe,
            None => {
                return results;
            },
        };
        proof {
            lemma_find_from(cs@, seq!['"'], p + 6 as int);
        }
        let path = subvec(&cs, p + 6, pe);
        let ctx_end = if n - pe > 2000 {
            pe + 2000
        } else {
            n
        };
        let ctx = subvec(&cs, pe, ctx_end);
        if contains_sub(&path, &mw) {
            let path_str = string_of(&path);
            let full_url = base.to_owned().concat(path_str.as_str());
            let mut dup = false;
            let rn = results.len();
            let mut k: usize = 0;
            while k < rn
                invariant
                    k <= rn == results.len(),
                    dup ==> has_url(cand_views(results@), full_url@),
                    !dup ==> forall|j: int| 0 <= j < k ==> cand_views(results@)[j].0
                        != full_url@,
                decreases rn - k,
            {
                let cand: &Candidate = &results[k];
                if crate::matcher::eq_chars(&chars_of(cand.url.as_str()), &chars_of(
                    full_url.as_str(),
                )) {
                    proof {
                        assert(cand_views(results@)[k as int].0 == full_url@);
                    }
                    dup = true;
                }
                k = k + 1;
            }
            if !dup {
                let ctx_str = string_of(&ctx);
                let c = Candidate { url: full_url, context: ctx_str };
                let ghost old_views = cand_views(results@);
                let ghost cu = c.url@;
                let ghost cc = c.context@;
                proof {
                    assert(!has_url(old_views, cu));
                }
                results.push(c);
                proof {
                    assert(cand_views(results@) =~= old_views.push((cu, cc)));
                }
            }
        }
        let floor = if n >= 50 {
            n - 50
        } else {
            0
        };
        if pe >= floor {
            return results;
        }
        i = pe;
    }
}

/// The `name` field of an artist entry, if present, is a string.
pub open spec fn name_field_ok(e: JsonVal) -> bool {
    match spec_obj_get(e, "name"@) {
        None => true,
        Some(nv) => nv is Str,
    }
}

/// An artist entry is an object whose optional `name` is a string.
pub open spec fn artist_entry_ok(e: JsonVal) -> bool {
    e is Obj && name_field_ok(e)
}

/// The `byArtist` field, if present, is an array of well-shaped artist
/// entries.
pub open spec fn by_artist_shape(v: JsonVal) -> bool {
    match spec_obj_get(v, "byArtist"@) {
        None => true,
        Some(x) => x is Arr && (forall|j: int|
            0 <= j < x->Arr_0@.len() ==> artist_entry_ok(#[trigger] x->Arr_0@[j])),
    }
}

/// An artist entry's name, slugified, contains the artist slug.
pub open spec fn name_matches(e: JsonVal, asl: Seq<char>) -> bool {
    match spec_obj_get(e, "name"@) {
        Some(nv) => match nv {
            JsonVal::Str(s) => contains_seq(spec_slugify(s@), asl),
            _ => false,
        },
        None => false,
    }
}

/// Some listed artist matches the artist slug.
pub open spec fn artist_listed(v: JsonVal, asl: Seq<char>) -> bool {
    match spec_obj_get(v, "byArtist"@) {
        Some(x) => x is Arr && (exists|j: int|
            0 <= j < x->Arr_0@.len() && name_matches(#[trigger] x->Arr_0@[j], asl)),
        None => false,
    }
}

/// The rating count field, if present, must be a non-negative JSON
/// integer that fits; anything else rejects the block.
pub open spec fn spec_count_of(v: JsonVal) -> Option<Option<u32>> {
    match spec_obj_get(v, "ratingCount"@) {
        None => Some(None),
        Some(x) => match spec_as_num_text(x) {
            Some(t) => match spec_parse_dec(t@) {
                Some(d) => if d.scale == 0 && d.mant <= u32::MAX {
                    Some(Some(d.mant as u32))
                } else {
                    None
                },
                None => None,
            },
            None => None,
        },
    }
}

/// The decimal value of a rating field arriving as a JSON number or a
/// numeric string.
pub open spec fn spec_field_dec(x: JsonVal) -> Option<Dec> {
    match spec_num_or_str(x) {
        Some(t) => spec_parse_dec(t@),
        None => None,
    }
}

/// A rating field whose text is a minus-led decimal: at most zero, so
/// a best rating in this form rejects the rating.
pub open spec fn spec_field_negative(x: JsonVal) -> bool {
    match spec_num_or_str(x) {
        Some(t) => crate::num::is_neg_dec(t@),
        None => false,
    }
}

/// What the album block yields: the normalized rating and the rating
/// count, or nothing when the block is malformed, the artist check
/// fails, or the rating cannot be normalized. A best rating at or
/// below zero - zero itself, or any minus-led decimal - rejects the
/// rating; one that is present but is no decimal at all falls back to
/// the default scale of 10.
pub open spec fn spec_album_facts(v: JsonVal, asl: Seq<char>) -> Option<(Rating, Option<u32>)> {
    if !by_artist_shape(v) {
        None
    } else if asl.len() > 0 && !artist_listed(v, asl) {
        None
    } else {
        match spec_obj_get(v, "aggregateRating"@) {
            None => None,
            Some(agg) => if !(agg is Obj) {
                None
            } else {
                match spec_obj_get(agg, "ratingValue"@) {
                    None => None,
                    Some(rv_field) => match spec_field_dec(rv_field) {
                        None => None,
                        Some(rv) => match spec_count_of(agg) {
                            None => None,
                            Some(count) => {
                                let neg_best = match spec_obj_get(agg, "bestRating"@) {
                                    None => false,
                                    Some(b_field) => spec_field_negative(b_field),
                                };
                                if neg_best {
                                    None
                                } else {
                                    let best = match spec_obj_get(agg, "bestRating"@) {
                                        None => None,
                                        Some(b_field) => spec_field_dec(b_field),
                                    };
                                    match spec_normalize(rv, best) {
                                        None => None,
                                        Some(rt) => Some((rt, count)),
                                    }
                                }
                            },
                        },
                    },
                }
            },
        }
    }
}

/// Check the `byArtist` list: `None` for a malformed list, otherwise
/// whether some listed name matches the artist slug.
fn check_by_artist(v: &JsonVal, asl: &Vec<char>) -> (r: Option<bool>)
    ensures
        match r {
            Some(b) => by_artist_shape(*v) && b == artist_listed(*v, asl@),
            None => !by_artist_shape(*v),
        },
{
    let x = match obj_get(v, "byArtist") {
        None => {
            return Some(false);
        },
        Some(x) => x,
    };
    let items = match as_arr(x) {
        None => {
            return None;
        },
        Some(items) => items,
    };
    let n = items.len();
    let mut matched = false;
    let mut i: usize = 0;
    while i < n
        invariant
            i <= n == items.len(),
            spec_obj_get(*v, "byArtist"@) == Some(*x),
            *x is Arr && x->Arr_0 == *items,
            forall|j: int| 0 <= j < i ==> artist_entry_ok(#[trigger] items@[j]),
            matched == exists|j: int| 0 <= j < i && name_matches(#[trigger] items@[j], asl@),
        decreases n - i,
    {
        let e: &JsonVal = &items[i];
        if !is_obj(e) {
            return None;
        }
        match obj_get(e, "name") {
            None => {},
            Some(nv) => {
                match as_str_val(nv) {
                    None => {
                        return None;
                    },
                    Some(name) => {
                        let name_slug = slugify(name.as_str());
                        let nsv = chars_of(name_slug.as_str());
                        if contains_sub(&nsv, asl) {
                            proof {
                                assert(name_matches(items@[i as int], asl@));
                            }
                            matched = true;
                        }
                    },
                }
            },
        }
        i = i + 1;
    }
    Some(matched)
}

/// Parse an album page's structured block for rating data, verifying
/// the listed artist against the queried one.
pub fn parse_album_page(url: &str, html: &str, artist: &str) -> (r: Option<SiteReview>)
    ensures
        match spec_extract_album_json_ld(html@) {
            None => r is None,
            Some(t) => match json_of(t) {
                None => r is None,
                Some(v) => match spec_album_facts(v, spec_slugify(artist@)) {
                    None => r is None,
                    Some(facts) => r matches Some(rev) && rev.source_url@ == url@
                        && rev.rating == Some(facts.0) && rev.rating_count == facts.1
                        && rev.excerpt is None && rev.reviewer is None
                        && rev.review_date is None,
                },
            },
        },
        r matches Some(rev) ==> crate::review::review_wf(rev),
{
    let block = match extract_album_json_ld(html) {
        None => {
            return None;
        },
        Some(b) => b,
    };
    let v = match parse_json(block.as_str()) {
        None => {
            return None;
        },
        Some(v) => v,
    };
    let asl_string = slugify(artist);
    let asl = chars_of(asl_string.as_str());
    let verified = match check_by_artist(&v, &asl) {
        None => {
            return None;
        },
        Some(b) => b,
    };
    if asl.len() > 0 && !verified {
        return None;
    }
    let agg = match obj_get(&v, "aggregateRating") {
        None => {
            return None;
        },
        Some(agg) => agg,
    };
    if !is_obj(agg) {
        return None;
    }
    let rv_field = match obj_get(agg, "ratingValue") {
        None => {
            return None;
        },
        Some(x) => x,
    };
    let rv_text = match num_or_str_val(rv_field) {
        None => {
            return None;
        },
        Some(t) => t,
    };
    let rv = match parse_dec(&chars_of(rv_text.as_str())) {
        None => {
            return None;
        },
        Some(d) => d,
    };
    let count: Option<u32> = match obj_get(agg, "ratingCount") {
        None => None,
        Some(x) => {
            let t = match as_num_text(x) {
                None => {
                    return None;
                },
                Some(t) => t,
            };
            let d = match parse_dec(&chars_of(t.as_str())) {
                None => {
                    return None;
                },
                Some(d) => d,
            };
            if d.scale == 0 && d.mant <= 0xFFFF_FFFF {
                Some(d.mant as u32)
            } else {
                return None;
            }
        },
    };
    let best: Option<Dec> = match obj_get(agg, "bestRating") {
        None => None,
        Some(b_field) => match num_or_str_val(b_field) {
            None => None,
            Some(t) => {
                let tc = chars_of(t.as_str());
                if crate::num::neg_dec(&tc) {
                    return None;
                }
                parse_dec(&tc)
            },
        },
    };
    let rt = match normalize_rating(rv, best) {
        None => {
            return None;
        },
        Some(rt) => rt,
    };
    Some(
        SiteReview {
            source_url: url.to_owned(),
            excerpt: None,
            rating: Some(rt),
            rating_count: count,
            reviewer: None,
            review_date: None,
        },
    )
}

/// Attach the companion fragment's findings to the album record: the
/// excerpt replaces whatever stood there, the byline only when the
/// fragment yielded one. A record that carried a rating keeps its
/// invariant.
pub fn attach_review_text(
    review: &mut SiteReview,
    excerpt: Option<String>,
    reviewer: Option<String>,
)
    ensures
        final(review).excerpt == excerpt,
        final(review).reviewer == if reviewer is Some {
            reviewer
        } else {
            old(review).reviewer
        },
        final(review).source_url == old(review).source_url,
        final(review).rating == old(review).rating,
        final(review).rating_count == old(review).rating_count,
        final(review).review_date == old(review).review_date,
        crate::review::review_wf(*old(review)) && old(review).rating is Some
            ==> crate::review::review_wf(*final(review)),
{
    review.excerpt = excerpt;
    if reviewer.is_some() {
        review.reviewer = reviewer;
    }
}

/// What the byline of the review fragment yields: the first
/// `<h3>` heading's text after the marker ` Review by `, trimmed.
pub open spec fn spec_ajax_reviewer(s: Seq<char>) -> Option<Seq<char>> {
    match spec_find_from(s, "<h3>"@, 0) {
        None => None,
        Some(p) => match spec_find_from(s, "</h3>"@, p + 4) {
            None => None,
            Some(e) => {
                let t = spec_strip_tags(s.subrange(p + 4, e));
                match spec_find_from(t, " Review by "@, 0) {
                    Some(q) => Some(spec_trim_ws(t.subrange(q + 11, t.len() as int))),
                    None => None,
                }
            },
        },
    }
}

/// What the body of the review fragment yields: the first `<p>`
/// paragraph, tag-stripped and trimmed; an empty result is absent.
pub open spec fn spec_ajax_excerpt(s: Seq<char>) -> Option<Seq<char>> {
    match spec_find_from(s, "<p>"@, 0) {
        None => None,
        Some(p) => match spec_find_from(s, "</p>"@, p + 3) {
            None => None,
            Some(e) => {
                let t = spec_trim_ws(spec_strip_tags(s.subrange(p + 3, e)));
                if t.len() == 0 {
                    None
                } else {
                    Some(t)
                }
            },
        },
    }
}

/// Parse the review fragment fetched from the album page's companion
/// endpoint for review text and the critic's name.
pub fn parse_review_ajax(html: &str) -> (r: (Option<String>, Option<String>))
    ensures
        match r.0 {
            Some(t) => spec_ajax_excerpt(html@) == Some(t@),
            None => spec_ajax_excerpt(html@) is None,
        },
        match r.1 {
            Some(t) => spec_ajax_reviewer(html@) == Some(t@),
            None => spec_ajax_reviewer(html@) is None,
        },
{
    let cs = chars_of(html);
    let n = cs.len();

    let reviewer: Option<String> = {
        let h3 = chars_of("<h3>");
        let h3c = chars_of("</h3>");
        let by = chars_of(" Review by ");
        match find_from(&cs, &h3, 0) {
            None => None,
            Some(p) => {
                proof {
                    lemma_find_from(cs@, "<h3>"@, 0);
                    reveal_strlit("<h3>");
                }
                match find_from(&cs, &h3c, p + 4) {
                    None => None,
                    Some(e) => {
                        proof {
                            lemma_find_from(cs@, "</h3>"@, p + 4 as int);
                        }
                        let inner = subvec(&cs, p + 4, e);
                        let t = strip_tags_chars(&inner);
                        match find_from(&t, &by, 0) {
                            None => None,
                            Some(q) => {
                                let tn = t.len();
                                proof {
                                    lemma_find_from(t@, " Review by "@, 0);
                                    reveal_strlit(" Review by ");
                                    assert(q + 11 <= tn);
                                }
                                let tail = subvec(&t, q + 11, tn);
                                let name = trim_ws_chars(&tail);
                                Some(string_of(&name))
                            },
                        }
                    },
                }
            },
        }
    };

    let excerpt: Option<String> = {
        let po = chars_of("<p>");
        let pc = chars_of("</p>");
        match find_from(&cs, &po, 0) {
            None => None,
            Some(p) => {
                proof {
                    lemma_find_from(cs@, "<p>"@, 0);
                    reveal_strlit("<p>");
                }
                match find_from(&cs, &pc, p + 3) {
                    None => None,
                    Some(e) => {
                        proof {
                            lemma_find_from(cs@, "</p>"@, p + 3 as int);
                        }
                        let inner = subvec(&cs, p + 3, e);
                        let stripped = strip_tags_chars(&inner);
                        let t = trim_ws_chars(&stripped);
                        if t.len() == 0 {
                            None
                        } else {
                            Some(string_of(&t))
                        }
                    },
                }
            },
        }
    };

    (excerpt, reviewer)
}

/// The search URL for a query.
pub fn album_search_url(query: &str) -> (r: String)
    ensures
        r@ == "https://www.allmusic.com/search/albums/"@ + crate::text::encode_from(
            vstd::utf8::encode_utf8(query@),
            0,
        ),
{
    let encoded = crate::text::url_encode(query);
    "https://www.allmusic.com/search/albums/".to_owned().concat(encoded.as_str())
}

/// The companion endpoint for the full review text of an album page.
pub fn review_ajax_url(album_url: &str) -> (r: String)
    ensures
        r@ == album_url@ + "/reviewAjax"@,
{
    album_url.to_owned().concat("/reviewAjax")
}

/// The compound search query `{artist} {title}`.
pub fn join_query(artist: &str, title: &str) -> (r: String)
    ensures
        r@ == artist@ + " "@ + title@,
{
    artist.to_owned().concat(" ").concat(title)
}

} // verus!
