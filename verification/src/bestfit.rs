//! The adapter with no search endpoint: an incremental, checkpointed
//! crawl of a paged album listing, persisted across invocations, and
//! review extraction from the matched album page.
use vstd::prelude::*;

use crate::chars::{chars_of, string_of};
use crate::scan::{match_at, spec_find_from, lemma_find_from, contains_sub, find_from,
    subvec, starts_with_at};
use crate::html::{spec_strip_tags, strip_tags_chars, spec_decode_entities,
    decode_entities_chars};
use crate::excerpt::{spec_collapse_ws, collapse_ws_chars, spec_truncate, truncate_chars,
    trim_ws_chars};
use crate::text::spec_trim_ws;
use crate::json::{JsonVal, spec_obj_get, obj_get, is_obj, json_of, parse_json};
use crate::pitchfork::{spec_opt_str_field, opt_str_field};
use crate::num::{Dec, Rating, spec_parse_dec, parse_dec, spec_normalize, normalize_rating,
    rating_wf};
use crate::review::SiteReview;
use vstd::string::StringExecFns;

verus! {

/// Pages the listing holds; past this page the cache is complete.
pub const MAX_PAGES: u32 = 348;

/// Listing pages fetched per resolution attempt.
pub const BATCH_SIZE: u32 = 25;

/// The crawl cache: the last listing page consumed, and every album
/// slug seen so far, in discovery order.
pub struct UrlCache {
    pub next_page: u32,
    pub slugs: Vec<String>,
}

/// The slug views of a cache.
pub open spec fn slug_views(slugs: Seq<String>) -> Seq<Seq<char>> {
    slugs.map_values(|s: String| s@)
}

/// Cache invariant: the page cursor never passes the listing's end and
/// no slug repeats.
pub open spec fn cache_wf(c: UrlCache) -> bool {
    &&& c.next_page <= MAX_PAGES
    &&& (forall|i: int, j: int| 0 <= i < j < c.slugs@.len() ==> c.slugs@[i]@ != c.slugs@[j]@)
}

/// A complete cache: every listing page has been consumed; further
/// resolution only searches, never fetches.
pub open spec fn cache_complete(c: UrlCache) -> bool {
    c.next_page == MAX_PAGES
}

/// An empty cache, for the first resolution attempt.
pub fn empty_cache() -> (r: UrlCache)
    ensures
        r.next_page == 0,
        r.slugs@.len() == 0,
        cache_wf(r),
{
    UrlCache { next_page: 0, slugs: Vec::new() }
}

/// The pages the next batch must fetch: from `next_page + 1` up to but
/// not including the returned end; a complete cache asks for nothing.
pub open spec fn spec_batch_range(c: UrlCache) -> Option<(u32, u32)> {
    if c.next_page < MAX_PAGES {
        let start = c.next_page + 1;
        let end = if start + BATCH_SIZE <= MAX_PAGES + 1 {
            start + BATCH_SIZE
        } else {
            MAX_PAGES + 1
        };
        Some((start as u32, end as u32))
    } else {
        None
    }
}

/// Plan the next batch of listing fetches. A complete cache plans
/// none: resolution against it issues zero further fetches.
pub fn batch_range(c: &UrlCache) -> (r: Option<(u32, u32)>)
    requires
        cache_wf(*c),
    ensures
        r == spec_batch_range(*c),
        cache_complete(*c) <==> r is None,
        r matches Some(b) ==> b.0 == c.next_page + 1 && b.0 <= b.1 && b.1 <= MAX_PAGES + 1
            && b.1 - b.0 <= BATCH_SIZE,
{
    if c.next_page < MAX_PAGES {
        let start = c.next_page + 1;
        let end = if start <= MAX_PAGES + 1 - BATCH_SIZE {
            start + BATCH_SIZE
        } else {
            MAX_PAGES + 1
        };
        Some((start, end))
    } else {
        None
    }
}

/// The slugs found scanning `s[i..]` for one album link pattern: the
/// text between the pattern and the next quote joins the list unless
/// it is empty, carries a query or fragment, or repeats.
pub open spec fn album_slugs_from(
    s: Seq<char>,
    pat: Seq<char>,
    i: int,
    acc: Seq<Seq<char>>,
) -> Seq<Seq<char>>
    decreases s.len() - i,
    when i >= 0 && pat.len() > 0
    via album_slugs_decreases
{
    match spec_find_from(s, pat, i) {
        None => acc,
        Some(p) => {
            let ss = p + pat.len();
            match spec_find_from(s, seq!['"'], ss) {
                None => acc,
                Some(q) => {
                    let slug = s.subrange(ss, q);
                    let acc2 = if slug.len() > 0 && !slug.contains('?') && !slug.contains('#')
                        && !acc.contains(slug) {
                        acc.push(slug)
                    } else {
                        acc
                    };
                    album_slugs_from(s, pat, q, acc2)
                },
            }
        },
    }
}

#[via_fn]
proof fn album_slugs_decreases(s: Seq<char>, pat: Seq<char>, i: int, acc: Seq<Seq<char>>) {
    lemma_find_from(s, pat, i);
    match spec_find_from(s, pat, i) {
        None => {},
        Some(p) => {
            lemma_find_from(s, seq!['"'], p + pat.len());
        },
    }
}

/// What slug extraction returns: the relative pattern's finds, then
/// the absolute pattern's, deduplicated across both.
pub open spec fn spec_extract_album_slugs(s: Seq<char>) -> Seq<Seq<char>> {
    album_slugs_from(
        s,
        "href=\"https://www.thelineofbestfit.com/albums/"@,
        0,
        album_slugs_from(s, "href=\"/albums/"@, 0, Seq::empty()),
    )
}

/// Scan one listing page for album slugs, relative and absolute link
/// forms alike.
pub fn extract_album_slugs(html: &str) -> (r: Vec<String>)
    ensures
        r.deep_view() == spec_extract_album_slugs(html@),
        forall|i: int, j: int| 0 <= i < j < r@.len() ==> r@[i]@ != r@[j]@,
{
    let cs = chars_of(html);
    let pat1 = chars_of("href=\"/albums/");
    let pat2 = chars_of("href=\"https://www.thelineofbestfit.com/albums/");
    proof {
        reveal_strlit("href=\"/albums/");
        reveal_strlit("href=\"https://www.thelineofbestfit.com/albums/");
    }
    let mut out: Vec<String> = Vec::new();
    proof {
        assert(out.deep_view() =~= Seq::<Seq<char>>::empty());
    }
    scan_slug_pattern(&cs, &pat1, &mut out);
    scan_slug_pattern(&cs, &pat2, &mut out);
    out
}

/// Scan for one link pattern, appending new slugs.
fn scan_slug_pattern(cs: &Vec<char>, pat: &Vec<char>, out: &mut Vec<String>)
    requires
        pat@.len() > 0,
        forall|i: int, j: int| 0 <= i < j < old(out)@.len() ==> old(out)@[i]@ != old(out)@[j]@,
    ensures
        final(out).deep_view() == album_slugs_from(cs@, pat@, 0, old(out).deep_view()),
        forall|i: int, j: int|
            0 <= i < j < final(out)@.len() ==> final(out)@[i]@ != final(out)@[j]@,
{
    let n = cs.len();
    let mut quote: Vec<char> = Vec::new();
    quote.push('"');
    proof {
        assert(quote@ =~= seq!['"']);
    }
    let mut i: usize = 0;
    loop
        invariant
            i <= n == cs@.len(),
            pat@.len() > 0,
            quote@ == seq!['"'],
            album_slugs_from(cs@, pat@, 0, old(out).deep_view()) == album_slugs_from(
                cs@,
                pat@,
                i as int,
                out.deep_view(),
            ),
            forall|a: int, b: int| 0 <= a < b < out@.len() ==> out@[a]@ != out@[b]@,
        decreases n - i,
    {
        let p = match find_from(cs, pat, i) {
            None => {
                return ;
            },
            Some(p) => p,
        };
        proof {
            lemma_find_from(cs@, pat@, i as int);
        }
        let ss = p + pat.len();
        let q = match find_from(cs, &quote, ss) {
            None => {
                return ;
            },
            Some(q) => q,
        };
        proof {
            lemma_find_from(cs@, seq!['"'], ss as int);
        }
        let slug = subvec(cs, ss, q);
        let mut qm: Vec<char> = Vec::new();
        qm.push('?');
        let mut hm: Vec<char> = Vec::new();
        hm.push('#');
        proof {
            assert(qm@ =~= seq!['?']);
            assert(hm@ =~= seq!['#']);
        }
        let keep = slug.len() > 0 && !contains_sub(&slug, &qm) && !contains_sub(&slug, &hm);
        proof {
            crate::scan::lemma_contains_single(slug@, '?');
            crate::scan::lemma_contains_single(slug@, '#');
        }
        if keep {
            let slug_str = string_of(&slug);
            let mut dup = false;
            let on = out.len();
            let mut k: usize = 0;
            while k < on
                invariant
                    k <= on == out.len(),
                    slug_str@ == slug@,
                    dup ==> out.deep_view().contains(slug@),
                    !dup ==> forall|j: int| 0 <= j < k ==> out.deep_view()[j] != slug@,
                decreases on - k,
            {
                let u: &String = &out[k];
                proof {
                    assert(out.deep_view()[k as int] == out@[k as int]@);
                }
                if crate::matcher::eq_chars(&chars_of(u.as_str()), &chars_of(
                    slug_str.as_str(),
                )) {
                    dup = true;
                }
                k = k + 1;
            }
            if !dup {
                proof {
                    assert(!out.deep_view().contains(slug@));
                }
                let ghost old_views = out.deep_view();
                let ghost sv = slug_str@;
                out.push(slug_str);
                proof {
                    assert(out.deep_view() =~= old_views.push(sv));
                    assert forall|a: int, b: int|
                        0 <= a < b < out@.len() implies out@[a]@ != out@[b]@ by {
                        if b < out@.len() - 1 {
                        } else {
                            assert(out.deep_view()[a] == out@[a]@);
                        }
                    }
                }
            }
        }
        i = q;
    }
}

/// `xs[j..]` folded into `acc`, each element once.
pub open spec fn add_new(acc: Seq<Seq<char>>, xs: Seq<Seq<char>>, j: int) -> Seq<Seq<char>>
    decreases xs.len() - j,
{
    if j < 0 || j >= xs.len() {
        acc
    } else {
        let acc2 = if acc.contains(xs[j]) {
            acc
        } else {
            acc.push(xs[j])
        };
        add_new(acc2, xs, j + 1)
    }
}

/// The slug list grown by the fetched pages from `k` on: a failed page
/// contributes nothing, a fetched page contributes its extracted slugs,
/// each new slug appended once.
pub open spec fn extend_from(
    acc: Seq<Seq<char>>,
    pages: Seq<Option<String>>,
    k: int,
) -> Seq<Seq<char>>
    decreases pages.len() - k,
{
    if k < 0 || k >= pages.len() {
        acc
    } else {
        match pages[k] {
            None => extend_from(acc, pages, k + 1),
            Some(h) => extend_from(add_new(acc, spec_extract_album_slugs(h@), 0), pages, k + 1),
        }
    }
}

/// Append a slug unless the list already holds it; order and
/// distinctness are kept, and the old list stays a prefix.
fn push_unique(list: &mut Vec<String>, s: String)
    requires
        forall|i: int, j: int| 0 <= i < j < old(list)@.len() ==> old(list)@[i]@ != old(
            list,
        )@[j]@,
    ensures
        final(list).deep_view() == if old(list).deep_view().contains(s@) {
            old(list).deep_view()
        } else {
            old(list).deep_view().push(s@)
        },
        forall|i: int, j: int|
            0 <= i < j < final(list)@.len() ==> final(list)@[i]@ != final(list)@[j]@,
{
    let n = list.len();
    let mut k: usize = 0;
    let mut dup = false;
    while k < n && !dup
        invariant
            k <= n == list.len(),
            dup ==> k > 0 && list.deep_view()[k - 1] == s@,
            !dup ==> forall|j: int| 0 <= j < k ==> list.deep_view()[j] != s@,
        decreases n - k,
    {
        let u: &String = &list[k];
        proof {
            assert(list.deep_view()[k as int] == list@[k as int]@);
        }
        if crate::matcher::eq_chars(&chars_of(u.as_str()), &chars_of(s.as_str())) {
            dup = true;
        }
        k = k + 1;
    }
    if !dup {
        proof {
            assert(!list.deep_view().contains(s@));
        }
        let ghost old_views = list.deep_view();
        let ghost sv = s@;
        list.push(s);
        proof {
            assert(list.deep_view() =~= old_views.push(sv));
            assert forall|i: int, j: int|
                0 <= i < j < list@.len() implies list@[i]@ != list@[j]@ by {
                if j < list@.len() - 1 {
                } else {
                    assert(list.deep_view()[i] == list@[i]@);
                }
            }
        }
    } else {
        proof {
            let w = (k - 1) as int;
            assert(list.deep_view()[w] == s@);
            assert(list.deep_view().contains(s@));
        }
    }
}

/// Extend the cache by one batch of fetched pages. The cursor advances
/// over every page of the batch, fetched or failed - a failed page is
/// never retried - and new slugs are appended in discovery order,
/// never removed, never repeated.
pub fn apply_batch(cache: &mut UrlCache, pages: &Vec<Option<String>>)
    requires
        cache_wf(*old(cache)),
        old(cache).next_page + pages@.len() <= MAX_PAGES,
    ensures
        cache_wf(*final(cache)),
        final(cache).next_page == old(cache).next_page + pages@.len(),
        old(cache).next_page <= final(cache).next_page <= MAX_PAGES,
        slug_views(old(cache).slugs@).is_prefix_of(slug_views(final(cache).slugs@)),
        slug_views(final(cache).slugs@) == extend_from(
            slug_views(old(cache).slugs@),
            pages@,
            0,
        ),
{
    let n = pages.len();
    let mut k: usize = 0;
    while k < n
        invariant
            k <= n == pages@.len(),
            cache.next_page == old(cache).next_page + k,
            old(cache).next_page + pages@.len() <= MAX_PAGES,
            forall|i: int, j: int| 0 <= i < j < cache.slugs@.len() ==> cache.slugs@[i]@
                != cache.slugs@[j]@,
            slug_views(old(cache).slugs@).is_prefix_of(slug_views(cache.slugs@)),
            extend_from(slug_views(old(cache).slugs@), pages@, 0) == extend_from(
                slug_views(cache.slugs@),
                pages@,
                k as int,
            ),
        decreases n - k,
    {
        let page: &Option<String> = &pages[k];
        match page {
            None => {},
            Some(html) => {
                let found = extract_album_slugs(html.as_str());
                let fn_ = found.len();
                let ghost fviews = found.deep_view();
                let mut t: usize = 0;
                let ghost views_before_page = slug_views(cache.slugs@);
                while t < fn_
                    invariant
                        t <= fn_ == found@.len(),
                        found.deep_view() == fviews,
                        forall|i: int, j: int| 0 <= i < j < cache.slugs@.len() ==> cache.slugs@[
                            i
                        ]@ != cache.slugs@[j]@,
                        slug_views(old(cache).slugs@).is_prefix_of(slug_views(cache.slugs@)),
                        cache.next_page == old(cache).next_page + k,
                        add_new(views_before_page, fviews, 0) == add_new(
                            slug_views(cache.slugs@),
                            fviews,
                            t as int,
                        ),
                    decreases fn_ - t,
                {
                    let s: &String = &found[t];
                    let ghost before = slug_views(cache.slugs@);
                    proof {
                        assert(found.deep_view()[t as int] == found@[t as int]@);
                        assert(slug_views(cache.slugs@) == cache.slugs.deep_view());
                    }
                    push_unique(&mut cache.slugs, s.clone());
                    proof {
                        assert(slug_views(cache.slugs@) == cache.slugs.deep_view());
                        if before.contains(fviews[t as int]) {
                            assert(slug_views(cache.slugs@) == before);
                        } else {
                            assert(slug_views(cache.slugs@) == before.push(fviews[t as int]));
                        }
                        assert(slug_views(old(cache).slugs@).is_prefix_of(
                            slug_views(cache.slugs@),
                        )) by {
                            let a = slug_views(old(cache).slugs@);
                            let b = slug_views(cache.slugs@);
                            assert(a =~= b.subrange(0, a.len() as int));
                        }
                    }
                    t = t + 1;
                }
            },
        }
        cache.next_page = cache.next_page + 1;
        k = k + 1;
    }
}

/// Resolving against a complete cache is idempotent: the planner asks
/// for no page, so no fetch is issued, the slug list cannot change,
/// and the key is answered from the same stored list both times.
pub proof fn law_complete_cache_fetches_nothing(c: UrlCache)
    requires
        cache_wf(c),
        cache_complete(c),
    ensures
        spec_batch_range(c) is None,
        extend_from(slug_views(c.slugs@), Seq::empty(), 0) == slug_views(c.slugs@),
{
}

/// A cached slug answers the key when it equals it or continues it at
/// a hyphen boundary.
pub open spec fn slug_key_hit(slug: Seq<char>, prefix: Seq<char>) -> bool {
    slug == prefix || match_at(slug, prefix + seq!['-'], 0)
}

/// Index of the first cached slug answering the key, at or after `i`.
pub open spec fn first_key_hit(slugs: Seq<Seq<char>>, prefix: Seq<char>, i: int) -> Option<
    int,
>
    decreases slugs.len() - i,
{
    if i < 0 || i >= slugs.len() {
        None
    } else if slug_key_hit(slugs[i], prefix) {
        Some(i)
    } else {
        first_key_hit(slugs, prefix, i + 1)
    }
}

/// Search the cache for the key, in stored order; a hit yields the
/// album page URL for the matched slug.
pub fn match_url(cache: &UrlCache, prefix: &str) -> (r: Option<String>)
    ensures
        match r {
            Some(u) => exists|i: int|
                first_key_hit(slug_views(cache.slugs@), prefix@, 0) == Some(i) && u@
                    == "https://www.thelineofbestfit.com/albums/"@ + slug_views(
                    cache.slugs@,
                )[i],
            None => first_key_hit(slug_views(cache.slugs@), prefix@, 0) is None,
        },
{
    let pv = chars_of(prefix);
    let mut pdash = chars_of(prefix);
    pdash.push('-');
    proof {
        assert(pdash@ =~= prefix@ + seq!['-']);
    }
    let n = cache.slugs.len();
    let mut i: usize = 0;
    while i < n
        invariant
            i <= n == cache.slugs@.len(),
            pv@ == prefix@,
            pdash@ == prefix@ + seq!['-'],
            first_key_hit(slug_views(cache.slugs@), prefix@, 0) == first_key_hit(
                slug_views(cache.slugs@),
                prefix@,
                i as int,
            ),
        decreases n - i,
    {
        let s: &String = &cache.slugs[i];
        let sv = chars_of(s.as_str());
        proof {
            assert(slug_views(cache.slugs@)[i as int] == cache.slugs@[i as int]@);
        }
        if crate::matcher::eq_chars(&sv, &pv) || starts_with_at(&sv, &pdash, 0) {
            let url = "https://www.thelineofbestfit.com/albums/".to_owned().concat(s.as_str());
            return Some(url);
        }
        i = i + 1;
    }
    None
}

/// The resolution key `{artist_slug}-{album_slug}`.
pub fn slug_key(artist_slug: &str, album_slug: &str) -> (r: String)
    ensures
        r@ == artist_slug@ + seq!['-'] + album_slug@,
{
    let r = artist_slug.to_owned().concat("-").concat(album_slug);
    proof {
        reveal_strlit("-");
        assert(artist_slug@ + "-"@ + album_slug@ =~= artist_slug@ + seq!['-'] + album_slug@);
    }
    r
}

/// `s[i..]` with paragraph and line-break tags turned into line
/// breaks: `</p>` becomes a blank line, the break-tag forms a line
/// break.
pub open spec fn breaks_from(s: Seq<char>, i: int) -> Seq<char>
    decreases s.len() - i,
    via breaks_decreases
{
    if i < 0 || i >= s.len() {
        Seq::empty()
    } else if match_at(s, "</p>"@, i) {
        seq!['\n', '\n'] + breaks_from(s, i + 4)
    } else if match_at(s, "<br />"@, i) {
        seq!['\n'] + breaks_from(s, i + 6)
    } else if match_at(s, "<br/>"@, i) {
        seq!['\n'] + breaks_from(s, i + 5)
    } else if match_at(s, "<br>"@, i) {
        seq!['\n'] + breaks_from(s, i + 4)
    } else {
        seq![s[i]] + breaks_from(s, i + 1)
    }
}

#[via_fn]
proof fn breaks_decreases(s: Seq<char>, i: int) {
    reveal_strlit("</p>");
    reveal_strlit("<br />");
    reveal_strlit("<br/>");
    reveal_strlit("<br>");
}

/// Turn paragraph and line-break tags into line breaks.
fn breaks_chars(text: &Vec<char>) -> (r: Vec<char>)
    ensures
        r@ == breaks_from(text@, 0),
{
    let n = text.len();
    let p_p = chars_of("</p>");
    let p_brsp = chars_of("<br />");
    let p_brs = chars_of("<br/>");
    let p_br = chars_of("<br>");
    proof {
        reveal_strlit("</p>");
        reveal_strlit("<br />");
        reveal_strlit("<br/>");
        reveal_strlit("<br>");
    }
    let mut out: Vec<char> = Vec::new();
    let mut i: usize = 0;
    while i < n
        invariant
            i <= n == text.len(),
            p_p@ == "</p>"@ && p_p@.len() == 4,
            p_brsp@ == "<br />"@ && p_brsp@.len() == 6,
            p_brs@ == "<br/>"@ && p_brs@.len() == 5,
            p_br@ == "<br>"@ && p_br@.len() == 4,
            breaks_from(text@, 0) == out@ + breaks_from(text@, i as int),
        decreases n - i,
    {
        if starts_with_at(text, &p_p, i) {
            out.push('\n');
            out.push('\n');
            i = i + 4;
        } else if starts_with_at(text, &p_brsp, i) {
            out.push('\n');
            i = i + 6;
        } else if starts_with_at(text, &p_brs, i) {
            out.push('\n');
            i = i + 5;
        } else if starts_with_at(text, &p_br, i) {
            out.push('\n');
            i = i + 4;
        } else {
            out.push(text[i]);
            i = i + 1;
        }
    }
    out
}

/// The end of the balanced container opened before `pos` at nesting
/// `depth`: each `<div` before the next `</div>` deepens the nesting;
/// the `</div>` that brings it to zero ends the container.
pub open spec fn div_end(s: Seq<char>, pos: int, depth: int) -> Option<int>
    decreases s.len() - pos,
    when pos >= 0 && depth >= 1
    via div_end_decreases
{
    match spec_find_from(s, "</div>"@, pos) {
        None => None,
        Some(c) => {
            let o = spec_find_from(s, "<div"@, pos);
            if o is Some && o->Some_0 < c {
                div_end(s, o->Some_0 + 4, depth + 1)
            } else if depth == 1 {
                Some(c)
            } else {
                div_end(s, c + 6, depth - 1)
            }
        },
    }
}

#[via_fn]
proof fn div_end_decreases(s: Seq<char>, pos: int, depth: int) {
    reveal_strlit("</div>");
    reveal_strlit("<div");
    lemma_find_from(s, "</div>"@, pos);
    lemma_find_from(s, "<div"@, pos);
}

/// Walk nested containers to the matching close.
fn find_div_end(text: &Vec<char>, start: usize) -> (r: Option<usize>)
    requires
        start <= text@.len(),
    ensures
        match r {
            Some(e) => div_end(text@, start as int, 1) == Some(e as int) && e <= text@.len(),
            None => div_end(text@, start as int, 1) is None,
        },
{
    let n = text.len();
    let p_open = chars_of("<div");
    let p_close = chars_of("</div>");
    proof {
        reveal_strlit("<div");
        reveal_strlit("</div>");
    }
    let mut pos: usize = start;
    let mut depth: usize = 1;
    loop
        invariant
            pos <= n == text@.len(),
            1 <= depth,
            4 * depth <= pos + 4,
            p_open@ == "<div"@ && p_open@.len() == 4,
            p_close@ == "</div>"@ && p_close@.len() == 6,
            div_end(text@, start as int, 1) == div_end(text@, pos as int, depth as int),
        decreases n - pos,
    {
        let c = match find_from(text, &p_close, pos) {
            None => {
                return None;
            },
            Some(c) => c,
        };
        proof {
            lemma_find_from(text@, "</div>"@, pos as int);
            lemma_find_from(text@, "<div"@, pos as int);
        }
        let o = find_from(text, &p_open, pos);
        match o {
            Some(ov) if ov < c => {
                depth = depth + 1;
                pos = ov + 4;
            },
            _ => {
                if depth == 1 {
                    return Some(c);
                }
                depth = depth - 1;
                pos = c + 6;
            },
        }
    }
}

/// The paragraphs of a text, split at blank lines.
pub open spec fn paras_from(s: Seq<char>, i: int) -> Seq<Seq<char>>
    decreases s.len() - i,
    when i >= 0
    via paras_decreases
{
    match spec_find_from(s, "\n\n"@, i) {
        None => seq![s.subrange(i, s.len() as int)],
        Some(p) => seq![s.subrange(i, p)] + paras_from(s, p + 2),
    }
}

#[via_fn]
proof fn paras_decreases(s: Seq<char>, i: int) {
    lemma_find_from(s, "\n\n"@, i);
    reveal_strlit("\n\n");
}

/// A paragraph, white-space runs collapsed and the ends trimmed.
pub open spec fn clean_para(p: Seq<char>) -> Seq<char> {
    spec_trim_ws(spec_collapse_ws(p))
}

/// The cleaned non-empty paragraphs from `i` on.
pub open spec fn kept_from(paras: Seq<Seq<char>>, i: int) -> Seq<Seq<char>>
    decreases paras.len() - i,
{
    if i < 0 || i >= paras.len() {
        Seq::empty()
    } else {
        let c = clean_para(paras[i]);
        (if c.len() > 0 {
            seq![c]
        } else {
            Seq::empty()
        }) + kept_from(paras, i + 1)
    }
}

/// The kept paragraphs joined by blank lines, from `i` on.
pub open spec fn join_from(ps: Seq<Seq<char>>, i: int) -> Seq<char>
    decreases ps.len() - i,
{
    if i < 0 || i >= ps.len() {
        Seq::empty()
    } else if i == ps.len() - 1 {
        ps[i]
    } else {
        ps[i] + "\n\n"@ + join_from(ps, i + 1)
    }
}

/// What article-body extraction returns: the balanced contents of the
/// article container, break tags turned to line breaks, tags stripped,
/// entities decoded, paragraphs normalized and rejoined, and the whole
/// capped at a sentence boundary; no non-empty paragraph means no
/// excerpt.
pub open spec fn spec_article_body(s: Seq<char>) -> Option<Seq<char>> {
    match spec_find_from(s, "c--article-copy__sections"@, 0) {
        None => None,
        Some(mp) => match spec_find_from(s, seq!['>'], mp) {
            None => None,
            Some(gt) => match div_end(s, gt + 1, 1) {
                None => None,
                Some(ce) => {
                    let raw = s.subrange(gt + 1, ce);
                    let txt = spec_decode_entities(spec_strip_tags(breaks_from(raw, 0)));
                    let kept = kept_from(paras_from(txt, 0), 0);
                    if kept.len() == 0 {
                        None
                    } else {
                        Some(spec_truncate(join_from(kept, 0)))
                    }
                },
            },
        },
    }
}

/// Extract the full review text from the article container.
pub fn extract_article_body(html: &str) -> (r: Option<String>)
    ensures
        match r {
            Some(t) => spec_article_body(html@) == Some(t@),
            None => spec_article_body(html@) is None,
        },
{
    proof {
        reveal_strlit("c--article-copy__sections");
        reveal_strlit("\n\n");
    }
    let cs = chars_of(html);
    let n = cs.len();
    let marker = chars_of("c--article-copy__sections");
    let mp = match find_from(&cs, &marker, 0) {
        None => {
            return None;
        },
        Some(mp) => mp,
    };
    let mut gtp: Vec<char> = Vec::new();
    gtp.push('>');
    proof {
        assert(gtp@ =~= seq!['>']);
    }
    let gt = match find_from(&cs, &gtp, mp) {
        None => {
            return None;
        },
        Some(gt) => gt,
    };
    proof {
        lemma_find_from(cs@, seq!['>'], mp as int);
    }
    let ce = match find_div_end(&cs, gt + 1) {
        None => {
            return None;
        },
        Some(ce) => ce,
    };
    proof {
        assert(gt + 1 <= ce) by {
            crate::bestfit::lemma_div_end_range(cs@, gt + 1 as int, 1);
        }
    }
    let raw = subvec(&cs, gt + 1, ce);
    let broken = breaks_chars(&raw);
    let stripped = strip_tags_chars(&broken);
    let txt = decode_entities_chars(&stripped);

    let pat_nn = chars_of("\n\n");
    let mut paras: Vec<Vec<char>> = Vec::new();
    let mut i: usize = 0;
    let tn = txt.len();
    loop
        invariant_except_break
            i <= tn == txt@.len(),
            pat_nn@ == "\n\n"@ && pat_nn@.len() == 2,
            paras_from(txt@, 0) == paras.deep_view() + paras_from(txt@, i as int),
        ensures
            paras_from(txt@, 0) == paras.deep_view(),
        decreases tn - i,
    {
        match find_from(&txt, &pat_nn, i) {
            None => {
                let last = subvec(&txt, i, tn);
                let ghost old_views = paras.deep_view();
                let ghost lv = last@;
                paras.push(last);
                proof {
                    assert(paras.deep_view() =~~= old_views.push(lv));
                    assert(paras.deep_view() =~~= old_views + seq![lv]);
                }
                break ;
            },
            Some(p) => {
                proof {
                    lemma_find_from(txt@, "\n\n"@, i as int);
                }
                let piece = subvec(&txt, i, p);
                let ghost old_views = paras.deep_view();
                let ghost pv = piece@;
                paras.push(piece);
                proof {
                    assert(paras.deep_view() =~~= old_views.push(pv));
                    assert(paras.deep_view() =~~= old_views + seq![pv]);
                }
                i = p + 2;
            },
        }
    }

    let pn = paras.len();
    let mut kept: Vec<Vec<char>> = Vec::new();
    let mut k: usize = 0;
    proof {
        assert(kept.deep_view() =~= Seq::<Seq<char>>::empty());
    }
    while k < pn
        invariant
            k <= pn == paras@.len(),
            kept_from(paras.deep_view(), 0) == kept.deep_view() + kept_from(
                paras.deep_view(),
                k as int,
            ),
        decreases pn - k,
    {
        let p: &Vec<char> = &paras[k];
        let collapsed = collapse_ws_chars(p);
        let cleaned = trim_ws_chars(&collapsed);
        proof {
            assert(paras.deep_view()[k as int] == paras@[k as int]@);
        }
        if cleaned.len() > 0 {
            let ghost old_views = kept.deep_view();
            let ghost cv = cleaned@;
            kept.push(cleaned);
            proof {
                assert(kept.deep_view() =~~= old_views.push(cv));
                assert(kept.deep_view() =~~= old_views + seq![cv]);
            }
        }
        k = k + 1;
    }

    let kn = kept.len();
    if kn == 0 {
        return None;
    }
    let mut joined: Vec<char> = Vec::new();
    let mut j: usize = 0;
    proof {
        assert(joined@ =~= Seq::<char>::empty());
    }
    while j < kn
        invariant
            j <= kn == kept@.len(),
            kn > 0,
            join_from(kept.deep_view(), 0) == joined@ + join_from(kept.deep_view(), j as int),
        decreases kn - j,
    {
        let piece: &Vec<char> = &kept[j];
        proof {
            assert(kept.deep_view()[j as int] == kept@[j as int]@);
        }
        let m = piece.len();
        let mut q: usize = 0;
        let ghost base = joined@;
        while q < m
            invariant
                q <= m == piece@.len(),
                joined@ == base + piece@.take(q as int),
            decreases m - q,
        {
            joined.push(piece[q]);
            proof {
                assert(piece@.take(q + 1 as int) =~= piece@.take(q as int).push(
                    piece@[q as int],
                ));
            }
            q = q + 1;
        }
        proof {
            assert(joined@ =~= base + piece@);
        }
        if j + 1 < kn {
            joined.push('\n');
            joined.push('\n');
            proof {
                assert(joined@ =~= base + piece@ + "\n\n"@) by {
                    reveal_strlit("\n\n");
                }
            }
        }
        j = j + 1;
    }
    let capped = truncate_chars(&joined);
    Some(string_of(&capped))
}


/// A review body with a character-data wrapper removed: nothing else
/// changes unless both the opening and the closing wrapper are there.
pub open spec fn spec_cdata_strip(s: Seq<char>) -> Seq<char> {
    if s.len() >= 12 && match_at(s, "<![CDATA["@, 0) && match_at(s, "]]>"@, s.len() - 3) {
        s.subrange(9, s.len() - 3)
    } else {
        s
    }
}

/// What review-body cleanup returns: wrapper stripped, entities
/// decoded, tags stripped, white-space runs collapsed, ends trimmed.
pub open spec fn spec_clean_review_body(s: Seq<char>) -> Seq<char> {
    spec_trim_ws(spec_collapse_ws(spec_strip_tags(spec_decode_entities(spec_cdata_strip(s)))))
}

/// Clean a structured review body into plain text.
pub fn clean_review_body(body: &str) -> (r: String)
    ensures
        r@ == spec_clean_review_body(body@),
{
    proof {
        reveal_strlit("<![CDATA[");
        reveal_strlit("]]>");
    }
    let cs = chars_of(body);
    let n = cs.len();
    let pre = chars_of("<![CDATA[");
    let suf = chars_of("]]>");
    let inner: Vec<char> = if n >= 12 && starts_with_at(&cs, &pre, 0) && starts_with_at(
        &cs,
        &suf,
        n - 3,
    ) {
        subvec(&cs, 9, n - 3)
    } else {
        let w = subvec(&cs, 0, n);
        proof {
            assert(w@ =~= cs@);
        }
        w
    };
    let decoded = decode_entities_chars(&inner);
    let stripped = strip_tags_chars(&decoded);
    let collapsed = collapse_ws_chars(&stripped);
    let trimmed = trim_ws_chars(&collapsed);
    string_of(&trimmed)
}

/// The decimal value of a rating field: a JSON number by its
/// rendering, a JSON string by its trimmed text.
pub open spec fn spec_numeric_of(x: JsonVal) -> Option<Dec> {
    match x {
        JsonVal::Num(t) => spec_parse_dec(t@),
        JsonVal::Str(t) => spec_parse_dec(spec_trim_ws(t@)),
        _ => None,
    }
}

/// A rating field whose text is a minus-led decimal: at most zero, so
/// a best rating in this form rejects the rating.
pub open spec fn spec_numeric_negative(x: JsonVal) -> bool {
    match x {
        JsonVal::Num(t) => crate::num::is_neg_dec(t@),
        JsonVal::Str(t) => crate::num::is_neg_dec(spec_trim_ws(t@)),
        _ => false,
    }
}

/// Decide `spec_numeric_negative`.
pub fn numeric_negative(x: &JsonVal) -> (r: bool)
    ensures
        r == spec_numeric_negative(*x),
{
    match x {
        JsonVal::Num(t) => crate::num::neg_dec(&chars_of(t.as_str())),
        JsonVal::Str(t) => {
            let tc = chars_of(t.as_str());
            let trimmed = trim_ws_chars(&tc);
            crate::num::neg_dec(&trimmed)
        },
        _ => false,
    }
}

/// Parse a JSON number or numeric string.
pub fn numeric_of(x: &JsonVal) -> (r: Option<Dec>)
    ensures
        r == spec_numeric_of(*x),
        r matches Some(d) ==> crate::num::dec_wf(d),
{
    match x {
        JsonVal::Num(t) => parse_dec(&chars_of(t.as_str())),
        JsonVal::Str(t) => {
            let tc = chars_of(t.as_str());
            let trimmed = trim_ws_chars(&tc);
            parse_dec(&trimmed)
        },
        _ => None,
    }
}

/// A field that may be absent, null, or an object.
pub open spec fn opt_obj_field_ok(v: JsonVal, key: Seq<char>) -> bool {
    match spec_obj_get(v, key) {
        None => true,
        Some(x) => x is Null || x is Obj,
    }
}

/// The inner review object fits the expected shape.
pub open spec fn review_shape(r: JsonVal) -> bool {
    &&& opt_obj_field_ok(r, "reviewRating"@)
    &&& (match spec_obj_get(r, "author"@) {
        None => true,
        Some(a) => a is Null || (a is Obj && spec_opt_str_field(a, "name"@) is Some),
    })
    &&& spec_opt_str_field(r, "datePublished"@) is Some
    &&& spec_opt_str_field(r, "reviewBody"@) is Some
}

/// A structured block fits the album review shape.
pub open spec fn spec_ld_shape(e: JsonVal) -> bool {
    &&& e is Obj
    &&& spec_opt_str_field(e, "@type"@) is Some
    &&& spec_opt_str_field(e, "datePublished"@) is Some
    &&& (match spec_obj_get(e, "review"@) {
        None => true,
        Some(x) => x is Null || (x is Obj && review_shape(x)),
    })
}

/// The block declares the album type.
pub open spec fn type_is_album(e: JsonVal) -> bool {
    match spec_opt_str_field(e, "@type"@) {
        Some(Some(t)) => t@ == "MusicAlbum"@,
        _ => false,
    }
}

/// What one well-shaped block yields: the normalized rating, the
/// cleaned and capped excerpt, the author name, and the review-level
/// date falling back to the top-level one. A best rating written as a
/// minus-led decimal is at most zero and makes the rating absent. A
/// block without a review entry, or with neither rating nor excerpt,
/// yields nothing.
pub open spec fn spec_ld_facts(e: JsonVal) -> Option<
    (Option<Rating>, Option<Seq<char>>, Option<String>, Option<String>),
> {
    match spec_obj_get(e, "review"@) {
        None => None,
        Some(JsonVal::Null) => None,
        Some(r) => {
            let rating = match spec_obj_get(r, "reviewRating"@) {
                None => None,
                Some(JsonVal::Null) => None,
                Some(rr) => match spec_obj_get(rr, "ratingValue"@) {
                    None => None,
                    Some(JsonVal::Null) => None,
                    Some(x) => match spec_numeric_of(x) {
                        None => None,
                        Some(vd) => {
                            let neg_best = match spec_obj_get(rr, "bestRating"@) {
                                None => false,
                                Some(JsonVal::Null) => false,
                                Some(b) => spec_numeric_negative(b),
                            };
                            if neg_best {
                                None
                            } else {
                                let best = match spec_obj_get(rr, "bestRating"@) {
                                    None => None,
                                    Some(JsonVal::Null) => None,
                                    Some(b) => spec_numeric_of(b),
                                };
                                spec_normalize(vd, best)
                            }
                        },
                    },
                },
            };
            let reviewer = match spec_obj_get(r, "author"@) {
                None => None,
                Some(JsonVal::Null) => None,
                Some(a) => match spec_opt_str_field(a, "name"@) {
                    Some(nm) => nm,
                    None => None,
                },
            };
            let date = match spec_opt_str_field(r, "datePublished"@) {
                Some(Some(d)) => Some(d),
                _ => match spec_opt_str_field(e, "datePublished"@) {
                    Some(d) => d,
                    None => None,
                },
            };
            let excerpt = match spec_opt_str_field(r, "reviewBody"@) {
                Some(Some(b)) => Some(
                    spec_truncate(spec_trim_ws(spec_clean_review_body(b@))),
                ),
                _ => None,
            };
            if rating is None && excerpt is None {
                None
            } else {
                Some((rating, excerpt, reviewer, date))
            }
        },
    }
}

/// Decide the block shape.
fn ld_shape_exec(e: &JsonVal) -> (r: bool)
    ensures
        r == spec_ld_shape(*e),
{
    if !is_obj(e) {
        return false;
    }
    if opt_str_field(e, "@type").is_none() {
        return false;
    }
    if opt_str_field(e, "datePublished").is_none() {
        return false;
    }
    match obj_get(e, "review") {
        None => true,
        Some(x) => match x {
            JsonVal::Null => true,
            JsonVal::Obj(_) => review_shape_exec(x),
            _ => false,
        },
    }
}

/// Decide the inner review shape.
fn review_shape_exec(r: &JsonVal) -> (res: bool)
    ensures
        res == review_shape(*r),
{
    let rr_ok = match obj_get(r, "reviewRating") {
        None => true,
        Some(x) => match x {
            JsonVal::Null => true,
            JsonVal::Obj(_) => true,
            _ => false,
        },
    };
    if !rr_ok {
        return false;
    }
    let a_ok = match obj_get(r, "author") {
        None => true,
        Some(a) => match a {
            JsonVal::Null => true,
            JsonVal::Obj(_) => opt_str_field(a, "name").is_some(),
            _ => false,
        },
    };
    if !a_ok {
        return false;
    }
    if opt_str_field(r, "datePublished").is_none() {
        return false;
    }
    opt_str_field(r, "reviewBody").is_some()
}

/// Decide the album type mark.
fn type_is_album_exec(e: &JsonVal) -> (r: bool)
    ensures
        r == type_is_album(*e),
{
    match opt_str_field(e, "@type") {
        Some(Some(t)) => {
            let tv = chars_of(t.as_str());
            let mv = chars_of("MusicAlbum");
            crate::matcher::eq_chars(&tv, &mv)
        },
        _ => false,
    }
}

/// Read the facts out of one well-shaped block.
fn ld_facts_exec(e: &JsonVal) -> (r: Option<
    (Option<Rating>, Option<String>, Option<String>, Option<String>),
>)
    ensures
        match r {
            Some(f) => spec_ld_facts(*e) matches Some(g) && f.0 == g.0 && (match (f.1, g.1) {
                (Some(t), Some(x)) => t@ == x,
                (None, None) => true,
                _ => false,
            }) && f.2 == g.2 && f.3 == g.3,
            None => spec_ld_facts(*e) is None,
        },
        r matches Some(f) ==> (f.0 matches Some(rt) ==> rating_wf(rt)),
{
    let rv = match obj_get(e, "review") {
        None => {
            return None;
        },
        Some(x) => match x {
            JsonVal::Null => {
                return None;
            },
            _ => x,
        },
    };
    let rating: Option<Rating> = match obj_get(rv, "reviewRating") {
        None => None,
        Some(rr) => match rr {
            JsonVal::Null => None,
            _ => match obj_get(rr, "ratingValue") {
                None => None,
                Some(x) => match x {
                    JsonVal::Null => None,
                    _ => match numeric_of(x) {
                        None => None,
                        Some(vd) => {
                            let neg_best = match obj_get(rr, "bestRating") {
                                None => false,
                                Some(b) => match b {
                                    JsonVal::Null => false,
                                    _ => numeric_negative(b),
                                },
                            };
                            if neg_best {
                                None
                            } else {
                                let best: Option<Dec> = match obj_get(rr, "bestRating") {
                                    None => None,
                                    Some(b) => match b {
                                        JsonVal::Null => None,
                                        _ => numeric_of(b),
                                    },
                                };
                                normalize_rating(vd, best)
                            }
                        },
                    },
                },
            },
        },
    };
    let reviewer: Option<String> = match obj_get(rv, "author") {
        None => None,
        Some(a) => match a {
            JsonVal::Null => None,
            _ => match opt_str_field(a, "name") {
                Some(nm) => nm,
                None => None,
            },
        },
    };
    let date: Option<String> = match opt_str_field(rv, "datePublished") {
        Some(Some(d)) => Some(d),
        _ => match opt_str_field(e, "datePublished") {
            Some(d) => d,
            None => None,
        },
    };
    let excerpt: Option<String> = match opt_str_field(rv, "reviewBody") {
        Some(Some(b)) => {
            let cleaned = clean_review_body(b.as_str());
            let cc = chars_of(cleaned.as_str());
            let trimmed = trim_ws_chars(&cc);
            let capped = truncate_chars(&trimmed);
            Some(string_of(&capped))
        },
        _ => None,
    };
    if rating.is_none() && excerpt.is_none() {
        return None;
    }
    Some((rating, excerpt, reviewer, date))
}

/// Whether every element of the array fits the block shape.
pub open spec fn all_ld_shaped(items: Seq<JsonVal>, i: int) -> bool
    decreases items.len() - i,
{
    if i < 0 || i >= items.len() {
        true
    } else {
        spec_ld_shape(items[i]) && all_ld_shaped(items, i + 1)
    }
}

/// Index of the first album-typed element yielding facts, at or after
/// `i`.
pub open spec fn first_album_facts(items: Seq<JsonVal>, i: int) -> Option<int>
    decreases items.len() - i,
{
    if i < 0 || i >= items.len() {
        None
    } else if type_is_album(items[i]) && spec_ld_facts(items[i]) is Some {
        Some(i)
    } else {
        first_album_facts(items, i + 1)
    }
}

/// What one trimmed block yields: an album-typed, well-shaped object's
/// facts, or - for an array whose elements all fit the shape - the
/// first album-typed element's facts.
pub open spec fn spec_block_facts(block: Seq<char>) -> Option<
    (Option<Rating>, Option<Seq<char>>, Option<String>, Option<String>),
> {
    match json_of(block) {
        None => None,
        Some(v) => if v is Obj {
            if spec_ld_shape(v) && type_is_album(v) {
                spec_ld_facts(v)
            } else {
                None
            }
        } else if v is Arr {
            let items = v->Arr_0@;
            if all_ld_shaped(items, 0) {
                match first_album_facts(items, 0) {
                    Some(j) => spec_ld_facts(items[j]),
                    None => None,
                }
            } else {
                None
            }
        } else {
            None
        },
    }
}

/// The facts of the first structured block that yields any, at or
/// after `from`.
pub open spec fn spec_page_facts_from(s: Seq<char>, from: int) -> Option<
    (Option<Rating>, Option<Seq<char>>, Option<String>, Option<String>),
>
    decreases s.len() - from,
    when from >= 0
    via page_facts_decreases
{
    match crate::html::spec_next_block(s, "application/ld+json"@, from) {
        None => None,
        Some(b) => {
            let block = spec_trim_ws(s.subrange(b.0, b.1));
            match spec_block_facts(block) {
                Some(f) => Some(f),
                None => if b.1 >= crate::html::scan_floor(s.len() as int) {
                    None
                } else {
                    spec_page_facts_from(s, b.1)
                },
            }
        },
    }
}

#[via_fn]
proof fn page_facts_decreases(s: Seq<char>, from: int) {
    crate::html::lemma_next_block(s, "application/ld+json"@, from);
}

/// What review extraction from an album page returns.
pub open spec fn spec_page_facts(s: Seq<char>) -> Option<
    (Option<Rating>, Option<Seq<char>>, Option<String>, Option<String>),
> {
    spec_page_facts_from(s, 0)
}

/// Read the facts out of one trimmed block.
fn block_facts_exec(block: &Vec<char>) -> (r: Option<
    (Option<Rating>, Option<String>, Option<String>, Option<String>),
>)
    ensures
        match r {
            Some(f) => spec_block_facts(block@) matches Some(g) && f.0 == g.0 && (match (
                f.1,
                g.1,
            ) {
                (Some(t), Some(x)) => t@ == x,
                (None, None) => true,
                _ => false,
            }) && f.2 == g.2 && f.3 == g.3,
            None => spec_block_facts(block@) is None,
        },
        r matches Some(f) ==> (f.0 matches Some(rt) ==> rating_wf(rt)),
{
    let bs = string_of(block);
    let v = match parse_json(bs.as_str()) {
        None => {
            return None;
        },
        Some(v) => v,
    };
    if is_obj(&v) {
        if ld_shape_exec(&v) && type_is_album_exec(&v) {
            return ld_facts_exec(&v);
        }
        return None;
    }
    let items: &Vec<JsonVal> = match &v {
        JsonVal::Arr(items) => items,
        _ => {
            return None;
        },
    };
    let n = items.len();
    let mut i: usize = 0;
    while i < n
        invariant
            i <= n == items@.len(),
            json_of(block@) == Some(v),
            v is Arr && v->Arr_0 == *items,
            all_ld_shaped(items@, 0) == all_ld_shaped(items@, i as int),
        decreases n - i,
    {
        if !ld_shape_exec(&items[i]) {
            return None;
        }
        i = i + 1;
    }
    let mut j: usize = 0;
    while j < n
        invariant
            j <= n == items@.len(),
            json_of(block@) == Some(v),
            v is Arr && v->Arr_0 == *items,
            all_ld_shaped(items@, 0),
            first_album_facts(items@, 0) == first_album_facts(items@, j as int),
        decreases n - j,
    {
        let e: &JsonVal = &items[j];
        if type_is_album_exec(e) {
            match ld_facts_exec(e) {
                Some(f) => {
                    return Some(f);
                },
                None => {},
            }
        }
        j = j + 1;
    }
    None
}

/// Parse an album page's structured blocks for review data: rating,
/// cleaned excerpt, author and date from the first block that yields
/// any.
pub fn parse_json_ld(html: &str, review_url: &str) -> (r: Option<SiteReview>)
    ensures
        match spec_page_facts(html@) {
            None => r is None,
            Some(f) => r matches Some(rev) && rev.source_url@ == review_url@ && rev.rating
                == f.0 && (match (rev.excerpt, f.1) {
                (Some(t), Some(x)) => t@ == x,
                (None, None) => true,
                _ => false,
            }) && rev.reviewer == f.2 && rev.review_date == f.3 && rev.rating_count is None,
        },
        r matches Some(rev) ==> crate::review::review_wf(rev),
{
    let cs = chars_of(html);
    let n = cs.len();
    let opening = chars_of("application/ld+json");
    let mut from: usize = 0;
    loop
        invariant
            from <= n == cs@.len(),
            cs@ == html@,
            opening@ == "application/ld+json"@,
            spec_page_facts(html@) == spec_page_facts_from(html@, from as int),
        decreases n - from,
    {
        match crate::html::next_block(&cs, &opening, from) {
            None => {
                return None;
            },
            Some((bs, be)) => {
                let raw = subvec(&cs, bs, be);
                let block = trim_ws_chars(&raw);
                match block_facts_exec(&block) {
                    Some(f) => {
                        let (rating, excerpt, reviewer, date) = f;
                        proof {
                            assert(spec_page_facts_from(html@, from as int) is Some);
                        }
                        return Some(
                            SiteReview {
                                source_url: review_url.to_owned(),
                                excerpt,
                                rating,
                                rating_count: None,
                                reviewer,
                                review_date: date,
                            },
                        );
                    },
                    None => {},
                }
                let floor = if n >= 50 {
                    n - 50
                } else {
                    0
                };
                if be >= floor {
                    return None;
                }
                from = be;
            },
        }
    }
}


/// Prefer the full article text over the structured block's excerpt
/// when the page yields one.
pub fn prefer_article_text(review: &mut SiteReview, body_text: Option<String>)
    ensures
        match body_text {
            Some(t) => final(review).excerpt == Some(t),
            None => final(review).excerpt == old(review).excerpt,
        },
        final(review).source_url == old(review).source_url,
        final(review).rating == old(review).rating,
        final(review).rating_count == old(review).rating_count,
        final(review).reviewer == old(review).reviewer,
        final(review).review_date == old(review).review_date,
{
    match body_text {
        Some(t) => {
            review.excerpt = Some(t);
        },
        None => {},
    }
}

/// The container's end lies at or after its start.
pub proof fn lemma_div_end_range(s: Seq<char>, pos: int, depth: int)
    requires
        pos >= 0,
        depth >= 1,
    ensures
        div_end(s, pos, depth) matches Some(e) ==> pos <= e && e + 6 <= s.len(),
    decreases s.len() - pos,
{
    reveal_strlit("</div>");
    reveal_strlit("<div");
    lemma_find_from(s, "</div>"@, pos);
    lemma_find_from(s, "<div"@, pos);
    match spec_find_from(s, "</div>"@, pos) {
        None => {},
        Some(c) => {
            let o = spec_find_from(s, "<div"@, pos);
            if o is Some && o->Some_0 < c {
                lemma_div_end_range(s, o->Some_0 + 4, depth + 1);
            } else if depth == 1 {
            } else {
                lemma_div_end_range(s, c + 6, depth - 1);
            }
        },
    }
}

} // verus!
