//! The adapter that searches a blog's REST listing and reads the
//! rating out of heading or span tags on the review page.
use vstd::prelude::*;

use crate::chars::{chars_of, string_of};
use crate::scan::{spec_find_from, lemma_find_from, contains_seq, contains_sub, find_from,
    subvec};
use crate::html::{scan_floor, spec_strip_tags, strip_tags_chars};
use crate::excerpt::{spec_truncate, truncate_chars, trim_ws_chars};
use crate::text::spec_trim_ws;
use crate::json::{JsonVal, spec_obj_get, obj_get, json_of, parse_json, is_obj};
use crate::num::{Rating, spec_try_parse_rating, try_parse_rating, rating_wf};
use crate::pitchfork::{spec_opt_str_field, opt_str_field};
use vstd::string::StringExecFns;

verus! {

/// One post of the listing: its slug, its page link, and optionally
/// its date and rendered content.
pub struct WpPost {
    pub slug: String,
    pub link: String,
    pub date: Option<String>,
    pub content_rendered: Option<String>,
}

/// What one listing entry yields: slug and link must be strings, the
/// date an optional string, and the content, if an object, carries an
/// optional rendered string; any other shape rejects the whole listing.
pub open spec fn spec_wp_post(e: JsonVal) -> Option<WpPost> {
    if !(e is Obj) {
        None
    } else {
        match (spec_obj_get(e, "slug"@), spec_obj_get(e, "link"@)) {
            (Some(JsonVal::Str(slug)), Some(JsonVal::Str(link))) => {
                match spec_opt_str_field(e, "date"@) {
                    None => None,
                    Some(date) => {
                        match spec_obj_get(e, "content"@) {
                            None => Some(
                                WpPost { slug, link, date, content_rendered: None },
                            ),
                            Some(c) => match c {
                                JsonVal::Null => Some(
                                    WpPost { slug, link, date, content_rendered: None },
                                ),
                                JsonVal::Obj(_) => match spec_opt_str_field(c, "rendered"@) {
                                    None => None,
                                    Some(rendered) => Some(
                                        WpPost { slug, link, date, content_rendered: rendered },
                                    ),
                                },
                                _ => None,
                            },
                        }
                    },
                }
            },
            _ => None,
        }
    }
}

/// The posts of the listing entries from `i` on; one bad entry rejects
/// them all.
pub open spec fn wp_posts_from(items: Seq<JsonVal>, i: int) -> Option<Seq<WpPost>>
    decreases items.len() - i,
{
    if i < 0 || i >= items.len() {
        Some(Seq::empty())
    } else {
        match spec_wp_post(items[i]) {
            None => None,
            Some(p) => match wp_posts_from(items, i + 1) {
                None => None,
                Some(rest) => Some(seq![p] + rest),
            },
        }
    }
}

/// What parsing the listing body yields: the posts, if the body is a
/// JSON array of well-shaped entries.
pub open spec fn spec_wp_posts(body: Seq<char>) -> Option<Seq<WpPost>> {
    match json_of(body) {
        Some(v) => match v {
            JsonVal::Arr(items) => wp_posts_from(items@, 0),
            _ => None,
        },
        None => None,
    }
}

/// Read one listing entry.
fn wp_post_of(e: &JsonVal) -> (r: Option<WpPost>)
    ensures
        r == spec_wp_post(*e),
{
    if !is_obj(e) {
        return None;
    }
    let slug = match obj_get(e, "slug") {
        Some(JsonVal::Str(s)) => s.clone(),
        _ => {
            return None;
        },
    };
    let link = match obj_get(e, "link") {
        Some(JsonVal::Str(s)) => s.clone(),
        _ => {
            return None;
        },
    };
    let date = match opt_str_field(e, "date") {
        None => {
            return None;
        },
        Some(d) => d,
    };
    let content_rendered: Option<String> = match obj_get(e, "content") {
        None => None,
        Some(c) => match c {
            JsonVal::Null => None,
            JsonVal::Obj(_) => match opt_str_field(c, "rendered") {
                None => {
                    return None;
                },
                Some(r) => r,
            },
            _ => {
                return None;
            },
        },
    };
    Some(WpPost { slug, link, date, content_rendered })
}

/// Parse the listing body into posts.
pub fn posts_from_json(body: &str) -> (r: Option<Vec<WpPost>>)
    ensures
        match r {
            Some(v) => spec_wp_posts(body@) == Some(v@),
            None => spec_wp_posts(body@) is None,
        },
{
    let v = match parse_json(body) {
        None => {
            return None;
        },
        Some(v) => v,
    };
    let items: &Vec<JsonVal> = match &v {
        JsonVal::Arr(items) => items,
        _ => {
            return None;
        },
    };
    let n = items.len();
    let mut out: Vec<WpPost> = Vec::new();
    let mut i: usize = 0;
    while i < n
        invariant
            i <= n == items.len(),
            spec_wp_posts(body@) == match wp_posts_from(items@, i as int) {
                None => None::<Seq<WpPost>>,
                Some(rest) => Some(out@ + rest),
            },
        decreases n - i,
    {
        let e: &JsonVal = &items[i];
        match wp_post_of(e) {
            None => {
                return None;
            },
            Some(p) => {
                let ghost old_out = out@;
                let ghost pp = p;
                out.push(p);
                proof {
                    match wp_posts_from(items@, i + 1 as int) {
                        None => {},
                        Some(rest) => {
                            assert(out@ + rest =~= old_out + (seq![pp] + rest));
                        },
                    }
                }
            },
        }
        i = i + 1;
    }
    proof {
        assert(out@ + Seq::<WpPost>::empty() =~= out@);
    }
    Some(out)
}

/// A post qualifies when its slug contains the title slug and, with
/// both non-empty, the title slug is at least 30 percent of the post
/// slug's length - post slugs combine artist and album, so they run
/// longer.
pub open spec fn post_qualifies(p: WpPost, ts: Seq<char>) -> bool {
    contains_seq(p.slug@, ts) && (ts.len() == 0 || p.slug@.len() == 0 || 10 * ts.len() >= 3
        * p.slug@.len())
}

/// A qualifying post whose slug also contains the artist slug.
pub open spec fn post_with_artist(p: WpPost, ts: Seq<char>, asl: Seq<char>) -> bool {
    post_qualifies(p, ts) && asl.len() > 0 && contains_seq(p.slug@, asl)
}

/// Index of the first qualifying post at or after `i`.
pub open spec fn first_qualifying(posts: Seq<WpPost>, ts: Seq<char>, i: int) -> Option<int>
    decreases posts.len() - i,
{
    if i < 0 || i >= posts.len() {
        None
    } else if post_qualifies(posts[i], ts) {
        Some(i)
    } else {
        first_qualifying(posts, ts, i + 1)
    }
}

/// Index of the first artist-bearing qualifying post at or after `i`.
pub open spec fn first_with_artist(
    posts: Seq<WpPost>,
    ts: Seq<char>,
    asl: Seq<char>,
    i: int,
) -> Option<int>
    decreases posts.len() - i,
{
    if i < 0 || i >= posts.len() {
        None
    } else if post_with_artist(posts[i], ts, asl) {
        Some(i)
    } else {
        first_with_artist(posts, ts, asl, i + 1)
    }
}

/// What post selection returns: among qualifying posts, the first
/// whose slug also carries the artist; otherwise the first qualifying
/// one.
pub open spec fn spec_pick_post(posts: Seq<WpPost>, ts: Seq<char>, asl: Seq<char>) -> Option<
    int,
> {
    match first_with_artist(posts, ts, asl, 0) {
        Some(i) => Some(i),
        None => first_qualifying(posts, ts, 0),
    }
}

/// Pick the best matching post, by index.
pub fn pick_post(posts: &Vec<WpPost>, title_slug: &str, artist_slug: &str) -> (r: Option<
    usize,
>)
    ensures
        match r {
            Some(i) => spec_pick_post(posts@, title_slug@, artist_slug@) == Some(i as int),
            None => spec_pick_post(posts@, title_slug@, artist_slug@) is None,
        },
{
    let ts = chars_of(title_slug);
    let asl = chars_of(artist_slug);
    let n = posts.len();

    let mut i: usize = 0;
    while i < n
        invariant
            i <= n == posts.len(),
            ts@ == title_slug@,
            asl@ == artist_slug@,
            first_with_artist(posts@, ts@, asl@, 0) == first_with_artist(
                posts@,
                ts@,
                asl@,
                i as int,
            ),
        decreases n - i,
    {
        let p: &WpPost = &posts[i];
        if qualifies_exec(p, &ts) && asl.len() > 0 && contains_sub(&chars_of(p.slug.as_str()),
            &asl) {
            return Some(i);
        }
        i = i + 1;
    }

    let mut j: usize = 0;
    while j < n
        invariant
            j <= n == posts.len(),
            ts@ == title_slug@,
            asl@ == artist_slug@,
            first_with_artist(posts@, ts@, asl@, 0) is None,
            first_qualifying(posts@, ts@, 0) == first_qualifying(posts@, ts@, j as int),
        decreases n - j,
    {
        let p: &WpPost = &posts[j];
        if qualifies_exec(p, &ts) {
            return Some(j);
        }
        j = j + 1;
    }
    None
}

/// Decide `post_qualifies`.
fn qualifies_exec(p: &WpPost, ts: &Vec<char>) -> (r: bool)
    ensures
        r == post_qualifies(*p, ts@),
{
    let sv = chars_of(p.slug.as_str());
    if !contains_sub(&sv, ts) {
        return false;
    }
    if ts.len() == 0 || sv.len() == 0 {
        return true;
    }
    let tl: u128 = ts.len() as u128;
    let sl: u128 = sv.len() as u128;
    10 * tl >= 3 * sl
}

/// The rating found scanning same-named tag pairs from `from` on: the
/// first pair whose inner text, tag-stripped and trimmed, parses as a
/// short rating.
pub open spec fn rating_tags_from(
    s: Seq<char>,
    open_tag: Seq<char>,
    close_tag: Seq<char>,
    from: int,
) -> Option<Rating>
    decreases s.len() - from,
    when from >= 0 && open_tag.len() > 0
    via rating_tags_decreases
{
    match spec_find_from(s, open_tag, from) {
        None => None,
        Some(p) => {
            let is_ = p + open_tag.len();
            match spec_find_from(s, close_tag, is_) {
                None => None,
                Some(e) => {
                    let text = spec_trim_ws(spec_strip_tags(s.subrange(is_, e as int)));
                    match spec_try_parse_rating(text) {
                        Some(rt) => Some(rt),
                        None => {
                            let sf = e + close_tag.len();
                            if sf >= scan_floor(s.len() as int) {
                                None
                            } else {
                                rating_tags_from(s, open_tag, close_tag, sf)
                            }
                        },
                    }
                },
            }
        },
    }
}

#[via_fn]
proof fn rating_tags_decreases(
    s: Seq<char>,
    open_tag: Seq<char>,
    close_tag: Seq<char>,
    from: int,
) {
    lemma_find_from(s, open_tag, from);
    match spec_find_from(s, open_tag, from) {
        None => {},
        Some(p) => {
            lemma_find_from(s, close_tag, p + open_tag.len());
        },
    }
}

/// Scan same-named tag pairs for a standalone rating.
pub fn extract_rating_from_tags(html: &Vec<char>, open_tag: &Vec<char>, close_tag: &Vec<
    char,
>) -> (r: Option<Rating>)
    requires
        open_tag@.len() > 0,
        close_tag@.len() > 0,
    ensures
        r == rating_tags_from(html@, open_tag@, close_tag@, 0),
        r matches Some(rt) ==> rating_wf(rt),
{
    let n = html.len();
    let mut from: usize = 0;
    loop
        invariant
            from <= n == html@.len(),
            open_tag@.len() > 0,
            close_tag@.len() > 0,
            rating_tags_from(html@, open_tag@, close_tag@, 0) == rating_tags_from(
                html@,
                open_tag@,
                close_tag@,
                from as int,
            ),
        decreases n - from,
    {
        let p = match find_from(html, open_tag, from) {
            None => {
                return None;
            },
            Some(p) => p,
        };
        proof {
            lemma_find_from(html@, open_tag@, from as int);
        }
        let is_ = p + open_tag.len();
        let e = match find_from(html, close_tag, is_) {
            None => {
                return None;
            },
            Some(e) => e,
        };
        proof {
            lemma_find_from(html@, close_tag@, is_ as int);
        }
        let inner = subvec(html, is_, e);
        let stripped = strip_tags_chars(&inner);
        let text = trim_ws_chars(&stripped);
        match try_parse_rating(&text) {
            Some(rt) => {
                return Some(rt);
            },
            None => {},
        }
        let sf = e + close_tag.len();
        let floor = if n >= 50 {
            n - 50
        } else {
            0
        };
        if sf >= floor {
            return None;
        }
        from = sf;
    }
}

/// What page-level rating extraction returns: a rating from an `<h2>`
/// pair first, else from a `<span>` pair.
pub open spec fn spec_parse_rating(s: Seq<char>) -> Option<Rating> {
    match rating_tags_from(s, "<h2>"@, "</h2>"@, 0) {
        Some(rt) => Some(rt),
        None => rating_tags_from(s, "<span>"@, "</span>"@, 0),
    }
}

/// Extract a standalone rating from the page.
pub fn parse_rating(html: &str) -> (r: Option<Rating>)
    ensures
        r == spec_parse_rating(html@),
        r matches Some(rt) ==> rating_wf(rt),
{
    proof {
        reveal_strlit("<h2>");
        reveal_strlit("</h2>");
        reveal_strlit("<span>");
        reveal_strlit("</span>");
    }
    let cs = chars_of(html);
    let h2o = chars_of("<h2>");
    let h2c = chars_of("</h2>");
    match extract_rating_from_tags(&cs, &h2o, &h2c) {
        Some(rt) => Some(rt),
        None => {
            let so = chars_of("<span>");
            let sc = chars_of("</span>");
            extract_rating_from_tags(&cs, &so, &sc)
        },
    }
}

/// The first position at or after `i` holding `<` or a line break.
pub open spec fn first_stop(s: Seq<char>, i: int) -> int
    decreases s.len() - i,
{
    if i < 0 || i >= s.len() {
        s.len() as int
    } else if s[i] == '<' || s[i] == '\n' {
        i
    } else {
        first_stop(s, i + 1)
    }
}

/// What byline extraction returns: the text after `Words by ` up to
/// the next tag or line break, trimmed; an empty name is absent.
pub open spec fn spec_parse_reviewer(s: Seq<char>) -> Option<Seq<char>> {
    match spec_find_from(s, "Words by "@, 0) {
        None => None,
        Some(p) => {
            let rest = s.subrange(p + 9, s.len() as int);
            let name = spec_trim_ws(rest.take(first_stop(rest, 0)));
            if name.len() == 0 {
                None
            } else {
                Some(name)
            }
        },
    }
}

/// Extract the critic's name from the `Words by ` credit line.
pub fn parse_reviewer(html: &str) -> (r: Option<String>)
    ensures
        match r {
            Some(t) => spec_parse_reviewer(html@) == Some(t@),
            None => spec_parse_reviewer(html@) is None,
        },
{
    proof {
        reveal_strlit("Words by ");
    }
    let cs = chars_of(html);
    let n = cs.len();
    let marker = chars_of("Words by ");
    let p = match find_from(&cs, &marker, 0) {
        None => {
            return None;
        },
        Some(p) => p,
    };
    proof {
        lemma_find_from(cs@, "Words by "@, 0);
        assert(p + 9 <= n);
    }
    let rest = subvec(&cs, p + 9, n);
    let rn = rest.len();
    let mut end: usize = 0;
    while end < rn && !is_stop_char(rest[end])
        invariant
            end <= rn == rest@.len(),
            first_stop(rest@, 0) == first_stop(rest@, end as int),
        decreases rn - end,
    {
        end = end + 1;
    }
    proof {
        assert(first_stop(rest@, 0) == end as int);
    }
    let raw = subvec(&rest, 0, end);
    proof {
        assert(raw@ =~= rest@.take(first_stop(rest@, 0)));
    }
    let name = trim_ws_chars(&raw);
    if name.len() == 0 {
        None
    } else {
        Some(string_of(&name))
    }
}

/// Decides whether a character ends the byline.
fn is_stop_char(c: char) -> (r: bool)
    ensures
        r == (c == '<' || c == '\n'),
{
    c == '<' || c == '\n'
}

/// What the excerpt built from rendered content returns: tags
/// stripped, white space trimmed at the ends, capped at a sentence
/// boundary; an empty result is absent.
pub open spec fn spec_content_excerpt(s: Seq<char>) -> Option<Seq<char>> {
    let t = spec_truncate(spec_trim_ws(spec_strip_tags(s)));
    if t.len() == 0 {
        None
    } else {
        Some(t)
    }
}

/// Build the excerpt from a post's rendered content.
pub fn excerpt_from_content(content_html: &str) -> (r: Option<String>)
    ensures
        match r {
            Some(t) => spec_content_excerpt(content_html@) == Some(t@),
            None => spec_content_excerpt(content_html@) is None,
        },
{
    let cs = chars_of(content_html);
    let stripped = strip_tags_chars(&cs);
    let trimmed = trim_ws_chars(&stripped);
    let capped = truncate_chars(&trimmed);
    if capped.len() == 0 {
        None
    } else {
        Some(string_of(&capped))
    }
}


/// Assemble the record once the listing gave a match: with no page
/// body - the page fetch failed - the listing's text and date still
/// make a partial record; with a body, the page supplies rating and
/// byline, and a page with neither rating nor text yields nothing.
pub fn assemble_review(
    link: String,
    excerpt: Option<String>,
    date: Option<String>,
    page_html: Option<String>,
) -> (r: Option<crate::review::SiteReview>)
    ensures
        ({
            let lv = link@;
            match page_html {
                None => if excerpt is None {
                    r is None
                } else {
                    r matches Some(rev) && rev.source_url@ == lv && rev.excerpt == excerpt
                        && rev.rating is None && rev.rating_count is None
                        && rev.reviewer is None && rev.review_date == date
                },
                Some(h) => {
                    let rating = spec_parse_rating(h@);
                    if rating is None && excerpt is None {
                        r is None
                    } else {
                        r matches Some(rev) && rev.source_url@ == lv && rev.excerpt == excerpt
                            && rev.rating == rating && rev.rating_count is None
                            && (match spec_parse_reviewer(h@) {
                            Some(t) => rev.reviewer matches Some(n) && n@ == t,
                            None => rev.reviewer is None,
                        }) && rev.review_date == date
                    }
                },
            }
        }),
        r matches Some(rev) ==> crate::review::review_wf(rev),
{
    match page_html {
        None => {
            if excerpt.is_none() {
                return None;
            }
            Some(
                crate::review::SiteReview {
                    source_url: link,
                    excerpt,
                    rating: None,
                    rating_count: None,
                    reviewer: None,
                    review_date: date,
                },
            )
        },
        Some(h) => {
            let rating = parse_rating(h.as_str());
            let reviewer = parse_reviewer(h.as_str());
            if rating.is_none() && excerpt.is_none() {
                return None;
            }
            Some(
                crate::review::SiteReview {
                    source_url: link,
                    excerpt,
                    rating,
                    rating_count: None,
                    reviewer,
                    review_date: date,
                },
            )
        },
    }
}

/// The listing search URL for a query.
pub fn nt_search_url(query: &str) -> (r: String)
    ensures
        r@ == "https://northerntransmissions.com/wp-json/wp/v2/posts?categories=15&search="@
            + crate::text::encode_from(vstd::utf8::encode_utf8(query@), 0) + "&per_page=5"@,
{
    let encoded = crate::text::url_encode(query);
    "https://northerntransmissions.com/wp-json/wp/v2/posts?categories=15&search=".to_owned()
        .concat(encoded.as_str()).concat("&per_page=5")
}

} // verus!
