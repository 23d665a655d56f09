//! The review-site adapter that finds review pages through site search
//! and reads the rating out of the page's embedded state block.
use vstd::prelude::*;

use crate::chars::{chars_of, string_of};
use crate::scan::{spec_find_from, lemma_find_from, contains_seq, contains_sub, find_from,
    subvec};
use crate::html::scan_floor;
use crate::json::{JsonVal, spec_obj_get, spec_as_str, obj_get, as_str_val, json_of,
    parse_json, is_obj};
use crate::num::{Rating, pow10, spec_parse_dec, parse_dec, rating_wf, is_digit};
use crate::review::{SiteReview, review_wf};
use crate::ld::{spec_extract_json_ld, extract_json_ld};
use vstd::string::StringExecFns;

verus! {

/// A sequence with its trailing slashes removed.
pub open spec fn trim_end_slashes(s: Seq<char>) -> Seq<char>
    decreases s.len(),
{
    if s.len() > 0 && s.last() == '/' {
        trim_end_slashes(s.drop_last())
    } else {
        s
    }
}

pub open spec fn all_digits(s: Seq<char>) -> bool {
    forall|j: int| 0 <= j < s.len() ==> is_digit(s[j])
}

/// The slug part of a review URL: the text between the first
/// `/reviews/albums/` and the next one (or the end), trailing slashes
/// removed, and a purely numeric prefix before the first hyphen
/// stripped.
pub open spec fn pf_slug(url: Seq<char>) -> Seq<char> {
    match spec_find_from(url, "/reviews/albums/"@, 0) {
        None => Seq::empty(),
        Some(p) => {
            let part_end = match spec_find_from(url, "/reviews/albums/"@, p + 16) {
                Some(q2) => q2,
                None => url.len() as int,
            };
            let sl = trim_end_slashes(url.subrange(p + 16, part_end));
            match spec_find_from(sl, seq!['-'], 0) {
                Some(d) => if all_digits(sl.take(d)) {
                    sl.subrange(d + 1, sl.len() as int)
                } else {
                    sl
                },
                None => sl,
            }
        },
    }
}

/// A URL matches when it leads to a review page and its slug contains
/// the title slug.
pub open spec fn pf_url_hit(url: Seq<char>, ts: Seq<char>) -> bool {
    spec_find_from(url, "/reviews/albums/"@, 0) is Some && contains_seq(pf_slug(url), ts)
}

/// Index of the first matching URL at or after `i`.
pub open spec fn first_pf_hit(urls: Seq<Seq<char>>, ts: Seq<char>, i: int) -> Option<int>
    decreases urls.len() - i,
{
    if i < 0 || i >= urls.len() {
        None
    } else if pf_url_hit(urls[i], ts) {
        Some(i)
    } else {
        first_pf_hit(urls, ts, i + 1)
    }
}

/// Remove trailing slashes.
fn trim_slashes_chars(text: &Vec<char>) -> (r: Vec<char>)
    ensures
        r@ == trim_end_slashes(text@),
{
    let mut end: usize = text.len();
    proof {
        assert(text@.take(end as int) =~= text@);
    }
    while end > 0 && text[end - 1] == '/'
        invariant
            end <= text.len(),
            trim_end_slashes(text@) == trim_end_slashes(text@.take(end as int)),
        decreases end,
    {
        proof {
            assert(text@.take(end as int).drop_last() =~= text@.take(end - 1));
        }
        end = end - 1;
    }
    proof {
        assert(trim_end_slashes(text@.take(end as int)) == text@.take(end as int));
    }
    subvec(text, 0, end)
}

/// The slug part of a review URL.
pub fn pf_slug_chars(url: &Vec<char>) -> (r: Vec<char>)
    ensures
        r@ == pf_slug(url@),
        spec_find_from(url@, "/reviews/albums/"@, 0) is None ==> r@ == Seq::<char>::empty(),
{
    proof {
        reveal_strlit("/reviews/albums/");
    }
    let pat = chars_of("/reviews/albums/");
    let p = match find_from(url, &pat, 0) {
        None => {
            return Vec::new();
        },
        Some(p) => p,
    };
    let un = url.len();
    proof {
        lemma_find_from(url@, "/reviews/albums/"@, 0);
        assert(p + 16 <= un);
    }
    let part_end = match find_from(url, &pat, p + 16) {
        Some(q2) => {
            proof {
                lemma_find_from(url@, "/reviews/albums/"@, p + 16 as int);
            }
            q2
        },
        None => un,
    };
    let sp = subvec(url, p + 16, part_end);
    let sl = trim_slashes_chars(&sp);
    let mut dash: Vec<char> = Vec::new();
    dash.push('-');
    proof {
        assert(dash@ =~= seq!['-']);
    }
    let d = match find_from(&sl, &dash, 0) {
        None => {
            return sl;
        },
        Some(d) => d,
    };
    proof {
        lemma_find_from(sl@, seq!['-'], 0);
    }
    let mut all_dig = true;
    let mut j: usize = 0;
    while j < d
        invariant
            j <= d < sl@.len(),
            all_dig == (forall|q: int| 0 <= q < j ==> is_digit(#[trigger] sl@[q])),
        decreases d - j,
    {
        let c = sl[j];
        if !('0' <= c && c <= '9') {
            all_dig = false;
        }
        j = j + 1;
    }
    if all_dig {
        proof {
            assert(sl@.take(d as int).len() == d as int);
            assert(all_digits(sl@.take(d as int)));
        }
        let sn = sl.len();
        subvec(&sl, d + 1, sn)
    } else {
        proof {
            let q = choose|q: int| 0 <= q < d && !is_digit(sl@[q]);
            assert(sl@.take(d as int)[q] == sl@[q]);
            assert(!all_digits(sl@.take(d as int)));
        }
        sl
    }
}

/// Pick the first review URL whose slug contains the title slug.
pub fn pick_review_url(urls: &Vec<String>, title_slug: &str) -> (r: Option<String>)
    ensures
        match r {
            Some(u) => exists|i: int|
                first_pf_hit(urls.deep_view(), title_slug@, 0) == Some(i) && u@
                    == urls.deep_view()[i],
            None => first_pf_hit(urls.deep_view(), title_slug@, 0) is None,
        },
{
    let ts = chars_of(title_slug);
    let n = urls.len();
    let mut i: usize = 0;
    while i < n
        invariant
            i <= n == urls.len(),
            ts@ == title_slug@,
            first_pf_hit(urls.deep_view(), title_slug@, 0) == first_pf_hit(
                urls.deep_view(),
                title_slug@,
                i as int,
            ),
        decreases n - i,
    {
        let u: &String = &urls[i];
        let uc = chars_of(u.as_str());
        proof {
            assert(urls.deep_view()[i as int] == urls@[i as int]@);
        }
        let pat = chars_of("/reviews/albums/");
        let in_path = find_from(&uc, &pat, 0).is_some();
        let slug = pf_slug_chars(&uc);
        if in_path && contains_sub(&slug, &ts) {
            return Some(u.clone());
        }
        i = i + 1;
    }
    None
}

/// The review URLs found in search results `s[i..]`: paths under
/// `/reviews/albums/` that are longer than the bare prefix in UTF-8
/// bytes, deduplicated, in discovery order.
pub open spec fn review_urls_from(s: Seq<char>, i: int, acc: Seq<Seq<char>>) -> Seq<Seq<char>>
    decreases s.len() - i,
    when i >= 0
    via review_urls_decreases
{
    match spec_find_from(s, "href=\"/reviews/albums/"@, i) {
        None => acc,
        Some(p) => {
            match spec_find_from(s, seq!['"'], p + 6) {
                None => acc,
                Some(pe) => {
                    let path = s.subrange(p + 6, pe);
                    let url = "https://pitchfork.com"@ + path;
                    let acc2 = if path != "/reviews/albums/"@ && vstd::utf8::encode_utf8(
                        path,
                    ).len() > 16 && !acc.contains(url) {
                        acc.push(url)
                    } else {
                        acc
                    };
                    if pe >= scan_floor(s.len() as int) {
                        acc2
                    } else {
                        review_urls_from(s, pe, acc2)
                    }
                },
            }
        },
    }
}

#[via_fn]
proof fn review_urls_decreases(s: Seq<char>, i: int, acc: Seq<Seq<char>>) {
    lemma_find_from(s, "href=\"/reviews/albums/"@, i);
    match spec_find_from(s, "href=\"/reviews/albums/"@, i) {
        None => {},
        Some(p) => {
            lemma_find_from(s, seq!['"'], p + 6);
        },
    }
}

/// Extract all album review URLs from search results.
pub fn extract_review_urls(html: &str) -> (r: Vec<String>)
    ensures
        r.deep_view() == review_urls_from(html@, 0, Seq::empty()),
{
    proof {
        reveal_strlit("href=\"/reviews/albums/");
        reveal_strlit("/reviews/albums/");
    }
    let cs = chars_of(html);
    let n = cs.len();
    let pat = chars_of("href=\"/reviews/albums/");
    let bare = chars_of("/reviews/albums/");
    let mut quote: Vec<char> = Vec::new();
    quote.push('"');
    proof {
        assert(quote@ =~= seq!['"']);
    }
    let mut urls: Vec<String> = Vec::new();
    let mut i: usize = 0;
    proof {
        assert(urls.deep_view() =~= Seq::<Seq<char>>::empty());
    }
    loop
        invariant
            i <= n == cs@.len(),
            cs@ == html@,
            pat@ == "href=\"/reviews/albums/"@,
            bare@ == "/reviews/albums/"@,
            quote@ == seq!['"'],
            review_urls_from(html@, 0, Seq::empty()) == review_urls_from(
                html@,
                i as int,
                urls.deep_view(),
            ),
        decreases n - i,
    {
        let p = match find_from(&cs, &pat, i) {
            Some(p) => p,
            None => {
                return urls;
            },
        };
        proof {
            reveal_strlit("href=\"/reviews/albums/");
            reveal_strlit("/reviews/albums/");
            lemma_find_from(cs@, pat@, i as int);
            assert(p + 22 <= n);
        }
        let pe = match find_from(&cs, &quote, p + 6) {
            Some(pe) => pe,
            None => {
                return urls;
            },
        };
        proof {
            lemma_find_from(cs@, seq!['"'], p + 6 as int);
        }
        let path = subvec(&cs, p + 6, pe);
        let not_bare = !crate::matcher::eq_chars(&path, &bare);
        if not_bare && crate::chars::utf8_byte_len(&path) > 16 {
            let path_str = string_of(&path);
            let full_url = "https://pitchfork.com".to_owned().concat(path_str.as_str());
            let mut dup = false;
            let un = urls.len();
            let mut k: usize = 0;
            while k < un
                invariant
                    k <= un == urls.len(),
                    dup ==> urls.deep_view().contains(full_url@),
                    !dup ==> forall|j: int| 0 <= j < k ==> urls.deep_view()[j] != full_url@,
                decreases un - k,
            {
                let u: &String = &urls[k];
                proof {
                    assert(urls.deep_view()[k as int] == urls@[k as int]@);
                }
                if crate::matcher::eq_chars(&chars_of(u.as_str()), &chars_of(
                    full_url.as_str(),
                )) {
                    proof {
                        assert(urls.deep_view()[k as int] == full_url@);
                    }
                    dup = true;
                }
                k = k + 1;
            }
            if !dup {
                proof {
                    assert(!urls.deep_view().contains(full_url@));
                }
                let ghost old_views = urls.deep_view();
                let ghost fu = full_url@;
                urls.push(full_url);
                proof {
                    assert(urls.deep_view() =~= old_views.push(fu));
                }
            }
        }
        let floor = if n >= 50 {
            n - 50
        } else {
            0
        };
        if pe >= floor {
            return urls;
        }
        i = pe;
    }
}

pub open spec fn is_alpha(c: char) -> bool {
    ('a' <= c && c <= 'z') || ('A' <= c && c <= 'Z')
}

pub open spec fn num_char(c: char) -> bool {
    is_digit(c) || c == '.'
}

/// Decides `num_char`.
pub fn is_num_char(c: char) -> (r: bool)
    ensures
        r == num_char(c),
{
    ('0' <= c && c <= '9') || c == '.'
}

/// The first position at or after `i` holding neither a digit nor a
/// point.
pub open spec fn first_non_num(s: Seq<char>, i: int) -> int
    decreases s.len() - i,
{
    if i < 0 || i >= s.len() {
        s.len() as int
    } else if !num_char(s[i]) {
        i
    } else {
        first_non_num(s, i + 1)
    }
}

/// The rating read from the state region at or after `from`: the first
/// `"rating":` key not preceded by a letter whose following numeric run
/// parses to a value within the 0-10 range.
pub open spec fn preloaded_from(region: Seq<char>, from: int) -> Option<Rating>
    decreases region.len() - from,
    when from >= 0
    via preloaded_decreases
{
    match spec_find_from(region, "\"rating\":"@, from) {
        None => None,
        Some(p) => {
            let vs = p + 9;
            if p > 0 && is_alpha(region[p - 1]) {
                preloaded_from(region, vs)
            } else {
                let rest = region.subrange(vs, region.len() as int);
                let num = rest.take(first_non_num(rest, 0));
                match spec_parse_dec(num) {
                    Some(d) => if d.mant <= 10 * pow10(d.scale as int) {
                        Some(Rating { num: d.mant as u128, den: pow10(d.scale as int) as u128 })
                    } else {
                        preloaded_from(region, vs)
                    },
                    None => preloaded_from(region, vs),
                }
            }
        },
    }
}

#[via_fn]
proof fn preloaded_decreases(region: Seq<char>, from: int) {
    lemma_find_from(region, "\"rating\":"@, from);
    reveal_strlit("\"rating\":");
}

/// What rating extraction from the embedded state block returns.
pub open spec fn spec_preloaded_rating(s: Seq<char>) -> Option<Rating> {
    match spec_find_from(s, "__PRELOADED_STATE__"@, 0) {
        None => None,
        Some(sp) => preloaded_from(s.subrange(sp, s.len() as int), 0),
    }
}

/// Extract the numeric rating from the page's embedded state block.
pub fn extract_rating_from_preloaded(html: &str) -> (r: Option<Rating>)
    ensures
        r == spec_preloaded_rating(html@),
        r matches Some(rt) ==> rating_wf(rt),
{
    proof {
        reveal_strlit("__PRELOADED_STATE__");
        reveal_strlit("\"rating\":");
    }
    let cs = chars_of(html);
    let marker = chars_of("__PRELOADED_STATE__");
    let sp = match find_from(&cs, &marker, 0) {
        None => {
            return None;
        },
        Some(sp) => sp,
    };
    let n = cs.len();
    proof {
        lemma_find_from(cs@, "__PRELOADED_STATE__"@, 0);
    }
    let region = subvec(&cs, sp, n);
    let rn = region.len();
    let pat = chars_of("\"rating\":");
    let mut from: usize = 0;
    loop
        invariant
            from <= rn == region@.len(),
            region@ == html@.subrange(sp as int, html@.len() as int),
            pat@ == "\"rating\":"@,
            spec_preloaded_rating(html@) == preloaded_from(region@, from as int),
        decreases rn - from,
    {
        let p = match find_from(&region, &pat, from) {
            None => {
                return None;
            },
            Some(p) => p,
        };
        proof {
            reveal_strlit("\"rating\":");
            lemma_find_from(region@, "\"rating\":"@, from as int);
            assert(p + 9 <= rn);
        }
        let vs = p + 9;
        if p > 0 && {
            let b = region[p - 1];
            ('a' <= b && b <= 'z') || ('A' <= b && b <= 'Z')
        } {
            from = vs;
            continue;
        }
        let rest = subvec(&region, vs, rn);
        let mut end: usize = 0;
        let restn = rest.len();
        while end < restn && is_num_char(rest[end])
            invariant
                end <= restn == rest@.len(),
                first_non_num(rest@, 0) == first_non_num(rest@, end as int),
            decreases restn - end,
        {
            end = end + 1;
        }
        proof {
            assert(first_non_num(rest@, 0) == end as int);
        }
        let num = subvec(&rest, 0, end);
        proof {
            assert(num@ =~= rest@.take(first_non_num(rest@, 0)));
        }
        match parse_dec(&num) {
            Some(d) => {
                proof {
                    crate::num::lemma_pow10_bound(d.scale as int);
                }
                let den = crate::num::pow10_u128(d.scale);
                if d.mant as u128 <= 10 * den {
                    return Some(Rating { num: d.mant as u128, den });
                }
                from = vs;
            },
            None => {
                from = vs;
            },
        }
    }
}

/// What the review block's fields yield: excerpt, byline and date, or
/// nothing when the block does not fit the expected shape. The author
/// may be one object or an array of objects; the first array entry's
/// name counts.
pub open spec fn spec_pf_fields(v: JsonVal) -> Option<
    (Option<String>, Option<String>, Option<String>),
> {
    if !(v is Obj) {
        None
    } else {
        let body = spec_opt_str_field(v, "reviewBody"@);
        let date = spec_opt_str_field(v, "datePublished"@);
        match (body, date) {
            (Some(excerpt), Some(dt)) => {
                let reviewer = match spec_obj_get(v, "author"@) {
                    None => None,
                    Some(a) => spec_author_name(a),
                };
                Some((excerpt, reviewer, dt))
            },
            _ => None,
        }
    }
}

/// An optional string field: absent or null yields nothing, a string
/// yields its text, any other shape rejects the block.
pub open spec fn spec_opt_str_field(v: JsonVal, key: Seq<char>) -> Option<Option<String>> {
    match spec_obj_get(v, key) {
        None => Some(None),
        Some(x) => match x {
            JsonVal::Null => Some(None),
            JsonVal::Str(s) => Some(Some(s)),
            _ => None,
        },
    }
}

/// The author's name: from the object itself, or from the first entry
/// of an author array.
pub open spec fn spec_author_name(a: JsonVal) -> Option<String> {
    match a {
        JsonVal::Arr(items) => if items@.len() > 0 {
            spec_name_of(items@[0])
        } else {
            None
        },
        JsonVal::Obj(_) => spec_name_of(a),
        _ => None,
    }
}

/// The string under `name`, if the value is an object holding one.
pub open spec fn spec_name_of(e: JsonVal) -> Option<String> {
    match spec_obj_get(e, "name"@) {
        Some(nv) => spec_as_str(nv),
        None => None,
    }
}

/// Read an optional string field.
pub fn opt_str_field(v: &JsonVal, key: &str) -> (r: Option<Option<String>>)
    ensures
        r == spec_opt_str_field(*v, key@),
{
    match obj_get(v, key) {
        None => Some(None),
        Some(x) => match x {
            JsonVal::Null => Some(None),
            JsonVal::Str(s) => Some(Some(s.clone())),
            _ => None,
        },
    }
}

/// Read the author's name.
pub fn author_name(a: &JsonVal) -> (r: Option<String>)
    ensures
        r == spec_author_name(*a),
{
    match a {
        JsonVal::Arr(items) => {
            if items.len() > 0 {
                let first: &JsonVal = &items[0];
                match obj_get(first, "name") {
                    Some(nv) => as_str_val(nv),
                    None => None,
                }
            } else {
                None
            }
        },
        JsonVal::Obj(_) => {
            match obj_get(a, "name") {
                Some(nv) => as_str_val(nv),
                None => None,
            }
        },
        _ => None,
    }
}

/// The excerpt, byline and date a review page's structured block
/// yields; a missing or malformed block yields none of them.
pub open spec fn spec_pf_triple(h: Seq<char>) -> (Option<String>, Option<String>, Option<
    String,
>) {
    match spec_extract_json_ld(h) {
        None => (None, None, None),
        Some(t) => match json_of(t) {
            None => (None, None, None),
            Some(v) => match spec_pf_fields(v) {
                None => (None, None, None),
                Some(tr) => tr,
            },
        },
    }
}

/// Parse a review page: the rating from the embedded state block, the
/// text, author and date from the structured block. A page yielding
/// neither rating nor excerpt yields no record.
pub fn parse_review_page(url: &str, html: &str) -> (r: Option<SiteReview>)
    ensures
        ({
            let rating = spec_preloaded_rating(html@);
            let tr = spec_pf_triple(html@);
            if rating is None && tr.0 is None {
                r is None
            } else {
                r matches Some(rev) && rev.source_url@ == url@ && rev.excerpt == tr.0
                    && rev.rating == rating && rev.rating_count is None && rev.reviewer == tr.1
                    && rev.review_date == tr.2
            }
        }),
        r matches Some(rev) ==> review_wf(rev),
{
    let rating = extract_rating_from_preloaded(html);

    let triple: (Option<String>, Option<String>, Option<String>) = match extract_json_ld(html) {
        None => (None, None, None),
        Some(ld) => match parse_json(ld.as_str()) {
            None => (None, None, None),
            Some(v) => {
                if !is_obj(&v) {
                    (None, None, None)
                } else {
                    let body = opt_str_field(&v, "reviewBody");
                    let date = opt_str_field(&v, "datePublished");
                    match (body, date) {
                        (Some(excerpt), Some(dt)) => {
                            let reviewer = match obj_get(&v, "author") {
                                None => None,
                                Some(a) => author_name(a),
                            };
                            (excerpt, reviewer, dt)
                        },
                        _ => (None, None, None),
                    }
                }
            },
        },
    };

    let (excerpt, reviewer, review_date) = triple;
    if rating.is_none() && excerpt.is_none() {
        return None;
    }
    Some(
        SiteReview {
            source_url: url.to_owned(),
            excerpt,
            rating,
            rating_count: None,
            reviewer,
            review_date,
        },
    )
}

/// The search URL for a query.
pub fn pf_search_url(query: &str) -> (r: String)
    ensures
        r@ == "https://pitchfork.com/search/?q="@ + crate::text::encode_from(
            vstd::utf8::encode_utf8(query@),
            0,
        ),
{
    let encoded = crate::text::url_encode(query);
    "https://pitchfork.com/search/?q=".to_owned().concat(encoded.as_str())
}

} // verus!
