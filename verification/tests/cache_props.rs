use editorial::bestfit::{UrlCache, empty_cache, batch_range, apply_batch, match_url,
    extract_album_slugs, extract_article_body, parse_json_ld, clean_review_body, slug_key,
    prefer_article_text, MAX_PAGES};
use editorial::codec::{encode_cache, decode_cache};
use editorial::num::Rating;

fn rating_is(r: &Rating, tenths: u128) -> bool {
    r.num * 10 == tenths * r.den
}

#[test]
fn album_slugs_cover_both_link_forms() {
    let html = {
        let mut s = String::new();
        s.push_str(r#"<a href="/albums/first-record">x</a>"#);
        s.push_str(r#"<a href="https://www.thelineofbestfit.com/albums/second-record">y</a>"#);
        s.push_str(r#"<a href="/albums/first-record">dup</a>"#);
        s.push_str(r#"<a href="/albums/skip?page=2">query</a>"#);
        s.push_str(r#"<a href="/albums/">empty</a>"#);
        s
    };
    let slugs = extract_album_slugs(&html);
    assert_eq!(slugs, vec!["first-record".to_string(), "second-record".to_string()]);
}

#[test]
fn complete_cache_plans_no_fetches_and_matches_stably() {
    let cache = UrlCache {
        next_page: MAX_PAGES,
        slugs: vec!["the-artist-album-name".to_string()],
    };
    assert_eq!(batch_range(&cache), None);
    let key = slug_key("the-artist", "album-name");
    let first = match_url(&cache, &key);
    let second = match_url(&cache, &key);
    assert_eq!(first, second);
    assert_eq!(
        first.as_deref(),
        Some("https://www.thelineofbestfit.com/albums/the-artist-album-name")
    );
}

#[test]
fn key_matches_exactly_or_at_a_hyphen_boundary() {
    let cache = UrlCache {
        next_page: MAX_PAGES,
        slugs: vec![
            "the-artist-album-namesake".to_string(),
            "the-artist-album-name-2020".to_string(),
        ],
    };
    // "namesake" continues the key without a hyphen boundary: no match
    // there; the suffixed slug matches.
    let got = match_url(&cache, "the-artist-album-name");
    assert_eq!(
        got.as_deref(),
        Some("https://www.thelineofbestfit.com/albums/the-artist-album-name-2020")
    );
    assert_eq!(match_url(&cache, "absent-key"), None);
}

#[test]
fn extension_advances_the_cursor_and_keeps_slugs_unique() {
    let mut cache = empty_cache();
    let page = r#"<a href="/albums/one">x</a><a href="/albums/two">y</a>"#.to_string();
    let pages: Vec<Option<String>> = vec![Some(page.clone()), None, Some(page)];
    apply_batch(&mut cache, &pages);
    assert_eq!(cache.next_page, 3);
    assert_eq!(cache.slugs, vec!["one".to_string(), "two".to_string()]);
    // A second extension with the same content adds nothing new and
    // only advances the cursor.
    let again: Vec<Option<String>> =
        vec![Some(r#"<a href="/albums/two">y</a><a href="/albums/three">z</a>"#.to_string())];
    apply_batch(&mut cache, &again);
    assert_eq!(cache.next_page, 4);
    assert_eq!(
        cache.slugs,
        vec!["one".to_string(), "two".to_string(), "three".to_string()]
    );
}

#[test]
fn cache_round_trips_through_its_stored_form() {
    let cache = UrlCache {
        next_page: 17,
        slugs: vec![
            "plain-slug".to_string(),
            "slug:with:colons".to_string(),
            "slug\nwith\nbreaks".to_string(),
        ],
    };
    let text = encode_cache(&cache);
    let back = decode_cache(&text).unwrap();
    assert_eq!(back.next_page, 17);
    assert_eq!(back.slugs, cache.slugs);
    // Corrupt texts are rejected.
    assert!(decode_cache("no digits").is_none());
    assert!(decode_cache("5").is_none());
    assert!(decode_cache("5\n3:ab").is_none());
    assert!(decode_cache("9999\n").is_none());
}

#[test]
fn article_body_walks_nested_containers() {
    let html = {
        let mut s = String::new();
        s.push_str(r#"<div class="c--article-copy__sections"><p>First.  Sentence.</p>"#);
        s.push_str(r#"<div><p>Inner &amp; more.</p></div><p>Second.</p></div><div>after</div>"#);
        s
    };
    let got = extract_article_body(&html).unwrap();
    assert_eq!(got, "First. Sentence.\n\nInner & more.\n\nSecond.");
    assert_eq!(extract_article_body("<div>no marker</div>"), None);
}

#[test]
fn review_body_cleanup_unwraps_and_decodes() {
    let got = clean_review_body("<![CDATA[<p>A &ndash; B,&nbsp;  ok.</p>]]>");
    assert_eq!(got, "A \u{2013} B,&nbsp; ok.");
    assert_eq!(clean_review_body("  plain   text "), "plain text");
}

#[test]
fn structured_album_block_yields_the_review() {
    let html = {
        let mut s = String::new();
        s.push_str(r#"<script type="application/ld+json">"#);
        s.push_str(r#"{"@type":"MusicAlbum","datePublished":"2019-05-05","review":{"#);
        s.push_str(r#""reviewRating":{"ratingValue":8,"bestRating":10},"#);
        s.push_str(r#""author":{"name":"Jane Doe"},"reviewBody":"Very  good."}}"#);
        s.push_str(r#"</script> trailing text to keep the scan window open"#);
        s
    };
    let rev = parse_json_ld(&html, "https://example.test/b").unwrap();
    assert!(rating_is(&rev.rating.unwrap(), 80));
    assert_eq!(rev.excerpt.as_deref(), Some("Very good."));
    assert_eq!(rev.reviewer.as_deref(), Some("Jane Doe"));
    assert_eq!(rev.review_date.as_deref(), Some("2019-05-05"));
    assert!(parse_json_ld("nothing here", "u").is_none());
}

#[test]
fn negative_best_rating_makes_the_rating_absent() {
    let html = {
        let mut s = String::new();
        s.push_str(r#"<script type="application/ld+json">"#);
        s.push_str(r#"{"@type":"MusicAlbum","review":{"reviewRating":"#);
        s.push_str(r#"{"ratingValue":5,"bestRating":-3},"reviewBody":"Still words."}}"#);
        s.push_str(r#"</script> trailing text to keep the scan window open"#);
        s
    };
    let rev = parse_json_ld(&html, "u").unwrap();
    assert_eq!(rev.rating, None);
    assert_eq!(rev.excerpt.as_deref(), Some("Still words."));
}

#[test]
fn article_text_replaces_the_block_excerpt() {
    let html = {
        let mut s = String::new();
        s.push_str(r#"<script type="application/ld+json">"#);
        s.push_str(r#"{"@type":"MusicAlbum","review":{"reviewRating":"#);
        s.push_str(r#"{"ratingValue":"9"},"reviewBody":"Short body."}}"#);
        s.push_str(r#"</script> trailing text to keep the scan window open"#);
        s
    };
    let mut rev = parse_json_ld(&html, "u").unwrap();
    assert_eq!(rev.excerpt.as_deref(), Some("Short body."));
    prefer_article_text(&mut rev, Some("Full article text.".to_string()));
    assert_eq!(rev.excerpt.as_deref(), Some("Full article text."));
    prefer_article_text(&mut rev, None);
    assert_eq!(rev.excerpt.as_deref(), Some("Full article text."));
}
