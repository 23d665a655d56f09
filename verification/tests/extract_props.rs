use editorial::northern::assemble_review;
use editorial::pitchfork::{extract_review_urls, pick_review_url, extract_rating_from_preloaded,
    parse_review_page, pf_search_url};
use editorial::northern::{posts_from_json, pick_post, parse_rating, parse_reviewer,
    excerpt_from_content, nt_search_url};
use editorial::allmusic::parse_album_page;
use editorial::ld::{extract_json_ld, extract_album_json_ld};
use editorial::num::Rating;

fn rating_is(r: &Rating, tenths: u128) -> bool {
    r.num * 10 == tenths * r.den
}

#[test]
fn review_urls_are_collected_and_deduplicated() {
    let html = r#"<a href="/reviews/albums/1234-album-one/">a</a>
        <a href="/reviews/albums/1234-album-one/">dup</a>
        <a href="/reviews/albums/">bare</a>
        <a href="/reviews/albums/other-album/">b</a> trailing text to keep the scan window open"#;
    let urls = extract_review_urls(html);
    assert_eq!(
        urls,
        vec![
            "https://pitchfork.com/reviews/albums/1234-album-one/".to_string(),
            "https://pitchfork.com/reviews/albums/other-album/".to_string(),
        ]
    );
}

#[test]
fn review_url_is_picked_by_slug_after_prefix_strip() {
    let urls = vec![
        "https://pitchfork.com/reviews/albums/9999-some-other/".to_string(),
        "https://pitchfork.com/reviews/albums/17253-album-name/".to_string(),
    ];
    let got = pick_review_url(&urls, "album-name");
    assert_eq!(got.as_deref(), Some("https://pitchfork.com/reviews/albums/17253-album-name/"));
    assert_eq!(pick_review_url(&urls, "missing-album"), None);
    // With the path marker twice, only the segment between the two
    // markers counts as the slug.
    let twice = vec![
        "https://pitchfork.com/reviews/albums/1234-name/reviews/albums/extra/".to_string(),
    ];
    assert_eq!(pick_review_url(&twice, "extra"), None);
    assert!(pick_review_url(&twice, "name").is_some());
}

#[test]
fn preloaded_rating_skips_named_variants() {
    // The first key sits right after a letter, as in a longer name, and
    // is passed over even though its value would be acceptable.
    let html = r#"junk __PRELOADED_STATE__ {x:a"rating":9.9, "rating":8.4,"more":1}"#;
    let r = extract_rating_from_preloaded(html).unwrap();
    assert!(rating_is(&r, 84));
    // Out-of-scale values are passed over.
    let html2 = r#"__PRELOADED_STATE__ {"rating":11,"x":{"rating":7.0}}"#;
    let r2 = extract_rating_from_preloaded(html2).unwrap();
    assert!(rating_is(&r2, 70));
    assert_eq!(extract_rating_from_preloaded("no state here"), None);
}

#[test]
fn review_page_combines_state_and_structured_block() {
    let html = {
        let mut s = String::new();
        s.push_str(r#"__PRELOADED_STATE__ {"rating":8.4}"#);
        s.push_str(r#"<script type="application/ld+json">"#);
        s.push_str(r#"{"reviewBody":"A fine record.","author":[{"name":"Jane Doe"}],"#);
        s.push_str(r#""datePublished":"2020-01-01","@type":"Review"}"#);
        s.push_str(r#"</script> trailing text to keep the scan window open"#);
        s
    };
    let rev = parse_review_page("https://example.test/r", &html).unwrap();
    assert_eq!(rev.source_url, "https://example.test/r");
    assert_eq!(rev.excerpt.as_deref(), Some("A fine record."));
    assert!(rating_is(&rev.rating.unwrap(), 84));
    assert_eq!(rev.reviewer.as_deref(), Some("Jane Doe"));
    assert_eq!(rev.review_date.as_deref(), Some("2020-01-01"));
    // Neither rating nor text: no record.
    assert!(parse_review_page("u", "nothing useful").is_none());
}

#[test]
fn json_ld_array_blocks_yield_the_marked_element() {
    let html = {
        let mut s = String::new();
        s.push_str(r#"<script type="application/ld+json">"#);
        s.push_str(r#"[{"@type":"Review","x":1},{"y":2}]"#);
        s.push_str(r#"</script> trailing text to keep the scan window open"#);
        s
    };
    let got = extract_json_ld(&html);
    assert_eq!(got.as_deref(), Some(r#"{"@type":"Review","x":1}"#));
    assert_eq!(extract_album_json_ld(&html), None);
}

#[test]
fn album_page_is_verified_against_the_artist() {
    let html = {
        let mut s = String::new();
        s.push_str(r#"<script type="application/ld+json">"#);
        s.push_str(r#"{"@type":"MusicAlbum","aggregateRating":{"ratingValue":"7.5","bestRating":"10","#);
        s.push_str(r#""ratingCount":42},"byArtist":[{"name":"Boards of Canada"}]}"#);
        s.push_str(r#"</script> trailing text to keep the scan window open"#);
        s
    };
    let rev = parse_album_page("https://example.test/a", &html, "Boards of Canada").unwrap();
    assert!(rating_is(&rev.rating.unwrap(), 75));
    assert_eq!(rev.rating_count, Some(42));
    assert_eq!(rev.excerpt, None);
    // The same block fails closed for the wrong artist.
    assert!(parse_album_page("https://example.test/a", &html, "Someone Else").is_none());
}

#[test]
fn album_page_rejects_bad_ratings() {
    let zero_best = {
        let mut s = String::new();
        s.push_str(r#"<script type="application/ld+json">"#);
        s.push_str(r#"{"@type":"MusicAlbum","aggregateRating":{"ratingValue":"8","bestRating":"0"},"#);
        s.push_str(r#""byArtist":[{"name":"A"}]}"#);
        s.push_str(r#"</script> trailing text to keep the scan window open"#);
        s
    };
    assert!(parse_album_page("u", &zero_best, "A").is_none());
    let out_of_scale = {
        let mut s = String::new();
        s.push_str(r#"<script type="application/ld+json">"#);
        s.push_str(r#"{"@type":"MusicAlbum","aggregateRating":{"ratingValue":"10.5"},"#);
        s.push_str(r#""byArtist":[{"name":"A"}]}"#);
        s.push_str(r#"</script> trailing text to keep the scan window open"#);
        s
    };
    assert!(parse_album_page("u", &out_of_scale, "A").is_none());
    // A best rating that parses negative is at most zero: rejected, not
    // defaulted.
    let neg_best = {
        let mut s = String::new();
        s.push_str(r#"<script type="application/ld+json">"#);
        s.push_str(r#"{"@type":"MusicAlbum","aggregateRating":{"ratingValue":"8","bestRating":"-3"},"#);
        s.push_str(r#""byArtist":[{"name":"A"}]}"#);
        s.push_str(r#"</script> trailing text to keep the scan window open"#);
        s
    };
    assert!(parse_album_page("u", &neg_best, "A").is_none());
}

#[test]
fn posts_parse_and_match_with_relaxed_ratio() {
    let body = {
        let mut s = String::new();
        s.push_str(r#"[{"slug":"other-band-record","link":"https://nt.test/1","date":"2021-02-03","#);
        s.push_str(r#""content":{"rendered":"<p>Text one.</p>"}},"#);
        s.push_str(r#"{"slug":"the-artist-album-name-review","link":"https://nt.test/2","date":null,"#);
        s.push_str(r#""content":null}]"#);
        s
    };
    let posts = posts_from_json(&body).unwrap();
    assert_eq!(posts.len(), 2);
    assert_eq!(posts[0].slug, "other-band-record");
    assert_eq!(posts[0].date.as_deref(), Some("2021-02-03"));
    assert_eq!(posts[0].content_rendered.as_deref(), Some("<p>Text one.</p>"));
    assert_eq!(posts[1].content_rendered, None);

    // "album-name" is 10 of 29 characters: past the relaxed guard.
    let hit = pick_post(&posts, "album-name", "the-artist");
    assert_eq!(hit, Some(1));
    // A match that falls under 30 percent of the slug is rejected.
    assert_eq!(pick_post(&posts, "band", ""), None);
    // Malformed listings are rejected whole.
    assert!(posts_from_json(r#"[{"link":"x"}]"#).is_none());
    assert!(posts_from_json("not json").is_none());
}

#[test]
fn tag_ratings_parse_short_bare_numbers() {
    assert!(rating_is(&parse_rating("<h2>7.5/10</h2>").unwrap(), 75));
    assert!(rating_is(
        &parse_rating("<h2>Heading text</h2><span>8</span> trailing text to keep the scan window open").unwrap(),
        80,
    ));
    // Prose starting with a digit is far past the five-character cap.
    assert_eq!(parse_rating("<h2>8 things about this record</h2>"), None);
    assert_eq!(parse_rating("<h2>11</h2>"), None);
}

#[test]
fn reviewer_credit_is_read_to_the_next_tag() {
    assert_eq!(parse_reviewer("Words by Jane Doe<br>").as_deref(), Some("Jane Doe"));
    assert_eq!(parse_reviewer("Words by  \nrest"), None);
    assert_eq!(parse_reviewer("no credit"), None);
}

#[test]
fn content_excerpt_strips_and_caps() {
    let got = excerpt_from_content("<p>A nice piece.</p>").unwrap();
    assert_eq!(got, "A nice piece.");
    assert_eq!(excerpt_from_content("<p>   </p>"), None);
}

#[test]
fn search_urls_carry_the_encoded_query() {
    assert_eq!(pf_search_url("a b"), "https://pitchfork.com/search/?q=a+b");
    assert_eq!(
        nt_search_url("a b"),
        "https://northerntransmissions.com/wp-json/wp/v2/posts?categories=15&search=a+b&per_page=5"
    );
}

#[test]
fn unreachable_page_still_yields_a_partial_record() {
    let rev = assemble_review(
        "https://nt.test/2".to_string(),
        Some("From the listing.".to_string()),
        Some("2021-02-03".to_string()),
        None,
    )
    .unwrap();
    assert_eq!(rev.excerpt.as_deref(), Some("From the listing."));
    assert_eq!(rev.rating, None);
    assert_eq!(rev.review_date.as_deref(), Some("2021-02-03"));
    // No listing text and no page: a record would carry neither rating
    // nor excerpt, so none is made.
    assert!(assemble_review("u".to_string(), None, Some("2021".to_string()), None).is_none());
    // With a fetched page that yields nothing, and no listing text,
    // there is no record at all.
    assert!(assemble_review("u".to_string(), None, None, Some("plain page".to_string()))
        .is_none());
    // A fetched page contributes rating and byline.
    let rev2 = assemble_review(
        "u".to_string(),
        None,
        None,
        Some("<h2>7.5/10</h2>Words by Jane<br>".to_string()),
    )
    .unwrap();
    assert!(rating_is(&rev2.rating.unwrap(), 75));
    assert_eq!(rev2.reviewer.as_deref(), Some("Jane"));
}
