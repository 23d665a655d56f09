use editorial::text::{slugify, clean_title, url_encode};
use editorial::excerpt::truncate_excerpt;
use editorial::chars::{chars_of, string_of};
use editorial::html::{strip_html_tags, decode_entities_chars, extract_script_content};
use editorial::review::health_check;

#[test]
fn slugify_drops_punctuation_and_case() {
    assert_eq!(slugify("good kid, m.A.A.d city"), "good-kid-maad-city");
}

#[test]
fn slugify_collapses_and_trims_hyphens() {
    assert_eq!(slugify("--Hello -- World:Tour--"), "hello-world-tour");
    assert_eq!(slugify("çà et là"), "et-l");
    assert_eq!(slugify(""), "");
    assert_eq!(slugify("!!!"), "");
}

#[test]
fn clean_title_strips_trailing_parenthetical() {
    assert_eq!(clean_title("Album (Deluxe Edition)"), "Album");
}

#[test]
fn clean_title_keeps_leading_parenthetical() {
    assert_eq!(clean_title("(Untitled)"), "(Untitled)");
}

#[test]
fn clean_title_without_parenthesis_is_unchanged() {
    assert_eq!(clean_title("Plain Title"), "Plain Title");
}

#[test]
fn url_encode_is_form_style() {
    assert_eq!(url_encode("a b&c"), "a+b%26c");
    assert_eq!(url_encode("AZaz09._~"), "AZaz09._~");
    // Only letters, digits and `_ . ~` pass unencoded; a hyphen does
    // not.
    assert_eq!(url_encode("-"), "%2D");
    assert_eq!(url_encode("é"), "%C3%A9");
}

#[test]
fn truncation_cuts_after_last_sentence_boundary() {
    let mut s = String::new();
    for _ in 0..1850 {
        s.push('a');
    }
    s.push_str(". ");
    for _ in 0..248 {
        s.push('b');
    }
    assert_eq!(s.chars().count(), 2100);
    let t = truncate_excerpt(&s);
    assert_eq!(t.chars().count(), 1851);
    assert!(t.ends_with('.'));
}

#[test]
fn truncation_hard_cuts_with_ellipsis() {
    let mut s = String::new();
    for _ in 0..2100 {
        s.push('x');
    }
    let t = truncate_excerpt(&s);
    assert_eq!(t.chars().count(), 2003);
    assert!(t.ends_with("..."));
}

#[test]
fn truncation_keeps_short_text_whole() {
    assert_eq!(truncate_excerpt("short text."), "short text.");
}

#[test]
fn strip_tags_keeps_text_only() {
    assert_eq!(strip_html_tags("<p>hi <b>there</b></p>"), "hi there");
}

#[test]
fn entities_decode_in_one_pass() {
    let cs = chars_of("a &amp; b &lt;c&gt; &quot;d&quot; &#39;e&#039; &ndash; &mdash; &unknown;");
    let out = string_of(&decode_entities_chars(&cs));
    assert_eq!(out, "a & b <c> \"d\" 'e' \u{2013} \u{2014} &unknown;");
    let nested = chars_of("&amp;lt;");
    assert_eq!(string_of(&decode_entities_chars(&nested)), "&lt;");
}

#[test]
fn script_content_is_found_by_marker() {
    let html = "<script>var a;</script><script>target here</script><p>tail padding to keep scanning alive for a while</p>";
    let got = extract_script_content(html, "target");
    assert_eq!(got.as_deref(), Some("target here"));
    assert_eq!(extract_script_content(html, "absent"), None);
}

#[test]
fn chars_round_trip() {
    let cs = chars_of("déjà vu");
    assert_eq!(string_of(&cs), "déjà vu");
}

#[test]
fn health_answer_is_ok() {
    assert_eq!(health_check(), "ok");
}
