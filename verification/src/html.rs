//! Tag stripping, entity decoding, and script-block location.
use vstd::prelude::*;

use crate::chars::{chars_of, string_of};
use crate::scan::{contains_seq, match_at, spec_find_from, lemma_find_from, contains_sub,
    find_from, starts_with_at, subvec};

verus! {

/// The text of `s[i..]` outside `<...>` spans; `in_tag` says whether
/// `s[i]` stands inside such a span.
pub open spec fn strip_from(s: Seq<char>, i: int, in_tag: bool) -> Seq<char>
    decreases s.len() - i,
{
    if i < 0 || i >= s.len() {
        Seq::empty()
    } else if s[i] == '<' {
        strip_from(s, i + 1, true)
    } else if s[i] == '>' {
        strip_from(s, i + 1, false)
    } else if !in_tag {
        seq![s[i]] + strip_from(s, i + 1, in_tag)
    } else {
        strip_from(s, i + 1, in_tag)
    }
}

/// What `strip_html_tags` returns.
pub open spec fn spec_strip_tags(s: Seq<char>) -> Seq<char> {
    strip_from(s, 0, false)
}

/// Keep only text outside `<...>` spans. A `>` inside a quoted attribute
/// value ends the span early; the markup this crate scans does not use
/// that form.
pub fn strip_tags_chars(text: &Vec<char>) -> (r: Vec<char>)
    ensures
        r@ == spec_strip_tags(text@),
{
    let n = text.len();
    let mut out: Vec<char> = Vec::new();
    let mut in_tag = false;
    let mut i: usize = 0;
    while i < n
        invariant
            i <= n == text.len(),
            strip_from(text@, 0, false) == out@ + strip_from(text@, i as int, in_tag),
        decreases n - i,
    {
        let c = text[i];
        if c == '<' {
            in_tag = true;
        } else if c == '>' {
            in_tag = false;
        } else if !in_tag {
            out.push(c);
        }
        i = i + 1;
    }
    out
}

/// Keep only text outside `<...>` spans.
pub fn strip_html_tags(html: &str) -> (r: String)
    ensures
        r@ == spec_strip_tags(html@),
{
    let cs = chars_of(html);
    let out = strip_tags_chars(&cs);
    string_of(&out)
}

/// The named entity starting at `s[i]`, if any: its length in `s` and
/// the character it decodes to.
pub open spec fn entity_at(s: Seq<char>, i: int) -> Option<(int, char)> {
    if match_at(s, "&amp;"@, i) {
        Some((5int, '&'))
    } else if match_at(s, "&lt;"@, i) {
        Some((4int, '<'))
    } else if match_at(s, "&gt;"@, i) {
        Some((4int, '>'))
    } else if match_at(s, "&quot;"@, i) {
        Some((6int, '"'))
    } else if match_at(s, "&#39;"@, i) {
        Some((5int, '\''))
    } else if match_at(s, "&#039;"@, i) {
        Some((6int, '\''))
    } else if match_at(s, "&apos;"@, i) {
        Some((6int, '\''))
    } else if match_at(s, "&#x27;"@, i) {
        Some((6int, '\''))
    } else if match_at(s, "&ndash;"@, i) {
        Some((7int, '\u{2013}'))
    } else if match_at(s, "&mdash;"@, i) {
        Some((7int, '\u{2014}'))
    } else {
        None
    }
}

/// `s[i..]` with each named entity of the fixed table replaced by its
/// character; unknown entities stay as literal text.
pub open spec fn decode_from(s: Seq<char>, i: int) -> Seq<char>
    decreases s.len() - i,
    via decode_from_decreases
{
    if i < 0 || i >= s.len() {
        Seq::empty()
    } else {
        match entity_at(s, i) {
            Some((l, c)) => seq![c] + decode_from(s, i + l),
            None => seq![s[i]] + decode_from(s, i + 1),
        }
    }
}

#[via_fn]
proof fn decode_from_decreases(s: Seq<char>, i: int) {
    reveal_strlit("&amp;");
    reveal_strlit("&lt;");
    reveal_strlit("&gt;");
    reveal_strlit("&quot;");
    reveal_strlit("&#39;");
    reveal_strlit("&#039;");
    reveal_strlit("&apos;");
    reveal_strlit("&#x27;");
    reveal_strlit("&ndash;");
    reveal_strlit("&mdash;");
}

/// What `decode_entities` returns.
pub open spec fn spec_decode_entities(s: Seq<char>) -> Seq<char> {
    decode_from(s, 0)
}

/// Decode the fixed table of named HTML entities in a single left-to-right
/// pass; unknown entities are left as literal text.
pub fn decode_entities_chars(text: &Vec<char>) -> (r: Vec<char>)
    ensures
        r@ == spec_decode_entities(text@),
{
    proof {
        reveal_strlit("&amp;");
        reveal_strlit("&lt;");
        reveal_strlit("&gt;");
        reveal_strlit("&quot;");
        reveal_strlit("&#39;");
        reveal_strlit("&#039;");
        reveal_strlit("&apos;");
        reveal_strlit("&#x27;");
        reveal_strlit("&ndash;");
        reveal_strlit("&mdash;");
    }
    let n = text.len();
    let p_amp = chars_of("&amp;");
    let p_lt = chars_of("&lt;");
    let p_gt = chars_of("&gt;");
    let p_quot = chars_of("&quot;");
    let p_n39 = chars_of("&#39;");
    let p_n039 = chars_of("&#039;");
    let p_apos = chars_of("&apos;");
    let p_x27 = chars_of("&#x27;");
    let p_nd = chars_of("&ndash;");
    let p_md = chars_of("&mdash;");

    let mut out: Vec<char> = Vec::new();
    let mut i: usize = 0;
    while i < n
        invariant
            i <= n == text.len(),
            p_amp@ == "&amp;"@,
            p_lt@ == "&lt;"@,
            p_gt@ == "&gt;"@,
            p_quot@ == "&quot;"@,
            p_n39@ == "&#39;"@,
            p_n039@ == "&#039;"@,
            p_apos@ == "&apos;"@,
            p_x27@ == "&#x27;"@,
            p_nd@ == "&ndash;"@,
            p_md@ == "&mdash;"@,
            p_amp@.len() == 5 && p_lt@.len() == 4 && p_gt@.len() == 4 && p_quot@.len() == 6,
            p_n39@.len() == 5 && p_n039@.len() == 6 && p_apos@.len() == 6 && p_x27@.len() == 6,
            p_nd@.len() == 7 && p_md@.len() == 7,
            decode_from(text@, 0) == out@ + decode_from(text@, i as int),
        decreases n - i,
    {
        if starts_with_at(text, &p_amp, i) {
            out.push('&');
            i = i + 5;
        } else if starts_with_at(text, &p_lt, i) {
            out.push('<');
            i = i + 4;
        } else if starts_with_at(text, &p_gt, i) {
            out.push('>');
            i = i + 4;
        } else if starts_with_at(text, &p_quot, i) {
            out.push('"');
            i = i + 6;
        } else if starts_with_at(text, &p_n39, i) {
            out.push('\'');
            i = i + 5;
        } else if starts_with_at(text, &p_n039, i) {
            out.push('\'');
            i = i + 6;
        } else if starts_with_at(text, &p_apos, i) {
            out.push('\'');
            i = i + 6;
        } else if starts_with_at(text, &p_x27, i) {
            out.push('\'');
            i = i + 6;
        } else if starts_with_at(text, &p_nd, i) {
            out.push('\u{2013}');
            i = i + 7;
        } else if starts_with_at(text, &p_md, i) {
            out.push('\u{2014}');
            i = i + 7;
        } else {
            out.push(text[i]);
            i = i + 1;
        }
    }
    out
}

/// The bounds of the next script-style block: find `opening` at or after
/// `from`, the `>` that closes its tag, and the `</script>` that ends it;
/// the content lies between the two.
pub open spec fn spec_next_block(s: Seq<char>, opening: Seq<char>, from: int) -> Option<
    (int, int),
> {
    match spec_find_from(s, opening, from) {
        None => None,
        Some(tag_pos) => match spec_find_from(s, seq!['>'], tag_pos) {
            None => None,
            Some(gt) => match spec_find_from(s, "</script>"@, gt + 1) {
                None => None,
                Some(ce) => Some((gt + 1, ce)),
            },
        },
    }
}

/// A found block lies after `from` and within `s`.
pub proof fn lemma_next_block(s: Seq<char>, opening: Seq<char>, from: int)
    requires
        from >= 0,
    ensures
        match spec_next_block(s, opening, from) {
            Some(b) => from < b.0 <= b.1 <= s.len(),
            None => true,
        },
{
    lemma_find_from(s, opening, from);
    match spec_find_from(s, opening, from) {
        None => {},
        Some(tag_pos) => {
            lemma_find_from(s, seq!['>'], tag_pos);
            match spec_find_from(s, seq!['>'], tag_pos) {
                None => {},
                Some(gt) => {
                    lemma_find_from(s, "</script>"@, gt + 1);
                },
            }
        },
    }
}

/// Locate the next script-style block.
pub fn next_block(html: &Vec<char>, opening: &Vec<char>, from: usize) -> (r: Option<
    (usize, usize),
>)
    ensures
        match r {
            Some(b) => spec_next_block(html@, opening@, from as int) == Some(
                (b.0 as int, b.1 as int),
            ) && from < b.0 <= b.1 <= html@.len(),
            None => spec_next_block(html@, opening@, from as int) is None,
        },
{
    let tag_pos = match find_from(html, opening, from) {
        Some(p) => p,
        None => {
            return None;
        },
    };
    let mut gt_pat: Vec<char> = Vec::new();
    gt_pat.push('>');
    proof {
        assert(gt_pat@ =~= seq!['>']);
    }
    let gt = match find_from(html, &gt_pat, tag_pos) {
        Some(p) => p,
        None => {
            return None;
        },
    };
    let hn = html.len();
    proof {
        lemma_find_from(html@, seq!['>'], tag_pos as int);
        assert(gt + 1 <= hn);
    }
    let close_pat = chars_of("</script>");
    match find_from(html, &close_pat, gt + 1) {
        Some(ce) => {
            proof {
                lemma_find_from(html@, "</script>"@, gt + 1 as int);
            }
            Some((gt + 1, ce))
        },
        None => None,
    }
}

/// The stopping bound of the block scan: a scan position at or past
/// `len - 50` ends the search.
pub open spec fn scan_floor(len: int) -> int {
    if len >= 50 {
        len - 50
    } else {
        0
    }
}

/// The content of the first `<script>` block at or after `from` whose
/// content contains `marker`.
pub open spec fn spec_extract_script_from(s: Seq<char>, marker: Seq<char>, from: int) -> Option<
    Seq<char>,
>
    decreases s.len() - from,
    when from >= 0
    via extract_script_decreases
{
    match spec_next_block(s, "<script"@, from) {
        None => None,
        Some(b) => {
            let content = s.subrange(b.0, b.1);
            if contains_seq(content, marker) {
                Some(content)
            } else if b.1 >= scan_floor(s.len() as int) {
                None
            } else {
                spec_extract_script_from(s, marker, b.1)
            }
        },
    }
}

#[via_fn]
proof fn extract_script_decreases(s: Seq<char>, marker: Seq<char>, from: int) {
    lemma_next_block(s, "<script"@, from);
}

/// What `extract_script_content` returns.
pub open spec fn spec_extract_script(s: Seq<char>, marker: Seq<char>) -> Option<Seq<char>> {
    spec_extract_script_from(s, marker, 0)
}

/// The content of the first `<script>` tag whose content contains
/// `marker`: the text between the tag's closing `>` and the next
/// `</script>`.
pub fn extract_script_content(html: &str, marker: &str) -> (r: Option<String>)
    ensures
        match r {
            Some(t) => spec_extract_script(html@, marker@) == Some(t@),
            None => spec_extract_script(html@, marker@) is None,
        },
{
    let cs = chars_of(html);
    let mk = chars_of(marker);
    let opening = chars_of("<script");
    let mut from: usize = 0;
    loop
        invariant
            from <= cs@.len(),
            cs@ == html@,
            mk@ == marker@,
            opening@ == "<script"@,
            spec_extract_script_from(html@, marker@, 0) == spec_extract_script_from(
                html@,
                marker@,
                from as int,
            ),
        decreases cs@.len() - from,
    {
        match next_block(&cs, &opening, from) {
            None => {
                return None;
            },
            Some((cs_pos, ce_pos)) => {
                let content = subvec(&cs, cs_pos, ce_pos);
                if contains_sub(&content, &mk) {
                    return Some(string_of(&content));
                }
                let floor = if cs.len() >= 50 {
                    cs.len() - 50
                } else {
                    0
                };
                if ce_pos >= floor {
                    return None;
                }
                from = ce_pos;
            },
        }
    }
}

} // verus!
