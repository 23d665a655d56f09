//! Title cleanup and slug generation.
use vstd::prelude::*;

use crate::chars::{chars_of, string_of};

verus! {

/// The Unicode white-space characters, as `char::is_whitespace` sees them.
pub open spec fn is_ws(c: char) -> bool {
    ||| c == '\u{0009}'
    ||| c == '\u{000A}'
    ||| c == '\u{000B}'
    ||| c == '\u{000C}'
    ||| c == '\u{000D}'
    ||| c == ' '
    ||| c == '\u{0085}'
    ||| c == '\u{00A0}'
    ||| c == '\u{1680}'
    ||| ('\u{2000}' <= c && c <= '\u{200A}')
    ||| c == '\u{2028}'
    ||| c == '\u{2029}'
    ||| c == '\u{202F}'
    ||| c == '\u{205F}'
    ||| c == '\u{3000}'
}

/// Decides `is_ws` executably.
pub fn ws_char(c: char) -> (r: bool)
    ensures
        r == is_ws(c),
{
    c == '\u{0009}' || c == '\u{000A}' || c == '\u{000B}' || c == '\u{000C}'
        || c == '\u{000D}' || c == ' ' || c == '\u{0085}' || c == '\u{00A0}'
        || c == '\u{1680}' || ('\u{2000}' <= c && c <= '\u{200A}') || c == '\u{2028}'
        || c == '\u{2029}' || c == '\u{202F}' || c == '\u{205F}' || c == '\u{3000}'
}

/// A sequence with its trailing white space removed.
pub open spec fn trim_end_ws(s: Seq<char>) -> Seq<char>
    decreases s.len(),
{
    if s.len() > 0 && is_ws(s.last()) {
        trim_end_ws(s.drop_last())
    } else {
        s
    }
}

/// A sequence with its leading white space removed.
pub open spec fn trim_start_ws(s: Seq<char>) -> Seq<char>
    decreases s.len(),
{
    if s.len() > 0 && is_ws(s[0]) {
        trim_start_ws(s.drop_first())
    } else {
        s
    }
}

/// A sequence with white space removed at both ends.
pub open spec fn spec_trim_ws(s: Seq<char>) -> Seq<char> {
    trim_start_ws(trim_end_ws(s))
}

/// What `clean_title` returns: everything before the last `(`, with
/// trailing white space removed, unless the `(` starts the title or is
/// absent, in which case the title is kept whole.
pub open spec fn spec_clean_title(s: Seq<char>) -> Seq<char> {
    match s.index_of_last('(') {
        Some(p) => if p > 0 {
            trim_end_ws(s.take(p))
        } else {
            s
        },
        None => s,
    }
}

/// Strip a trailing parenthetical suffix such as an edition or format
/// marker; a title that itself starts with `(` is left alone.
pub fn clean_title(title: &str) -> (r: String)
    ensures
        r@ == spec_clean_title(title@),
{
    let cs = chars_of(title);
    proof {
        cs@.index_of_last_ensures('(');
    }
    let mut paren: Option<usize> = None;
    let mut i: usize = 0;
    while i < cs.len()
        invariant
            i <= cs.len(),
            cs@ == title@,
            match paren {
                Some(p) => p < i && cs@[p as int] == '(' && (forall|j: int|
                    p < j < i ==> cs@[j] != '('),
                None => forall|j: int| 0 <= j < i ==> cs@[j] != '(',
            },
        decreases cs.len() - i,
    {
        if cs[i] == '(' {
            paren = Some(i);
        }
        i = i + 1;
    }
    proof {
        match paren {
            Some(p) => {
                assert(cs@.index_of_last('(') == Some(p as int));
            },
            None => {
                assert(cs@.index_of_last('(') is None);
            },
        }
    }
    match paren {
        Some(p) if p > 0 => {
            let mut end: usize = p;
            while end > 0 && ws_char(cs[end - 1])
                invariant
                    end <= p <= cs.len(),
                    cs@ == title@,
                    trim_end_ws(cs@.take(p as int)) == trim_end_ws(cs@.take(end as int)),
                decreases end,
            {
                proof {
                    assert(cs@.take(end as int).drop_last() =~= cs@.take(end - 1));
                }
                end = end - 1;
            }
            let mut out: Vec<char> = Vec::new();
            let mut k: usize = 0;
            while k < end
                invariant
                    k <= end <= cs.len(),
                    cs@ == title@,
                    out@ == cs@.take(k as int),
                decreases end - k,
            {
                out.push(cs[k]);
                proof {
                    assert(cs@.take(k + 1 as int) =~= cs@.take(k as int).push(
                        cs@[k as int],
                    ));
                }
                k = k + 1;
            }
            proof {
                assert(out@ =~= cs@.take(end as int));
                assert(trim_end_ws(cs@.take(end as int)) == cs@.take(end as int));
            }
            string_of(&out)
        },
        _ => {
            let r = title.to_owned();
            r
        },
    }
}

/// An ASCII letter or digit.
pub open spec fn is_alnum(c: char) -> bool {
    ('a' <= c && c <= 'z') || ('A' <= c && c <= 'Z') || ('0' <= c && c <= '9')
}

/// The ASCII lower-case form of a character; others are unchanged.
pub open spec fn lower_char(c: char) -> char {
    if 'A' <= c && c <= 'Z' {
        (((c as u32) + 32) as u8) as char
    } else {
        c
    }
}

/// What one character contributes to a slug before hyphen collapsing:
/// letters and digits lower-cased, the three separator characters as `-`,
/// everything else dropped.
pub open spec fn slug_unit(c: char) -> Seq<char> {
    if is_alnum(c) {
        seq![lower_char(c)]
    } else if c == ' ' || c == '-' || c == ':' {
        seq!['-']
    } else {
        Seq::empty()
    }
}

/// The concatenated slug units of `s[i..]`.
pub open spec fn slug_map_from(s: Seq<char>, i: int) -> Seq<char>
    decreases s.len() - i,
{
    if i < 0 || i >= s.len() {
        Seq::empty()
    } else {
        slug_unit(s[i]) + slug_map_from(s, i + 1)
    }
}

/// `s[i..]` with runs of `-` collapsed to one; `prev` says whether the
/// character just before `s[i]` already emitted a hyphen.
pub open spec fn collapse_from(s: Seq<char>, i: int, prev: bool) -> Seq<char>
    decreases s.len() - i,
{
    if i < 0 || i >= s.len() {
        Seq::empty()
    } else if s[i] == '-' {
        if prev {
            collapse_from(s, i + 1, true)
        } else {
            seq!['-'] + collapse_from(s, i + 1, true)
        }
    } else {
        seq![s[i]] + collapse_from(s, i + 1, false)
    }
}

/// A sequence with its leading hyphens removed.
pub open spec fn trim_start_hyphens(s: Seq<char>) -> Seq<char>
    decreases s.len(),
{
    if s.len() > 0 && s[0] == '-' {
        trim_start_hyphens(s.drop_first())
    } else {
        s
    }
}

/// A sequence with its trailing hyphens removed.
pub open spec fn trim_end_hyphens(s: Seq<char>) -> Seq<char>
    decreases s.len(),
{
    if s.len() > 0 && s.last() == '-' {
        trim_end_hyphens(s.drop_last())
    } else {
        s
    }
}

/// What `slugify` returns: map each character to its slug unit, collapse
/// hyphen runs, trim hyphens at both ends.
pub open spec fn spec_slugify(s: Seq<char>) -> Seq<char> {
    trim_start_hyphens(trim_end_hyphens(collapse_from(slug_map_from(s, 0), 0, false)))
}

/// Turn a free-text name into a URL slug: ASCII letters and digits are
/// kept lower-cased, space, hyphen and colon become `-`, every other
/// character is dropped, hyphen runs collapse, and hyphens at the ends
/// are trimmed.
pub fn slugify(s: &str) -> (r: String)
    ensures
        r@ == spec_slugify(s@),
{
    let cs = chars_of(s);
    let n = cs.len();

    let mut mapped: Vec<char> = Vec::new();
    let mut i: usize = 0;
    while i < n
        invariant
            i <= n == cs.len(),
            cs@ == s@,
            slug_map_from(cs@, 0) == mapped@ + slug_map_from(cs@, i as int),
        decreases n - i,
    {
        let c = cs[i];
        if ('a' <= c && c <= 'z') || ('0' <= c && c <= '9') {
            mapped.push(c);
        } else if 'A' <= c && c <= 'Z' {
            let lowered: char = (((c as u32) + 32) as u8) as char;
            mapped.push(lowered);
        } else if c == ' ' || c == '-' || c == ':' {
            mapped.push('-');
        }
        i = i + 1;
    }

    let m = mapped.len();
    let mut collapsed: Vec<char> = Vec::new();
    let mut prev_hyphen = false;
    let mut j: usize = 0;
    while j < m
        invariant
            j <= m == mapped.len(),
            collapse_from(mapped@, 0, false) == collapsed@ + collapse_from(
                mapped@,
                j as int,
                prev_hyphen,
            ),
        decreases m - j,
    {
        let c = mapped[j];
        if c == '-' {
            if !prev_hyphen {
                collapsed.push('-');
            }
            prev_hyphen = true;
        } else {
            collapsed.push(c);
            prev_hyphen = false;
        }
        j = j + 1;
    }
    proof {
        assert(collapsed@ =~= collapse_from(mapped@, 0, false));
    }

    let mut end: usize = collapsed.len();
    proof {
        assert(collapsed@.take(end as int) =~= collapsed@);
    }
    while end > 0 && collapsed[end - 1] == '-'
        invariant
            end <= collapsed.len(),
            trim_end_hyphens(collapsed@) == trim_end_hyphens(collapsed@.take(end as int)),
        decreases end,
    {
        proof {
            assert(collapsed@.take(end as int).drop_last() =~= collapsed@.take(end - 1));
        }
        end = end - 1;
    }
    proof {
        assert(trim_end_hyphens(collapsed@) == collapsed@.take(end as int));
    }

    let mut start: usize = 0;
    while start < end && collapsed[start] == '-'
        invariant
            start <= end <= collapsed.len(),
            trim_end_hyphens(collapsed@) == collapsed@.take(end as int),
            trim_start_hyphens(collapsed@.take(end as int)) == trim_start_hyphens(
                collapsed@.subrange(start as int, end as int),
            ),
        decreases end - start,
    {
        proof {
            assert(collapsed@.subrange(start as int, end as int).drop_first()
                =~= collapsed@.subrange(start + 1 as int, end as int));
        }
        start = start + 1;
    }
    proof {
        assert(trim_start_hyphens(collapsed@.subrange(start as int, end as int))
            == collapsed@.subrange(start as int, end as int));
    }

    let mut out: Vec<char> = Vec::new();
    let mut k: usize = start;
    while k < end
        invariant
            start <= k <= end <= collapsed.len(),
            out@ == collapsed@.subrange(start as int, k as int),
        decreases end - k,
    {
        out.push(collapsed[k]);
        proof {
            assert(collapsed@.subrange(start as int, k + 1 as int) =~= collapsed@.subrange(
                start as int,
                k as int,
            ).push(collapsed@[k as int]));
        }
        k = k + 1;
    }
    proof {
        assert(out@ =~= collapsed@.subrange(start as int, end as int));
    }
    string_of(&out)
}

/// A byte that percent encoding passes through unchanged: a letter, a
/// digit, or one of `_ . ~`.
pub open spec fn is_unreserved(b: u8) -> bool {
    (0x41 <= b && b <= 0x5A) || (0x61 <= b && b <= 0x7A) || (0x30 <= b && b <= 0x39)
        || b == 0x5F || b == 0x2E || b == 0x7E
}

/// The character for one hexadecimal digit, upper case.
pub open spec fn hex_digit(n: u8) -> char {
    if n < 10 {
        ((0x30 + n) as u8) as char
    } else {
        ((0x41 + n - 10) as u8) as char
    }
}

/// What one byte contributes to a form-style percent encoding.
pub open spec fn encode_unit(b: u8) -> Seq<char> {
    if is_unreserved(b) {
        seq![b as char]
    } else if b == 0x20 {
        seq!['+']
    } else {
        seq!['%', hex_digit(b / 16), hex_digit(b % 16)]
    }
}

/// The concatenated encodings of the bytes of `s[i..]`.
pub open spec fn encode_from(s: Seq<u8>, i: int) -> Seq<char>
    decreases s.len() - i,
{
    if i < 0 || i >= s.len() {
        Seq::empty()
    } else {
        encode_unit(s[i]) + encode_from(s, i + 1)
    }
}

/// Form-style percent encoding of a query parameter: letters, digits and
/// `_ . ~` pass through, a space becomes `+`, and every other byte of
/// the UTF-8 encoding becomes `%XX` with upper-case hex digits.
pub fn url_encode(s: &str) -> (r: String)
    ensures
        r@ == encode_from(vstd::utf8::encode_utf8(s@), 0),
{
    let bytes: &[u8] = s.as_bytes();
    let n = bytes.len();
    let mut out: Vec<char> = Vec::new();
    let mut i: usize = 0;
    while i < n
        invariant
            i <= n == bytes@.len(),
            bytes@ == vstd::utf8::encode_utf8(s@),
            encode_from(bytes@, 0) == out@ + encode_from(bytes@, i as int),
        decreases n - i,
    {
        let b = bytes[i];
        if (0x41 <= b && b <= 0x5A) || (0x61 <= b && b <= 0x7A) || (0x30 <= b && b <= 0x39)
            || b == 0x5F || b == 0x2E || b == 0x7E {
            out.push(b as char);
        } else if b == 0x20 {
            out.push('+');
        } else {
            out.push('%');
            let hi = b / 16;
            let lo = b % 16;
            let hic: char = if hi < 10 {
                (0x30 + hi) as char
            } else {
                (0x41 + hi - 10) as char
            };
            let loc: char = if lo < 10 {
                (0x30 + lo) as char
            } else {
                (0x41 + lo - 10) as char
            };
            out.push(hic);
            out.push(loc);
        }
        i = i + 1;
    }
    string_of(&out)
}

} // verus!
