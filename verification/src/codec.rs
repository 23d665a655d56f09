//! The crawl cache's persisted form: a decimal page cursor, then each
//! slug length-prefixed, so any slug text round-trips.
use vstd::prelude::*;

use crate::chars::{chars_of, string_of};
use crate::num::{is_digit, digit_val, pow10};
use crate::scan::subvec;
use crate::bestfit::{UrlCache, MAX_PAGES, slug_views, cache_wf};

verus! {

/// The character of one decimal digit.
pub open spec fn digit_char(d: int) -> char {
    ((48 + d) as u8) as char
}

/// The decimal digits of a non-negative number, most significant
/// first.
pub open spec fn u32_digits(n: int) -> Seq<char>
    decreases n,
{
    if n < 10 {
        seq![digit_char(n)]
    } else {
        u32_digits(n / 10).push(digit_char(n % 10))
    }
}

/// The encodings of the slugs from `i` on: decimal length, a colon,
/// the slug text.
pub open spec fn enc_slugs(slugs: Seq<Seq<char>>, i: int) -> Seq<char>
    decreases slugs.len() - i,
{
    if i < 0 || i >= slugs.len() {
        Seq::empty()
    } else {
        u32_digits(slugs[i].len() as int) + seq![':'] + slugs[i] + enc_slugs(slugs, i + 1)
    }
}

/// The persisted form: the page cursor, a line break, the slugs.
pub open spec fn spec_encode_cache(np: int, slugs: Seq<Seq<char>>) -> Seq<char> {
    u32_digits(np) + seq!['\n'] + enc_slugs(slugs, 0)
}

/// Append the decimal digits of `n`.
fn push_digits(out: &mut Vec<char>, n: u32)
    ensures
        final(out)@ == old(out)@ + u32_digits(n as int),
    decreases n,
{
    if n < 10 {
        let d: u8 = (48 + (n % 10) as u8) as u8;
        out.push(d as char);
        proof {
            assert(final(out)@ =~= old(out)@ + u32_digits(n as int));
        }
    } else {
        push_digits(out, n / 10);
        let d: u8 = (48 + (n % 10) as u8) as u8;
        out.push(d as char);
        proof {
            assert(final(out)@ =~= old(out)@ + u32_digits(n as int));
        }
    }
}

/// Serialize a cache. Slug lengths beyond the 32-bit range are not
/// representable in the stored form.
pub fn encode_cache(cache: &UrlCache) -> (r: String)
    requires
        forall|i: int| 0 <= i < cache.slugs@.len() ==> (#[trigger] cache.slugs@[i])@.len()
            <= u32::MAX,
    ensures
        r@ == spec_encode_cache(cache.next_page as int, slug_views(cache.slugs@)),
{
    let mut out: Vec<char> = Vec::new();
    push_digits(&mut out, cache.next_page);
    out.push('\n');
    let n = cache.slugs.len();
    let mut i: usize = 0;
    proof {
        assert(out@ =~= u32_digits(cache.next_page as int) + seq!['\n']);
    }
    while i < n
        invariant
            i <= n == cache.slugs@.len(),
            forall|q: int| 0 <= q < cache.slugs@.len() ==> (#[trigger] cache.slugs@[q])@.len()
                <= u32::MAX,
            spec_encode_cache(cache.next_page as int, slug_views(cache.slugs@)) == out@
                + enc_slugs(slug_views(cache.slugs@), i as int),
        decreases n - i,
    {
        let s: &String = &cache.slugs[i];
        let sv = chars_of(s.as_str());
        proof {
            assert(slug_views(cache.slugs@)[i as int] == cache.slugs@[i as int]@);
        }
        push_digits(&mut out, sv.len() as u32);
        out.push(':');
        let m = sv.len();
        let mut j: usize = 0;
        let ghost base = out@;
        while j < m
            invariant
                j <= m == sv@.len(),
                out@ == base + sv@.take(j as int),
            decreases m - j,
        {
            out.push(sv[j]);
            proof {
                assert(sv@.take(j + 1 as int) =~= sv@.take(j as int).push(sv@[j as int]));
            }
            j = j + 1;
        }
        proof {
            assert(out@ =~= base + sv@);
            assert(base =~= (base.subrange(
                0,
                base.len() - (u32_digits(sv@.len() as int).len() + 1),
            ) + u32_digits(sv@.len() as int)) + seq![':']) by {
                assert(base.len() >= u32_digits(sv@.len() as int).len() + 1);
            }
        }
        i = i + 1;
    }
    proof {
        assert(out@ =~= spec_encode_cache(cache.next_page as int, slug_views(cache.slugs@)));
    }
    string_of(&out)
}

/// Walk digits from `i`, accumulating `acc`, until `stop`; at least
/// one digit is required, the value may not pass the 32-bit range, and
/// any other character fails.
pub open spec fn parse_num_rec(s: Seq<char>, i: int, acc: int, seen: bool, stop: char) -> Option<
    (int, int),
>
    decreases s.len() - i,
{
    if i < 0 || i >= s.len() {
        None
    } else if s[i] == stop {
        if seen {
            Some((acc, i + 1))
        } else {
            None
        }
    } else if is_digit(s[i]) {
        let acc2 = acc * 10 + digit_val(s[i]);
        if acc2 > u32::MAX {
            None
        } else {
            parse_num_rec(s, i + 1, acc2, true, stop)
        }
    } else {
        None
    }
}

/// A parsed number sits within the text and the 32-bit range.
pub proof fn lemma_parse_num_pos(s: Seq<char>, i: int, acc: int, seen: bool, stop: char)
    requires
        0 <= i,
        0 <= acc <= u32::MAX,
    ensures
        parse_num_rec(s, i, acc, seen, stop) matches Some(p) ==> i < p.1 <= s.len() && 0 <= p.0
            <= u32::MAX,
    decreases s.len() - i,
{
    if i < 0 || i >= s.len() {
    } else if s[i] == stop {
    } else if is_digit(s[i]) {
        let acc2 = acc * 10 + digit_val(s[i]);
        if acc2 <= u32::MAX {
            lemma_parse_num_pos(s, i + 1, acc2, true, stop);
        }
    }
}

/// The slugs read from `i` on: length, colon, text, repeated to the
/// end; a repeated slug marks the text corrupt.
pub open spec fn parse_slugs_rec(s: Seq<char>, i: int, acc: Seq<Seq<char>>) -> Option<
    Seq<Seq<char>>,
>
    decreases s.len() - i,
    when i >= 0
    via parse_slugs_decreases
{
    if i >= s.len() {
        Some(acc)
    } else {
        match parse_num_rec(s, i, 0, false, ':') {
            None => None,
            Some(p) => {
                let l = p.0;
                let j = p.1;
                if j + l > s.len() {
                    None
                } else {
                    let slug = s.subrange(j, j + l);
                    if acc.contains(slug) {
                        None
                    } else {
                        parse_slugs_rec(s, j + l, acc.push(slug))
                    }
                }
            },
        }
    }
}

#[via_fn]
proof fn parse_slugs_decreases(s: Seq<char>, i: int, acc: Seq<Seq<char>>) {
    lemma_parse_num_pos(s, i, 0, false, ':');
}

/// What deserializing a cache yields: the page cursor - within the
/// listing's bounds - and the distinct slugs; anything else is
/// corrupt.
pub open spec fn spec_decode_cache(s: Seq<char>) -> Option<(int, Seq<Seq<char>>)> {
    match parse_num_rec(s, 0, 0, false, '\n') {
        None => None,
        Some(p) => if p.0 > MAX_PAGES {
            None
        } else {
            match parse_slugs_rec(s, p.1, Seq::empty()) {
                None => None,
                Some(slugs) => Some((p.0, slugs)),
            }
        },
    }
}

/// Ten to any power is positive.
proof fn lemma_pow10_pos(n: int)
    ensures
        pow10(n) >= 1,
    decreases n,
{
    if n > 0 {
        lemma_pow10_pos(n - 1);
    }
}

/// Digit characters decode back to their values.
proof fn lemma_digit_char(d: int)
    requires
        0 <= d <= 9,
    ensures
        is_digit(digit_char(d)),
        digit_val(digit_char(d)) == d,
{
}

/// The digits of a number have at least one character and each is a
/// digit.
proof fn lemma_digits_shape(v: int)
    requires
        0 <= v,
    ensures
        u32_digits(v).len() >= 1,
        forall|k: int| 0 <= k < u32_digits(v).len() ==> is_digit(#[trigger] u32_digits(v)[k]),
    decreases v,
{
    if v < 10 {
        lemma_digit_char(v);
    } else {
        lemma_digits_shape(v / 10);
        lemma_digit_char(v % 10);
        assert forall|k: int|
            0 <= k < u32_digits(v).len() implies is_digit(#[trigger] u32_digits(v)[k]) by {
            if k < u32_digits(v / 10).len() {
                assert(u32_digits(v)[k] == u32_digits(v / 10)[k]);
            } else {
                assert(u32_digits(v)[k] == digit_char(v % 10));
            }
        }
    }
}

/// Walking the digits of `v` multiplies the accumulator past them and
/// adds `v`.
proof fn lemma_parse_over_digits(s: Seq<char>, i: int, acc: int, v: int, stop: char)
    requires
        0 <= i,
        0 <= acc,
        0 <= v <= u32::MAX,
        !is_digit(stop),
        i + u32_digits(v).len() <= s.len(),
        s.subrange(i, i + u32_digits(v).len()) == u32_digits(v),
        acc * pow10(u32_digits(v).len() as int) + v <= u32::MAX,
    ensures
        parse_num_rec(s, i, acc, false, stop) == parse_num_rec(
            s,
            i + u32_digits(v).len(),
            acc * pow10(u32_digits(v).len() as int) + v,
            true,
            stop,
        ),
        parse_num_rec(s, i, acc, true, stop) == parse_num_rec(
            s,
            i + u32_digits(v).len(),
            acc * pow10(u32_digits(v).len() as int) + v,
            true,
            stop,
        ),
    decreases v,
{
    lemma_digits_shape(v);
    crate::num::lemma_pow10_bound(0);
    if v < 10 {
        lemma_digit_char(v);
        assert(s[i] == u32_digits(v)[0]) by {
            assert(s.subrange(i, i + 1)[0] == s[i]);
        }
        assert(s[i] == digit_char(v));
        assert(!(s[i] == stop));
        assert(pow10(1) == 10);
        assert(acc * 10 + v <= u32::MAX);
    } else {
        let pre = u32_digits(v / 10);
        let lp = pre.len() as int;
        let whole = u32_digits(v);
        let lw = whole.len() as int;
        assert(lw == lp + 1);
        assert(pow10(lw) == 10 * pow10(lp));
        assert(s.subrange(i, i + lp) == pre) by {
            assert forall|k: int| 0 <= k < lp implies s.subrange(i, i + lp)[k] == pre[k] by {
                assert(s.subrange(i, i + lw)[k] == s[i + k]);
                assert(whole[k] == pre[k]);
            }
            assert(s.subrange(i, i + lp) =~= pre);
        }
        let acc1 = acc * pow10(lp) + v / 10;
        assert(0 <= acc1) by {
            lemma_pow10_pos(lp);
            assert(acc * pow10(lp) >= 0) by (nonlinear_arith)
                requires
                    acc >= 0,
                    pow10(lp) >= 1,
            ;
        }
        assert(acc * pow10(lw) + v == acc1 * 10 + v % 10) by (nonlinear_arith)
            requires
                pow10(lw) == 10 * pow10(lp),
                acc1 == acc * pow10(lp) + v / 10,
                v == 10 * (v / 10) + v % 10,
                v >= 10,
        ;
        assert(acc1 <= u32::MAX) by {
            assert(acc1 * 10 + v % 10 <= u32::MAX);
            assert(v % 10 >= 0);
            assert(acc1 * 10 >= acc1) by (nonlinear_arith)
                requires
                    acc1 >= 0,
            ;
        }
        lemma_parse_over_digits(s, i, acc, v / 10, stop);
        lemma_digit_char(v % 10);
        assert(s[i + lp] == whole[lp]) by {
            assert(s.subrange(i, i + lw)[lp] == s[i + lp]);
        }
        assert(s[i + lp] == digit_char(v % 10));
        assert(!(s[i + lp] == stop));
        assert(parse_num_rec(s, i + lp, acc1, true, stop) == parse_num_rec(
            s,
            i + lw,
            acc1 * 10 + v % 10,
            true,
            stop,
        ));
    }
}

/// A number followed by its stop character parses back exactly.
proof fn lemma_parse_encoded_num(s: Seq<char>, i: int, v: int, stop: char)
    requires
        0 <= i,
        0 <= v <= u32::MAX,
        !is_digit(stop),
        i + u32_digits(v).len() + 1 <= s.len(),
        s.subrange(i, i + u32_digits(v).len()) == u32_digits(v),
        s[i + u32_digits(v).len()] == stop,
    ensures
        parse_num_rec(s, i, 0, false, stop) == Some((v, i + u32_digits(v).len() + 1)),
{
    let lw = u32_digits(v).len() as int;
    assert(0 * pow10(lw) == 0) by (nonlinear_arith);
    lemma_parse_over_digits(s, i, 0, v, stop);
    assert(parse_num_rec(s, i + lw, v, true, stop) == Some((v, i + lw + 1)));
}

/// The slugs encoded from `k` on parse back, appended to the
/// accumulator in order.
proof fn lemma_decode_slugs(
    s: Seq<char>,
    pos: int,
    slugs: Seq<Seq<char>>,
    k: int,
    acc: Seq<Seq<char>>,
)
    requires
        0 <= pos <= s.len(),
        0 <= k <= slugs.len(),
        s.subrange(pos, s.len() as int) == enc_slugs(slugs, k),
        forall|a: int, b: int| k <= a < b < slugs.len() ==> slugs[a] != slugs[b],
        forall|a: int| k <= a < slugs.len() ==> !acc.contains(#[trigger] slugs[a]),
        forall|a: int| k <= a < slugs.len() ==> (#[trigger] slugs[a]).len() <= u32::MAX,
    ensures
        parse_slugs_rec(s, pos, acc) == Some(acc + slugs.subrange(k, slugs.len() as int)),
    decreases slugs.len() - k,
{
    if k >= slugs.len() {
        assert(enc_slugs(slugs, k).len() == 0);
        assert(pos == s.len());
        assert(acc + slugs.subrange(k, slugs.len() as int) =~= acc);
    } else {
        let sl = slugs[k];
        let l = sl.len() as int;
        let d = u32_digits(l);
        let ld = d.len() as int;
        let rest = enc_slugs(slugs, k + 1);
        let enc = enc_slugs(slugs, k);
        assert(enc == d + seq![':'] + sl + rest);
        assert(enc.len() == ld + 1 + l + rest.len());
        assert(s.len() - pos == enc.len());
        lemma_digits_shape(l);
        assert(s.subrange(pos, pos + ld) == d) by {
            assert forall|m: int| 0 <= m < ld implies s.subrange(pos, pos + ld)[m] == d[m] by {
                assert(s.subrange(pos, s.len() as int)[m] == s[pos + m]);
                assert(enc[m] == d[m]);
            }
            assert(s.subrange(pos, pos + ld) =~= d);
        }
        assert(s[pos + ld] == ':') by {
            assert(s.subrange(pos, s.len() as int)[ld] == s[pos + ld]);
            assert(enc[ld] == ':');
        }
        lemma_parse_encoded_num(s, pos, l, ':');
        let j = pos + ld + 1;
        assert(parse_num_rec(s, pos, 0, false, ':') == Some((l, j)));
        assert(j + l <= s.len());
        assert(s.subrange(j, j + l) == sl) by {
            assert forall|m: int| 0 <= m < l implies s.subrange(j, j + l)[m] == sl[m] by {
                assert(s.subrange(pos, s.len() as int)[ld + 1 + m] == s[pos + ld + 1 + m]);
                assert(enc[ld + 1 + m] == sl[m]);
            }
            assert(s.subrange(j, j + l) =~= sl);
        }
        assert(!acc.contains(sl));
        assert(s.subrange(j + l, s.len() as int) == rest) by {
            assert forall|m: int|
                0 <= m < rest.len() implies s.subrange(j + l, s.len() as int)[m] == rest[m] by {
                assert(s.subrange(pos, s.len() as int)[ld + 1 + l + m] == s[pos + ld + 1 + l
                    + m]);
                assert(enc[ld + 1 + l + m] == rest[m]);
            }
            assert(s.subrange(j + l, s.len() as int) =~= rest);
        }
        let acc2 = acc.push(sl);
        assert forall|a: int|
            k + 1 <= a < slugs.len() implies !acc2.contains(#[trigger] slugs[a]) by {
            assert(slugs[a] != sl);
            if acc2.contains(slugs[a]) {
                let w = choose|w: int| 0 <= w < acc2.len() && acc2[w] == slugs[a];
                assert(w < acc.len());
                assert(acc.contains(slugs[a]));
            }
        }
        lemma_decode_slugs(s, j + l, slugs, k + 1, acc2);
        assert(acc2 + slugs.subrange(k + 1, slugs.len() as int) =~= acc + slugs.subrange(
            k,
            slugs.len() as int,
        ));
    }
}

/// Serializing a cache and reading it back loses nothing: the page
/// cursor and the slug list come back exactly. Holds of every cache
/// the crate builds: the cursor stays within the listing's bounds, no
/// slug repeats, and no slug outgrows the stored length field.
pub proof fn lemma_cache_codec_round_trip(np: int, slugs: Seq<Seq<char>>)
    requires
        0 <= np <= MAX_PAGES,
        forall|a: int, b: int| 0 <= a < b < slugs.len() ==> slugs[a] != slugs[b],
        forall|a: int| 0 <= a < slugs.len() ==> (#[trigger] slugs[a]).len() <= u32::MAX,
    ensures
        spec_decode_cache(spec_encode_cache(np, slugs)) == Some((np, slugs)),
{
    let s = spec_encode_cache(np, slugs);
    let d = u32_digits(np);
    let ld = d.len() as int;
    let tail = enc_slugs(slugs, 0);
    assert(s == d + seq!['\n'] + tail);
    assert(s.len() == ld + 1 + tail.len());
    lemma_digits_shape(np);
    assert(s.subrange(0, ld) == d) by {
        assert forall|m: int| 0 <= m < ld implies s.subrange(0, ld)[m] == d[m] by {
            assert(s[m] == d[m]);
        }
        assert(s.subrange(0, ld) =~= d);
    }
    assert(s[ld] == '\n');
    lemma_parse_encoded_num(s, 0, np, '\n');
    assert(parse_num_rec(s, 0, 0, false, '\n') == Some((np, ld + 1)));
    assert(s.subrange(ld + 1, s.len() as int) == tail) by {
        assert forall|m: int|
            0 <= m < tail.len() implies s.subrange(ld + 1, s.len() as int)[m] == tail[m] by {
            assert(s[ld + 1 + m] == tail[m]);
        }
        assert(s.subrange(ld + 1, s.len() as int) =~= tail);
    }
    lemma_decode_slugs(s, ld + 1, slugs, 0, Seq::empty());
    assert(Seq::<Seq<char>>::empty() + slugs.subrange(0, slugs.len() as int) =~= slugs);
}

/// Read one length-prefixed number.
fn parse_num(s: &Vec<char>, start: usize, stop: char) -> (r: Option<(u32, usize)>)
    requires
        start <= s@.len(),
    ensures
        match r {
            Some(p) => parse_num_rec(s@, start as int, 0, false, stop) == Some(
                (p.0 as int, p.1 as int),
            ) && start < p.1 <= s@.len(),
            None => parse_num_rec(s@, start as int, 0, false, stop) is None,
        },
{
    proof {
        lemma_parse_num_pos(s@, start as int, 0, false, stop);
    }
    let n = s.len();
    let mut i: usize = start;
    let mut acc: u32 = 0;
    let mut seen = false;
    while i < n
        invariant
            start <= i <= n == s@.len(),
            parse_num_rec(s@, start as int, 0, false, stop) == parse_num_rec(
                s@,
                i as int,
                acc as int,
                seen,
                stop,
            ),
        decreases n - i,
    {
        let c = s[i];
        if c == stop {
            if seen {
                proof {
                    lemma_parse_num_pos(s@, start as int, 0, false, stop);
                }
                return Some((acc, i + 1));
            }
            return None;
        } else if '0' <= c && c <= '9' {
            let d: u32 = c as u32 - 48;
            let acc2: u64 = acc as u64 * 10 + d as u64;
            if acc2 > u32::MAX as u64 {
                return None;
            }
            acc = acc2 as u32;
            seen = true;
        } else {
            return None;
        }
        i = i + 1;
    }
    None
}

/// Deserialize a cache; a malformed text yields nothing.
pub fn decode_cache(text: &str) -> (r: Option<UrlCache>)
    ensures
        match r {
            Some(c) => spec_decode_cache(text@) == Some(
                (c.next_page as int, slug_views(c.slugs@)),
            ) && cache_wf(c),
            None => spec_decode_cache(text@) is None,
        },
{
    let s = chars_of(text);
    let n = s.len();
    let (np, mut i) = match parse_num(&s, 0, '\n') {
        None => {
            return None;
        },
        Some(p) => p,
    };
    if np > MAX_PAGES {
        return None;
    }
    let mut slugs: Vec<String> = Vec::new();
    proof {
        assert(slugs.deep_view() =~= Seq::<Seq<char>>::empty());
    }
    while i < n
        invariant
            i <= n == s@.len(),
            s@ == text@,
            spec_decode_cache(text@) == match parse_slugs_rec(s@, i as int, slugs.deep_view()) {
                None => None::<(int, Seq<Seq<char>>)>,
                Some(sl) => Some((np as int, sl)),
            },
            forall|a: int, b: int| 0 <= a < b < slugs@.len() ==> slugs@[a]@ != slugs@[b]@,
        decreases n - i,
    {
        let (l, j) = match parse_num(&s, i, ':') {
            None => {
                return None;
            },
            Some(p) => p,
        };
        if l as usize > n - j {
            return None;
        }
        let slug = subvec(&s, j, j + l as usize);
        let slug_str = string_of(&slug);
        let mut dup = false;
        let sn = slugs.len();
        let mut k: usize = 0;
        while k < sn
            invariant
                k <= sn == slugs.len(),
                slug_str@ == slug@,
                dup ==> slugs.deep_view().contains(slug@),
                !dup ==> forall|q: int| 0 <= q < k ==> slugs.deep_view()[q] != slug@,
            decreases sn - k,
        {
            let u: &String = &slugs[k];
            proof {
                assert(slugs.deep_view()[k as int] == slugs@[k as int]@);
            }
            if crate::matcher::eq_chars(&chars_of(u.as_str()), &chars_of(slug_str.as_str())) {
                dup = true;
            }
            k = k + 1;
        }
        if dup {
            return None;
        }
        proof {
            assert(!slugs.deep_view().contains(slug@));
        }
        let ghost old_views = slugs.deep_view();
        let ghost sv = slug_str@;
        slugs.push(slug_str);
        proof {
            assert(slugs.deep_view() =~= old_views.push(sv));
            assert forall|a: int, b: int|
                0 <= a < b < slugs@.len() implies slugs@[a]@ != slugs@[b]@ by {
                if b < slugs@.len() - 1 {
                } else {
                    assert(slugs.deep_view()[a] == slugs@[a]@);
                }
            }
        }
        i = j + l as usize;
    }
    let c = UrlCache { next_page: np, slugs };
    proof {
        assert(slug_views(c.slugs@) == c.slugs.deep_view());
    }
    Some(c)
}

} // verus!
