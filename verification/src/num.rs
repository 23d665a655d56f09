//! Decimal parsing and rating normalization, in exact integer
//! arithmetic.
//!
//! Ratings are decimal numbers in the source markup ("7.5", "80"). They
//! are parsed into a mantissa/scale pair and normalized onto the 0-10
//! scale as an exact rational, so no rounding enters the logic; callers
//! that need a floating value divide the two fields outside the library.
use vstd::prelude::*;

use crate::scan::{match_at, starts_with_at, subvec};
use crate::excerpt::trim_ws_chars;

verus! {

/// Largest mantissa a parsed decimal may carry.
pub const MANT_LIMIT: u64 = 1_000_000_000_000_000_000;

/// Largest number of fractional digits a parsed decimal may carry.
pub const SCALE_LIMIT: u32 = 18;

/// A non-negative decimal number `mant / 10^scale`.
#[derive(Clone, Copy, PartialEq, Eq, Structural, Debug)]
pub struct Dec {
    pub mant: u64,
    pub scale: u32,
}

/// A non-negative rational number `num / den`.
#[derive(Clone, Copy, PartialEq, Eq, Structural, Debug)]
pub struct Rating {
    pub num: u128,
    pub den: u128,
}

/// `10^n`.
pub open spec fn pow10(n: int) -> int
    decreases n,
{
    if n <= 0 {
        1
    } else {
        10 * pow10(n - 1)
    }
}

/// Bounds that parsed decimals obey.
pub open spec fn dec_wf(d: Dec) -> bool {
    d.mant <= MANT_LIMIT && d.scale <= SCALE_LIMIT
}

/// A rating is a well-formed fraction within the 0-10 scale.
pub open spec fn rating_wf(r: Rating) -> bool {
    r.den > 0 && r.num <= 10 * r.den
}

pub open spec fn is_digit(c: char) -> bool {
    '0' <= c && c <= '9'
}

pub open spec fn digit_val(c: char) -> int {
    c as int - 48
}

/// Walk `s[i..]` accumulating mantissa `m`; `seen` says whether a digit
/// was read yet, `frac` the number of fractional digits once the point
/// was passed. Rejects a second point, any other character, and numbers
/// beyond the mantissa or scale bounds.
pub open spec fn parse_dec_from(
    s: Seq<char>,
    i: int,
    m: int,
    seen: bool,
    frac: Option<int>,
) -> Option<Dec>
    decreases s.len() - i,
{
    if i < 0 || i >= s.len() {
        if seen && 0 <= m <= MANT_LIMIT {
            Some(
                Dec {
                    mant: m as u64,
                    scale: (match frac {
                        Some(k) => k,
                        None => 0,
                    }) as u32,
                },
            )
        } else {
            None
        }
    } else if is_digit(s[i]) {
        let m2 = m * 10 + digit_val(s[i]);
        if m2 > MANT_LIMIT {
            None
        } else {
            match frac {
                None => parse_dec_from(s, i + 1, m2, true, None),
                Some(k) => if k + 1 > SCALE_LIMIT {
                    None
                } else {
                    parse_dec_from(s, i + 1, m2, true, Some(k + 1))
                },
            }
        }
    } else if s[i] == '.' {
        match frac {
            None => parse_dec_from(s, i + 1, m, seen, Some(0)),
            Some(_) => None,
        }
    } else {
        None
    }
}

/// What `parse_dec` returns: a non-negative decimal literal with an
/// optional leading `+`, digits around at most one point, and at least
/// one digit somewhere.
pub open spec fn spec_parse_dec(s: Seq<char>) -> Option<Dec> {
    if s.len() > 0 && s[0] == '+' {
        parse_dec_from(s, 1, 0, false, None)
    } else {
        parse_dec_from(s, 0, 0, false, None)
    }
}

/// A decimal literal with a leading minus: the text after the sign
/// parses as a (non-negative) decimal. Such a value is at most zero.
pub open spec fn is_neg_dec(s: Seq<char>) -> bool {
    s.len() > 0 && s[0] == '-' && spec_parse_dec(s.subrange(1, s.len() as int)) is Some
}

/// Decide `is_neg_dec`.
pub fn neg_dec(text: &Vec<char>) -> (r: bool)
    ensures
        r == is_neg_dec(text@),
{
    let n = text.len();
    if n == 0 || text[0] != '-' {
        return false;
    }
    let rest = crate::scan::subvec(text, 1, n);
    parse_dec(&rest).is_some()
}

/// A parsed decimal obeys the mantissa and scale bounds.
pub proof fn lemma_parse_dec_wf(s: Seq<char>, i: int, m: int, seen: bool, frac: Option<int>)
    requires
        0 <= m <= MANT_LIMIT,
        frac matches Some(k) ==> 0 <= k <= SCALE_LIMIT,
    ensures
        parse_dec_from(s, i, m, seen, frac) matches Some(d) ==> dec_wf(d),
    decreases s.len() - i,
{
    if i < 0 || i >= s.len() {
    } else if is_digit(s[i]) {
        let m2 = m * 10 + digit_val(s[i]);
        if m2 > MANT_LIMIT {
        } else {
            match frac {
                None => lemma_parse_dec_wf(s, i + 1, m2, true, None),
                Some(k) => if k + 1 <= SCALE_LIMIT {
                    lemma_parse_dec_wf(s, i + 1, m2, true, Some(k + 1));
                },
            }
        }
    } else if s[i] == '.' {
        match frac {
            None => lemma_parse_dec_wf(s, i + 1, m, seen, Some(0)),
            Some(_) => {},
        }
    }
}

/// Parse a non-negative decimal literal.
pub fn parse_dec(text: &Vec<char>) -> (r: Option<Dec>)
    ensures
        r == spec_parse_dec(text@),
        r matches Some(d) ==> dec_wf(d),
{
    proof {
        lemma_parse_dec_wf(
            text@,
            if text@.len() > 0 && text@[0] == '+' {
                1
            } else {
                0
            },
            0,
            false,
            None,
        );
    }
    let n = text.len();
    let mut i: usize = 0;
    if n > 0 && text[0] == '+' {
        i = 1;
    }
    let ghost start = i as int;
    let mut m: u64 = 0;
    let mut seen = false;
    let mut frac: Option<u32> = None;
    while i < n
        invariant
            i <= n == text.len(),
            m <= MANT_LIMIT,
            frac matches Some(k) ==> k <= SCALE_LIMIT,
            spec_parse_dec(text@) == parse_dec_from(
                text@,
                i as int,
                m as int,
                seen,
                match frac {
                    Some(k) => Some(k as int),
                    None => None,
                },
            ),
        decreases n - i,
    {
        let c = text[i];
        if '0' <= c && c <= '9' {
            let d: u64 = (c as u32 - 48) as u64;
            let m2: u128 = m as u128 * 10 + d as u128;
            if m2 > MANT_LIMIT as u128 {
                return None;
            }
            m = m2 as u64;
            seen = true;
            match frac {
                None => {},
                Some(k) => {
                    if k + 1 > SCALE_LIMIT {
                        return None;
                    }
                    frac = Some(k + 1);
                },
            }
        } else if c == '.' {
            match frac {
                None => {
                    frac = Some(0);
                },
                Some(_) => {
                    return None;
                },
            }
        } else {
            return None;
        }
        i = i + 1;
    }
    if seen {
        Some(
            Dec {
                mant: m,
                scale: match frac {
                    Some(k) => k,
                    None => 0,
                },
            },
        )
    } else {
        None
    }
}

/// `pow10` grows with its argument and stays within `u128` up to 37.
pub proof fn lemma_pow10_bound(n: int)
    requires
        0 <= n <= SCALE_LIMIT,
    ensures
        0 < pow10(n) <= pow10(SCALE_LIMIT as int),
        pow10(SCALE_LIMIT as int) == 1_000_000_000_000_000_000,
    decreases SCALE_LIMIT as int - n,
{
    reveal_with_fuel(pow10, 19);
    if n < SCALE_LIMIT {
        lemma_pow10_bound(n + 1);
    }
}

/// `10^n`, exactly.
pub fn pow10_u128(n: u32) -> (r: u128)
    requires
        n <= SCALE_LIMIT,
    ensures
        r == pow10(n as int),
        1 <= r <= 1_000_000_000_000_000_000,
{
    proof {
        lemma_pow10_bound(n as int);
    }
    let mut r: u128 = 1;
    let mut k: u32 = 0;
    while k < n
        invariant
            k <= n <= SCALE_LIMIT,
            r == pow10(k as int),
            1 <= r <= pow10(SCALE_LIMIT as int),
        decreases n - k,
    {
        proof {
            lemma_pow10_bound(k as int);
            lemma_pow10_bound(k + 1);
        }
        r = r * 10;
        k = k + 1;
    }
    r
}

/// What rating normalization returns, on the 0-10 scale: with a best
/// rating present and not numerically 10, the value is rescaled by
/// `(value / best) * 10`; with it absent or exactly 10 the value stands
/// as it is. A best rating of zero, or a result outside the 0-10 range,
/// is rejected.
pub open spec fn spec_normalize(v: Dec, best: Option<Dec>) -> Option<Rating> {
    let scaled = match best {
        Some(b) => if b.mant == 10 * pow10(b.scale as int) {
            Some(Rating { num: v.mant as u128, den: pow10(v.scale as int) as u128 })
        } else if b.mant == 0 {
            None
        } else {
            Some(
                Rating {
                    num: (v.mant * pow10(b.scale as int) * 10) as u128,
                    den: (pow10(v.scale as int) * b.mant) as u128,
                },
            )
        },
        None => Some(Rating { num: v.mant as u128, den: pow10(v.scale as int) as u128 }),
    };
    match scaled {
        Some(r) => if r.num <= 10 * r.den {
            Some(r)
        } else {
            None
        },
        None => None,
    }
}

/// Normalize a rating onto the 0-10 scale.
pub fn normalize_rating(v: Dec, best: Option<Dec>) -> (r: Option<Rating>)
    requires
        dec_wf(v),
        best matches Some(b) ==> dec_wf(b),
    ensures
        r == spec_normalize(v, best),
        r matches Some(rt) ==> rating_wf(rt),
{
    proof {
        lemma_pow10_bound(v.scale as int);
        match best {
            Some(b) => {
                lemma_pow10_bound(b.scale as int);
                assert(v.mant as int * pow10(b.scale as int) <= MANT_LIMIT as int * pow10(
                    SCALE_LIMIT as int,
                )) by (nonlinear_arith)
                    requires
                        0 <= v.mant <= MANT_LIMIT,
                        0 < pow10(b.scale as int) <= pow10(SCALE_LIMIT as int),
                ;
                assert(pow10(v.scale as int) * b.mant <= pow10(SCALE_LIMIT as int)
                    * MANT_LIMIT as int) by (nonlinear_arith)
                    requires
                        0 <= b.mant <= MANT_LIMIT,
                        0 < pow10(v.scale as int) <= pow10(SCALE_LIMIT as int),
                ;
            },
            None => {},
        }
    }
    let scaled: Option<Rating> = match best {
        Some(b) => {
            let bden = pow10_u128(b.scale);
            if b.mant as u128 == 10 * bden {
                Some(Rating { num: v.mant as u128, den: pow10_u128(v.scale) })
            } else if b.mant == 0 {
                None
            } else {
                let num = v.mant as u128 * bden * 10;
                let den = pow10_u128(v.scale) * b.mant as u128;
                Some(Rating { num, den })
            }
        },
        None => Some(Rating { num: v.mant as u128, den: pow10_u128(v.scale) }),
    };
    match scaled {
        Some(r) => {
            if r.num <= 10 * r.den {
                proof {
                    match best {
                        Some(b) => {
                            if b.mant != 10 * pow10(b.scale as int) && b.mant != 0 {
                                assert(r.den > 0) by (nonlinear_arith)
                                    requires
                                        r.den == pow10(v.scale as int) * b.mant as int,
                                        pow10(v.scale as int) > 0,
                                        b.mant > 0,
                                ;
                            }
                        },
                        None => {},
                    }
                }
                Some(r)
            } else {
                None
            }
        },
        None => None,
    }
}

/// What `try_parse_rating` returns: strip one trailing `/10`, trim white
/// space, and accept only a short bare decimal - at most five characters
/// - whose value lies in the 0-10 range, as a rating on that scale.
pub open spec fn spec_try_parse_rating(s: Seq<char>) -> Option<Rating> {
    let stripped = if s.len() >= 3 && s.subrange(s.len() - 3, s.len() as int) == "/10"@ {
        s.take(s.len() - 3)
    } else {
        s
    };
    let t = crate::text::spec_trim_ws(stripped);
    if t.len() > 5 || t.len() == 0 {
        None
    } else {
        match spec_parse_dec(t) {
            Some(d) => {
                let r = Rating { num: d.mant as u128, den: pow10(d.scale as int) as u128 };
                if r.num <= 10 * r.den {
                    Some(r)
                } else {
                    None
                }
            },
            None => None,
        }
    }
}

/// Parse a short standalone rating such as `7.5`, `8`, `7.5/10`.
/// The five-character cap keeps prose that begins with a digit from
/// matching.
pub fn try_parse_rating(text: &Vec<char>) -> (r: Option<Rating>)
    ensures
        r == spec_try_parse_rating(text@),
        r matches Some(rt) ==> rating_wf(rt),
{
    let n = text.len();
    let slash = chars_of_slash10();
    let has_suffix = n >= 3 && starts_with_at(text, &slash, n - 3);
    proof {
        reveal_strlit("/10");
        if n >= 3 {
            if match_at(text@, "/10"@, n - 3) {
                assert(text@.subrange(n - 3, n as int) =~= "/10"@);
            }
            if text@.subrange(n - 3, n as int) == "/10"@ {
                assert forall|k: int| 0 <= k < 3 implies text@[n - 3 + k] == "/10"@[k] by {
                    assert(text@.subrange(n - 3, n as int)[k] == text@[n - 3 + k]);
                }
            }
        }
    }
    let stripped: Vec<char> = if has_suffix {
        subvec(text, 0, n - 3)
    } else {
        let s = subvec(text, 0, n);
        proof {
            assert(s@ =~= text@);
        }
        s
    };
    let t = trim_ws_chars(&stripped);
    if t.len() > 5 || t.len() == 0 {
        return None;
    }
    match parse_dec(&t) {
        Some(d) => {
            proof {
                lemma_pow10_bound(d.scale as int);
            }
            let den = pow10_u128(d.scale);
            let num = d.mant as u128;
            if num <= 10 * den {
                Some(Rating { num, den })
            } else {
                None
            }
        },
        None => None,
    }
}

/// The characters of the suffix `/10`.
fn chars_of_slash10() -> (r: Vec<char>)
    ensures
        r@ == "/10"@,
{
    proof {
        reveal_strlit("/10");
    }
    let mut v: Vec<char> = Vec::new();
    v.push('/');
    v.push('1');
    v.push('0');
    proof {
        assert(v@ =~= "/10"@);
    }
    v
}

} // verus!
