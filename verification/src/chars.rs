//! Conversions between `&str`/`String` and `Vec<char>`.
//!
//! All scanning and matching logic in this crate works over `Vec<char>`,
//! whose view is the same `Seq<char>` as the view of the originating
//! string, so contracts stated over `Seq<char>` apply unchanged.
use vstd::prelude::*;

verus! {

/// Relies on `String::push`: appends exactly one character to the string.
#[verifier::external_body]
pub fn push_char(s: &mut String, c: char)
    ensures
        final(s)@ == old(s)@.push(c),
{
    s.push(c);
}

/// The characters of a string, in order, as a vector.
pub fn chars_of(s: &str) -> (r: Vec<char>)
    ensures
        r@ == s@,
{
    broadcast use vstd::string::axiom_spec_iter;

    let mut r: Vec<char> = Vec::new();
    for c in it: s.chars()
        invariant
            r@ == it.seq().take(it.index() as int),
    {
        r.push(c);
    }
    proof {
        assert(r@ =~= s@);
    }
    r
}

/// The string holding exactly the given characters.
pub fn string_of(cs: &Vec<char>) -> (r: String)
    ensures
        r@ == cs@,
{
    let mut r = String::new();
    let mut i: usize = 0;
    while i < cs.len()
        invariant
            i <= cs.len(),
            r@ == cs@.take(i as int),
        decreases cs.len() - i,
    {
        push_char(&mut r, cs[i]);
        proof {
            assert(cs@.take(i + 1 as int) =~= cs@.take(i as int).push(cs@[i as int]));
        }
        i = i + 1;
    }
    proof {
        assert(r@ =~= cs@);
    }
    r
}

/// The UTF-8 byte length of the text.
pub fn utf8_byte_len(text: &Vec<char>) -> (r: u128)
    ensures
        r == vstd::utf8::encode_utf8(text@).len(),
{
    let n = text.len();
    let mut total: u128 = 0;
    let mut i: usize = 0;
    proof {
        assert(text@.subrange(0, n as int) =~= text@);
    }
    while i < n
        invariant
            i <= n == text@.len(),
            total + vstd::utf8::encode_utf8(text@.subrange(i as int, n as int)).len()
                == vstd::utf8::encode_utf8(text@).len(),
            total <= 4 * i,
        decreases n - i,
    {
        let v = text[i] as u32;
        let w: u128 = if v < 0x80 {
            1
        } else if v < 0x800 {
            2
        } else if v < 0x10000 {
            3
        } else {
            4
        };
        proof {
            vstd::utf8::char_is_scalar(text@[i as int]);
            let rest = text@.subrange(i as int, n as int);
            assert(rest[0] == text@[i as int]);
            assert(rest.drop_first() =~= text@.subrange(i + 1 as int, n as int));
            assert(vstd::utf8::encode_scalar(text@[i as int] as u32).len() == w);
        }
        total = total + w;
        i = i + 1;
    }
    proof {
        assert(text@.subrange(n as int, n as int) =~= Seq::<char>::empty());
    }
    total
}

} // verus!
