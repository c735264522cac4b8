use vstd::prelude::*;
use std::collections::hash_map::DefaultHasher;
use std::hash::{Hash, Hasher};

verus! {

/// The value that std's `DefaultHasher`, made fresh by `DefaultHasher::new`,
/// finishes with after hashing a string with these characters.
pub uninterp spec fn str_hash(s: Seq<char>) -> u64;

/// Hashes `s` (`<str as Hash>::hash`) into a fresh `DefaultHasher::new()` and
/// returns `finish()`.  `DefaultHasher::new` is documented to give the same
/// hasher on every call, so the value is a function of the characters alone;
/// which value it is, is not stated.
#[verifier::external_body]
pub(crate) fn hash_str(s: &str) -> (r: u64)
    ensures
        r == str_hash(s@),
{
    let mut h = DefaultHasher::new();
    s.hash(&mut h);
    h.finish()
}

/// The lowercase hexadecimal digit for `d` (0 to 15).
pub open spec fn hex_digit(d: nat) -> char {
    if d < 10 {
        (('0' as nat) + d) as char
    } else {
        (('a' as nat) + (d - 10)) as char
    }
}

/// `n` written in lowercase hexadecimal, without leading zeros ("0" for 0).
pub open spec fn hex_text(n: nat) -> Seq<char>
    decreases n,
{
    if n < 16 {
        seq![hex_digit(n)]
    } else {
        hex_text(n / 16).push(hex_digit(n % 16))
    }
}

fn hex_digit_char(d: u64) -> (c: char)
    requires
        d < 16,
    ensures
        c == hex_digit(d as nat),
{
    if d < 10 {
        let c = ('0' as u8 + d as u8) as char;
        c
    } else {
        let c = ('a' as u8 + (d - 10) as u8) as char;
        c
    }
}

/// `n` in lowercase hexadecimal, as `format!("{:x}", n)` writes it.
pub fn hex_string(n: u64) -> (s: String)
    ensures
        s@ == hex_text(n as nat),
{
    // digits, least significant first
    let mut rev: Vec<char> = Vec::new();
    let mut m = n;
    while m >= 16
        invariant
            // hex_text(n) == hex_text(m) followed by the reverse of rev
            hex_text(n as nat) == hex_text(m as nat) + rev@.reverse(),
        decreases m,
    {
        let d = m % 16;
        let c = hex_digit_char(d);
        proof {
            assert(hex_text(m as nat) == hex_text((m / 16) as nat).push(c));
            assert(rev@.push(c).reverse() =~= seq![c] + rev@.reverse());
            assert(hex_text((m / 16) as nat).push(c) + rev@.reverse() =~= hex_text((m / 16) as nat)
                + (seq![c] + rev@.reverse()));
        }
        rev.push(c);
        m = m / 16;
    }
    let first = hex_digit_char(m);
    let mut s = String::new();
    crate::text::push_char(&mut s, first);
    assert(s@ =~= hex_text(m as nat));
    let mut k = rev.len();
    while k > 0
        invariant
            k <= rev.len(),
            hex_text(n as nat) == hex_text(m as nat) + rev@.reverse(),
            s@ == hex_text(m as nat) + rev@.subrange(k as int, rev@.len() as int).reverse(),
        decreases k,
    {
        k -= 1;
        crate::text::push_char(&mut s, rev[k]);
        proof {
            let tail = rev@.subrange(k as int, rev@.len() as int);
            let tail1 = rev@.subrange(k + 1, rev@.len() as int);
            assert(tail =~= seq![rev@[k as int]] + tail1);
            assert(tail.reverse() =~= tail1.reverse().push(rev@[k as int]));
        }
    }
    assert(rev@.subrange(0, rev@.len() as int) =~= rev@);
    s
}

} // verus!
