use vstd::prelude::*;
use std::cmp::Ordering;
use crate::text::chars_of;

verus! {

// ---------------------------------------------------------------------------
// The natural order of names, over character sequences.
//
// A name is read as alternating runs: a (possibly empty) run of non-digits,
// then a run of ASCII digits, then non-digits again, and so on.  Two names are
// compared run by run: text runs by plain character order, digit runs by their
// numeric value (leading zeros do not count), and a name that ends where the
// other goes on with a number comes first.
// ---------------------------------------------------------------------------

pub open spec fn is_digit(c: char) -> bool {
    '0' <= c && c <= '9'
}

/// Length of the leading run of non-digit characters.
pub open spec fn text_len(s: Seq<char>) -> nat
    decreases s.len(),
{
    if s.len() == 0 {
        0
    } else if is_digit(s[0]) {
        0
    } else {
        1 + text_len(s.drop_first())
    }
}

/// Length of the leading run of digit characters.
pub open spec fn digits_len(s: Seq<char>) -> nat
    decreases s.len(),
{
    if s.len() > 0 && is_digit(s[0]) {
        1 + digits_len(s.drop_first())
    } else {
        0
    }
}

/// `s` without its leading `'0'` characters.
pub open spec fn strip_zeros(s: Seq<char>) -> Seq<char>
    decreases s.len(),
{
    if s.len() > 0 && s[0] == '0' {
        strip_zeros(s.drop_first())
    } else {
        s
    }
}

/// Plain lexicographic order by character: -1, 0 or 1.
pub open spec fn lex_order(a: Seq<char>, b: Seq<char>) -> int
    decreases a.len(),
{
    if a.len() == 0 {
        if b.len() == 0 { 0 } else { -1 }
    } else if b.len() == 0 {
        1
    } else if a[0] < b[0] {
        -1
    } else if a[0] > b[0] {
        1
    } else {
        lex_order(a.drop_first(), b.drop_first())
    }
}

/// Order of two digit runs by numeric value: without leading zeros, the
/// shorter run is smaller, and runs of one length compare by character.
pub open spec fn number_order(x: Seq<char>, y: Seq<char>) -> int {
    let xs = strip_zeros(x);
    let ys = strip_zeros(y);
    if xs.len() < ys.len() {
        -1
    } else if xs.len() > ys.len() {
        1
    } else {
        lex_order(xs, ys)
    }
}

pub proof fn lemma_text_len_bound(s: Seq<char>)
    ensures
        text_len(s) <= s.len(),
        text_len(s) < s.len() ==> is_digit(s[text_len(s) as int]),
        forall|i: int| 0 <= i < text_len(s) ==> !is_digit(#[trigger] s[i]),
    decreases s.len(),
{
    if s.len() > 0 && !is_digit(s[0]) {
        lemma_text_len_bound(s.drop_first());
        assert forall|i: int| 0 <= i < text_len(s) implies !is_digit(#[trigger] s[i]) by {
            if i > 0 {
                assert(s[i] == s.drop_first()[i - 1]);
            }
        }
    }
}

pub proof fn lemma_digits_len_bound(s: Seq<char>)
    ensures
        digits_len(s) <= s.len(),
        s.len() > 0 && is_digit(s[0]) ==> digits_len(s) >= 1,
        forall|i: int| 0 <= i < digits_len(s) ==> is_digit(#[trigger] s[i]),
        digits_len(s) < s.len() ==> !is_digit(s[digits_len(s) as int]),
    decreases s.len(),
{
    if s.len() > 0 && is_digit(s[0]) {
        lemma_digits_len_bound(s.drop_first());
        assert forall|i: int| 0 <= i < digits_len(s) implies is_digit(#[trigger] s[i]) by {
            if i > 0 {
                assert(s[i] == s.drop_first()[i - 1]);
            }
        }
    }
}

// ---------------------------------------------------------------------------
// Digit runs are ordered by their numeric value.
// ---------------------------------------------------------------------------

/// The value of the decimal digit `c`.
pub open spec fn digit_value(c: char) -> int {
    (c as int) - ('0' as int)
}

/// Ten to the power `n`.
pub open spec fn pow10(n: nat) -> nat
    decreases n,
{
    if n == 0 {
        1
    } else {
        10 * pow10((n - 1) as nat)
    }
}

/// Whether every character of `s` is an ASCII digit.
pub open spec fn all_digits(s: Seq<char>) -> bool {
    forall|i: int| 0 <= i < s.len() ==> is_digit(#[trigger] s[i])
}

/// The number that the digits `s` write in decimal, of any length.
pub open spec fn digits_value(s: Seq<char>) -> int
    decreases s.len(),
{
    if s.len() == 0 {
        0
    } else {
        digit_value(s[0]) * pow10((s.len() - 1) as nat) + digits_value(s.drop_first())
    }
}

/// -1, 0 or 1 as `d` is negative, zero or positive.
pub open spec fn sign(d: int) -> int {
    if d < 0 {
        -1
    } else if d > 0 {
        1
    } else {
        0
    }
}

proof fn lemma_pow10_positive(n: nat)
    ensures
        pow10(n) >= 1,
    decreases n,
{
    if n > 0 {
        lemma_pow10_positive((n - 1) as nat);
    }
}

proof fn lemma_pow10_mono(a: nat, b: nat)
    requires
        a <= b,
    ensures
        pow10(a) <= pow10(b),
    decreases b,
{
    if a < b {
        lemma_pow10_mono(a, (b - 1) as nat);
        lemma_pow10_positive((b - 1) as nat);
    }
}

proof fn lemma_value_bounds(s: Seq<char>)
    requires
        all_digits(s),
    ensures
        0 <= digits_value(s) < pow10(s.len()),
        s.len() > 0 && s[0] != '0' ==> digits_value(s) >= pow10((s.len() - 1) as nat),
    decreases s.len(),
{
    if s.len() > 0 {
        let rest = s.drop_first();
        assert(all_digits(rest)) by {
            assert forall|i: int| 0 <= i < rest.len() implies is_digit(#[trigger] rest[i]) by {
                assert(rest[i] == s[i + 1]);
            }
        }
        lemma_value_bounds(rest);
        lemma_pow10_positive((s.len() - 1) as nat);
        let d = digit_value(s[0]);
        let p = pow10((s.len() - 1) as nat) as int;
        let r = digits_value(rest);
        assert(is_digit(s[0]));
        assert(0 <= d <= 9);
        assert(pow10(s.len()) == 10 * p);
        assert(0 <= d * p + r < 10 * p) by (nonlinear_arith)
            requires
                0 <= d <= 9,
                p >= 1,
                0 <= r < p,
        ;
        if s[0] != '0' {
            assert(d * p + r >= p) by (nonlinear_arith)
                requires
                    1 <= d,
                    p >= 1,
                    0 <= r,
            ;
        }
    }
}

proof fn lemma_strip_zeros_value(s: Seq<char>)
    requires
        all_digits(s),
    ensures
        all_digits(strip_zeros(s)),
        digits_value(strip_zeros(s)) == digits_value(s),
        strip_zeros(s).len() > 0 ==> strip_zeros(s)[0] != '0',
    decreases s.len(),
{
    if s.len() > 0 && s[0] == '0' {
        let rest = s.drop_first();
        assert(all_digits(rest)) by {
            assert forall|i: int| 0 <= i < rest.len() implies is_digit(#[trigger] rest[i]) by {
                assert(rest[i] == s[i + 1]);
            }
        }
        lemma_strip_zeros_value(rest);
        assert(digit_value(s[0]) == 0);
        assert(digits_value(s) == 0 * pow10((s.len() - 1) as nat) + digits_value(rest));
    }
}

proof fn lemma_lex_is_numeric(x: Seq<char>, y: Seq<char>)
    requires
        all_digits(x),
        all_digits(y),
        x.len() == y.len(),
    ensures
        lex_order(x, y) == sign(digits_value(x) - digits_value(y)),
    decreases x.len(),
{
    if x.len() > 0 {
        let (rx, ry) = (x.drop_first(), y.drop_first());
        assert(all_digits(rx)) by {
            assert forall|i: int| 0 <= i < rx.len() implies is_digit(#[trigger] rx[i]) by {
                assert(rx[i] == x[i + 1]);
            }
        }
        assert(all_digits(ry)) by {
            assert forall|i: int| 0 <= i < ry.len() implies is_digit(#[trigger] ry[i]) by {
                assert(ry[i] == y[i + 1]);
            }
        }
        lemma_value_bounds(rx);
        lemma_value_bounds(ry);
        let p = pow10((x.len() - 1) as nat) as int;
        let (dx, dy) = (digit_value(x[0]), digit_value(y[0]));
        let (vx, vy) = (digits_value(rx), digits_value(ry));
        assert(is_digit(x[0]) && is_digit(y[0]));
        if x[0] < y[0] {
            assert(dx < dy);
            assert(dx * p + vx < dy * p + vy) by (nonlinear_arith)
                requires
                    dx < dy,
                    0 <= vx < p,
                    0 <= vy,
            ;
        } else if x[0] > y[0] {
            assert(dx > dy);
            assert(dx * p + vx > dy * p + vy) by (nonlinear_arith)
                requires
                    dx > dy,
                    0 <= vy < p,
                    0 <= vx,
            ;
        } else {
            lemma_lex_is_numeric(rx, ry);
        }
    } else {
        assert(lex_order(x, y) == 0);
    }
}

/// Two runs of digits compare by the numbers they write: leading zeros
/// do not count, and no length limits the numbers.
pub proof fn lemma_number_order_is_numeric(x: Seq<char>, y: Seq<char>)
    requires
        all_digits(x),
        all_digits(y),
    ensures
        number_order(x, y) == sign(digits_value(x) - digits_value(y)),
{
    lemma_strip_zeros_value(x);
    lemma_strip_zeros_value(y);
    let (xs, ys) = (strip_zeros(x), strip_zeros(y));
    lemma_value_bounds(xs);
    lemma_value_bounds(ys);
    if xs.len() < ys.len() {
        lemma_pow10_mono(xs.len(), (ys.len() - 1) as nat);
    } else if xs.len() > ys.len() {
        lemma_pow10_mono(ys.len(), (xs.len() - 1) as nat);
    } else {
        lemma_lex_is_numeric(xs, ys);
    }
}

proof fn lemma_text_len_of_prefixed(p: Seq<char>, x: Seq<char>)
    requires
        forall|i: int| 0 <= i < p.len() ==> !is_digit(#[trigger] p[i]),
        x.len() > 0,
        is_digit(x[0]),
    ensures
        text_len(p + x) == p.len(),
    decreases p.len(),
{
    if p.len() > 0 {
        assert((p + x).drop_first() =~= p.drop_first() + x);
        assert((p + x)[0] == p[0]);
        lemma_text_len_of_prefixed(p.drop_first(), x);
    } else {
        assert(p + x =~= x);
    }
}

proof fn lemma_digits_len_all(x: Seq<char>)
    requires
        all_digits(x),
    ensures
        digits_len(x) == x.len(),
    decreases x.len(),
{
    if x.len() > 0 {
        let rest = x.drop_first();
        assert(all_digits(rest)) by {
            assert forall|i: int| 0 <= i < rest.len() implies is_digit(#[trigger] rest[i]) by {
                assert(rest[i] == x[i + 1]);
            }
        }
        lemma_digits_len_all(rest);
    }
}

/// Names that differ only in a number that ends them are in the order of
/// those numbers, however long: after the same digit-free prefix `p`, the
/// digit runs `x` and `y` of different values order the names as their
/// values.
pub proof fn lemma_natural_order_numbers(p: Seq<char>, x: Seq<char>, y: Seq<char>)
    requires
        forall|i: int| 0 <= i < p.len() ==> !is_digit(#[trigger] p[i]),
        x.len() > 0,
        y.len() > 0,
        all_digits(x),
        all_digits(y),
        digits_value(x) != digits_value(y),
    ensures
        natural_order(p + x, p + y) == sign(digits_value(x) - digits_value(y)),
{
    assert(is_digit(x[0]) && is_digit(y[0]));
    lemma_text_len_of_prefixed(p, x);
    lemma_text_len_of_prefixed(p, y);
    let (a, b) = (p + x, p + y);
    assert(a.take(p.len() as int) =~= p);
    assert(b.take(p.len() as int) =~= p);
    lemma_lex_refl(p);
    assert(a.skip(p.len() as int) =~= x);
    assert(b.skip(p.len() as int) =~= y);
    lemma_digits_len_all(x);
    lemma_digits_len_all(y);
    assert(x.take(x.len() as int) =~= x);
    assert(y.take(y.len() as int) =~= y);
    lemma_number_order_is_numeric(x, y);
}

/// The natural order of two names: -1, 0 or 1.
pub open spec fn natural_order(a: Seq<char>, b: Seq<char>) -> int
    decreases a.len() + b.len(),
{
    let ta = text_len(a);
    let tb = text_len(b);
    let t = lex_order(a.take(ta as int), b.take(tb as int));
    if t != 0 {
        t
    } else if ta >= a.len() {
        if tb >= b.len() { 0 } else { -1 }
    } else if tb >= b.len() {
        1
    } else {
        let ra = a.skip(ta as int);
        let rb = b.skip(tb as int);
        let da = digits_len(ra);
        let db = digits_len(rb);
        let n = number_order(ra.take(da as int), rb.take(db as int));
        if n != 0 {
            n
        } else {
            proof {
                lemma_text_len_bound(a);
                lemma_text_len_bound(b);
                lemma_digits_len_bound(ra);
                lemma_digits_len_bound(rb);
            }
            natural_order(ra.skip(da as int), rb.skip(db as int))
        }
    }
}


// ---------------------------------------------------------------------------
// Laws of the component orders.
// ---------------------------------------------------------------------------

proof fn lemma_lex_refl(a: Seq<char>)
    ensures
        lex_order(a, a) == 0,
    decreases a.len(),
{
    if a.len() > 0 {
        lemma_lex_refl(a.drop_first());
    }
}

proof fn lemma_lex_antisym(a: Seq<char>, b: Seq<char>)
    ensures
        lex_order(a, b) == -lex_order(b, a),
    decreases a.len(),
{
    if a.len() > 0 && b.len() > 0 && a[0] == b[0] {
        lemma_lex_antisym(a.drop_first(), b.drop_first());
    }
}

proof fn lemma_lex_zero(a: Seq<char>, b: Seq<char>)
    ensures
        lex_order(a, b) == 0 <==> a == b,
    decreases a.len(),
{
    if a.len() == 0 && b.len() == 0 {
        assert(a =~= b);
    } else if a == b {
        lemma_lex_refl(a);
    } else if a.len() > 0 && b.len() > 0 && a[0] == b[0] {
        lemma_lex_zero(a.drop_first(), b.drop_first());
        if a.drop_first() == b.drop_first() {
            assert(a =~= b) by {
                assert forall|i: int| 0 <= i < a.len() implies a[i] == b[i] by {
                    if i > 0 {
                        assert(a[i] == a.drop_first()[i - 1]);
                        assert(b[i] == b.drop_first()[i - 1]);
                    }
                }
            }
        }
    }
}

proof fn lemma_lex_trans(a: Seq<char>, b: Seq<char>, c: Seq<char>)
    requires
        lex_order(a, b) <= 0,
        lex_order(b, c) <= 0,
    ensures
        lex_order(a, c) <= 0,
    decreases a.len(),
{
    if a.len() > 0 && b.len() > 0 && c.len() > 0 && a[0] == b[0] && b[0] == c[0] {
        lemma_lex_trans(a.drop_first(), b.drop_first(), c.drop_first());
    }
}

proof fn lemma_number_laws(x: Seq<char>, y: Seq<char>, z: Seq<char>)
    ensures
        number_order(x, x) == 0,
        number_order(x, y) == -number_order(y, x),
        number_order(x, y) == 0 <==> strip_zeros(x) == strip_zeros(y),
        number_order(x, y) <= 0 && number_order(y, z) <= 0 ==> number_order(x, z) <= 0,
{
    let (xs, ys, zs) = (strip_zeros(x), strip_zeros(y), strip_zeros(z));
    lemma_lex_refl(xs);
    lemma_lex_antisym(xs, ys);
    lemma_lex_zero(xs, ys);
    if number_order(x, y) <= 0 && number_order(y, z) <= 0 && xs.len() == ys.len() && ys.len()
        == zs.len() {
        lemma_lex_trans(xs, ys, zs);
    }
}

proof fn lemma_lex_strict(a: Seq<char>, b: Seq<char>, c: Seq<char>)
    requires
        lex_order(a, b) <= 0,
        lex_order(b, c) <= 0,
        lex_order(a, b) < 0 || lex_order(b, c) < 0,
    ensures
        lex_order(a, c) < 0,
{
    lemma_lex_trans(a, b, c);
    lemma_lex_zero(a, c);
    lemma_lex_antisym(a, b);
    lemma_lex_antisym(b, c);
    if a == c {
        lemma_lex_zero(a, b);
        lemma_lex_zero(b, c);
    }
}

proof fn lemma_number_strict(x: Seq<char>, y: Seq<char>, z: Seq<char>)
    requires
        number_order(x, y) <= 0,
        number_order(y, z) <= 0,
        number_order(x, y) < 0 || number_order(y, z) < 0,
    ensures
        number_order(x, z) < 0,
{
    lemma_number_laws(x, y, z);
    lemma_number_laws(x, z, y);
    lemma_number_laws(y, z, x);
    lemma_number_laws(z, x, y);
    if strip_zeros(x) == strip_zeros(z) {
        lemma_number_laws(z, y, x);
    }
}

// ---------------------------------------------------------------------------
// Laws of the natural order.
// ---------------------------------------------------------------------------

/// Every name is equivalent to itself under the natural order.
pub proof fn lemma_natural_reflexive(a: Seq<char>)
    ensures
        natural_order(a, a) == 0,
    decreases a.len(),
{
    let ta = text_len(a);
    lemma_text_len_bound(a);
    lemma_lex_refl(a.take(ta as int));
    if ta < a.len() {
        let ra = a.skip(ta as int);
        let da = digits_len(ra);
        lemma_digits_len_bound(ra);
        lemma_number_laws(ra.take(da as int), ra.take(da as int), ra.take(da as int));
        lemma_natural_reflexive(ra.skip(da as int));
    }
}

/// Swapping the two names reverses their natural order.
pub proof fn lemma_natural_antisymmetric(a: Seq<char>, b: Seq<char>)
    ensures
        natural_order(a, b) == -natural_order(b, a),
    decreases a.len() + b.len(),
{
    let ta = text_len(a);
    let tb = text_len(b);
    lemma_text_len_bound(a);
    lemma_text_len_bound(b);
    lemma_lex_antisym(a.take(ta as int), b.take(tb as int));
    if ta < a.len() && tb < b.len() {
        let ra = a.skip(ta as int);
        let rb = b.skip(tb as int);
        let da = digits_len(ra);
        let db = digits_len(rb);
        lemma_digits_len_bound(ra);
        lemma_digits_len_bound(rb);
        lemma_number_laws(ra.take(da as int), rb.take(db as int), rb.take(db as int));
        lemma_natural_antisymmetric(ra.skip(da as int), rb.skip(db as int));
    }
}

/// The natural order is transitive: if `a` comes no later than `b`, and `b`
/// no later than `c`, then `a` comes no later than `c`.
pub proof fn lemma_natural_transitive(a: Seq<char>, b: Seq<char>, c: Seq<char>)
    requires
        natural_order(a, b) <= 0,
        natural_order(b, c) <= 0,
    ensures
        natural_order(a, c) <= 0,
    decreases a.len() + b.len() + c.len(),
{
    let ta = text_len(a);
    let tb = text_len(b);
    let tc = text_len(c);
    lemma_text_len_bound(a);
    lemma_text_len_bound(b);
    lemma_text_len_bound(c);
    let (xa, xb, xc) = (a.take(ta as int), b.take(tb as int), c.take(tc as int));
    lemma_lex_antisym(xa, xb);
    lemma_lex_antisym(xb, xc);
    lemma_lex_zero(xa, xb);
    lemma_lex_zero(xb, xc);
    lemma_lex_zero(xa, xc);
    if lex_order(xa, xb) < 0 || lex_order(xb, xc) < 0 {
        lemma_lex_strict(xa, xb, xc);
    } else if ta < a.len() && tb < b.len() && tc < c.len() {
        let ra = a.skip(ta as int);
        let rb = b.skip(tb as int);
        let rc = c.skip(tc as int);
        let da = digits_len(ra);
        let db = digits_len(rb);
        let dc = digits_len(rc);
        lemma_digits_len_bound(ra);
        lemma_digits_len_bound(rb);
        lemma_digits_len_bound(rc);
        let (na, nb, nc) = (ra.take(da as int), rb.take(db as int), rc.take(dc as int));
        lemma_number_laws(na, nb, nc);
        lemma_number_laws(na, nc, nb);
        if number_order(na, nb) < 0 || number_order(nb, nc) < 0 {
            lemma_number_strict(na, nb, nc);
        } else {
            lemma_natural_transitive(ra.skip(da as int), rb.skip(db as int), rc.skip(dc as int));
        }
    }
}

pub proof fn lemma_natural_range(a: Seq<char>, b: Seq<char>)
    ensures
        -1 <= natural_order(a, b) <= 1,
    decreases a.len() + b.len(),
{
    lemma_lex_range(a.take(text_len(a) as int), b.take(text_len(b) as int));
    lemma_text_len_bound(a);
    lemma_text_len_bound(b);
    if text_len(a) < a.len() && text_len(b) < b.len() {
        let ra = a.skip(text_len(a) as int);
        let rb = b.skip(text_len(b) as int);
        lemma_digits_len_bound(ra);
        lemma_digits_len_bound(rb);
        lemma_lex_range(strip_zeros(ra.take(digits_len(ra) as int)), strip_zeros(rb.take(digits_len(rb) as int)));
        lemma_natural_range(ra.skip(digits_len(ra) as int), rb.skip(digits_len(rb) as int));
    }
}

proof fn lemma_lex_range(a: Seq<char>, b: Seq<char>)
    ensures
        -1 <= lex_order(a, b) <= 1,
    decreases a.len(),
{
    if a.len() > 0 && b.len() > 0 && a[0] == b[0] {
        lemma_lex_range(a.drop_first(), b.drop_first());
    }
}

// ---------------------------------------------------------------------------
// Executable comparison.
// ---------------------------------------------------------------------------

fn is_digit_char(c: char) -> (r: bool)
    ensures
        r == is_digit(c),
{
    c >= '0' && c <= '9'
}

/// End of the run of non-digits that starts at `start`.
fn text_end(s: &Vec<char>, start: usize) -> (e: usize)
    requires
        start <= s.len(),
    ensures
        e == start + text_len(s@.skip(start as int)),
        e <= s.len(),
{
    let mut k = start;
    while k < s.len() && !is_digit_char(s[k])
        invariant
            start <= k <= s.len(),
            text_len(s@.skip(start as int)) == (k - start) + text_len(s@.skip(k as int)),
        decreases s.len() - k,
    {
        assert(s@.skip(k as int).drop_first() =~= s@.skip(k + 1));
        k += 1;
    }
    if k < s.len() {
        assert(s@.skip(k as int)[0] == s@[k as int]);
    } else {
        assert(s@.skip(k as int).len() == 0);
    }
    k
}

/// End of the run of digits that starts at `start`.
fn digits_end(s: &Vec<char>, start: usize) -> (e: usize)
    requires
        start <= s.len(),
    ensures
        e == start + digits_len(s@.skip(start as int)),
        e <= s.len(),
{
    let mut k = start;
    while k < s.len() && is_digit_char(s[k])
        invariant
            start <= k <= s.len(),
            digits_len(s@.skip(start as int)) == (k - start) + digits_len(s@.skip(k as int)),
        decreases s.len() - k,
    {
        assert(s@.skip(k as int).drop_first() =~= s@.skip(k + 1));
        k += 1;
    }
    if k < s.len() {
        assert(s@.skip(k as int)[0] == s@[k as int]);
    }
    k
}

/// First position in `start..end` that does not hold a `'0'`, or `end`.
fn zeros_end(s: &Vec<char>, start: usize, end: usize) -> (z: usize)
    requires
        start <= end <= s.len(),
    ensures
        start <= z <= end,
        s@.subrange(z as int, end as int) == strip_zeros(s@.subrange(start as int, end as int)),
{
    let mut k = start;
    while k < end && s[k] == '0'
        invariant
            start <= k <= end,
            end <= s.len(),
            strip_zeros(s@.subrange(start as int, end as int)) == strip_zeros(
                s@.subrange(k as int, end as int),
            ),
        decreases end - k,
    {
        assert(s@.subrange(k as int, end as int).drop_first() =~= s@.subrange(k + 1, end as int));
        k += 1;
    }
    k
}

/// Lexicographic order of `a[a0..a1]` and `b[b0..b1]`.
fn lex_range(a: &Vec<char>, a0: usize, a1: usize, b: &Vec<char>, b0: usize, b1: usize) -> (r: i8)
    requires
        a0 <= a1 <= a.len(),
        b0 <= b1 <= b.len(),
    ensures
        r == lex_order(a@.subrange(a0 as int, a1 as int), b@.subrange(b0 as int, b1 as int)),
{
    let mut i = a0;
    let mut j = b0;
    while i < a1 && j < b1 && a[i] == b[j]
        invariant
            a0 <= i <= a1,
            b0 <= j <= b1,
            i - a0 == j - b0,
            a1 <= a.len(),
            b1 <= b.len(),
            lex_order(a@.subrange(a0 as int, a1 as int), b@.subrange(b0 as int, b1 as int))
                == lex_order(a@.subrange(i as int, a1 as int), b@.subrange(j as int, b1 as int)),
        decreases a1 - i,
    {
        assert(a@.subrange(i as int, a1 as int).drop_first() =~= a@.subrange(i + 1, a1 as int));
        assert(b@.subrange(j as int, b1 as int).drop_first() =~= b@.subrange(j + 1, b1 as int));
        i += 1;
        j += 1;
    }
    if i < a1 && j < b1 {
        if a[i] < b[j] {
            -1
        } else {
            1
        }
    } else if i < a1 {
        1
    } else if j < b1 {
        -1
    } else {
        0
    }
}

/// Natural order of two names held as characters: -1, 0 or 1.
pub fn natural_compare(a: &Vec<char>, b: &Vec<char>) -> (r: i8)
    ensures
        r == natural_order(a@, b@),
{
    let mut i: usize = 0;
    let mut j: usize = 0;
    assert(a@.skip(0) =~= a@);
    assert(b@.skip(0) =~= b@);
    loop
        invariant
            i <= a.len(),
            j <= b.len(),
            natural_order(a@, b@) == natural_order(a@.skip(i as int), b@.skip(j as int)),
        decreases a.len() - i + b.len() - j,
    {
        let ghost sa = a@.skip(i as int);
        let ghost sb = b@.skip(j as int);
        proof {
            lemma_text_len_bound(sa);
            lemma_text_len_bound(sb);
        }
        let pa = text_end(a, i);
        let pb = text_end(b, j);
        assert(sa.take(text_len(sa) as int) =~= a@.subrange(i as int, pa as int));
        assert(sb.take(text_len(sb) as int) =~= b@.subrange(j as int, pb as int));
        let t = lex_range(a, i, pa, b, j, pb);
        if t != 0 {
            return t;
        }
        if pa == a.len() {
            if pb == b.len() {
                return 0;
            } else {
                return -1;
            }
        }
        if pb == b.len() {
            return 1;
        }
        let ghost ra = sa.skip(text_len(sa) as int);
        let ghost rb = sb.skip(text_len(sb) as int);
        assert(ra =~= a@.skip(pa as int));
        assert(rb =~= b@.skip(pb as int));
        proof {
            lemma_digits_len_bound(ra);
            lemma_digits_len_bound(rb);
        }
        let ea = digits_end(a, pa);
        let eb = digits_end(b, pb);
        assert(ra.take(digits_len(ra) as int) =~= a@.subrange(pa as int, ea as int));
        assert(rb.take(digits_len(rb) as int) =~= b@.subrange(pb as int, eb as int));
        let za = zeros_end(a, pa, ea);
        let zb = zeros_end(b, pb, eb);
        let la = ea - za;
        let lb = eb - zb;
        let n: i8 = if la < lb {
            -1
        } else if la > lb {
            1
        } else {
            lex_range(a, za, ea, b, zb, eb)
        };
        if n != 0 {
            return n;
        }
        assert(ra.skip(digits_len(ra) as int) =~= a@.skip(ea as int));
        assert(rb.skip(digits_len(rb) as int) =~= b@.skip(eb as int));
        i = ea;
        j = eb;
    }
}

/// Compares two names in natural order: runs of ASCII digits compare by
/// their numeric value, everything else character by character.
pub fn natcmp(a: &str, b: &str) -> (r: Ordering)
    ensures
        r == Ordering::Less <==> natural_order(a@, b@) < 0,
        r == Ordering::Equal <==> natural_order(a@, b@) == 0,
        r == Ordering::Greater <==> natural_order(a@, b@) > 0,
{
    let va = chars_of(a);
    let vb = chars_of(b);
    let c = natural_compare(&va, &vb);
    if c < 0 {
        Ordering::Less
    } else if c == 0 {
        Ordering::Equal
    } else {
        Ordering::Greater
    }
}

} // verus!
