//! Exact integer arithmetic for reward shares.
//!
//! A proportional share is `pool * km / total`, and the product of two
//! 128-bit numbers does not fit 128 bits. Everything here computes the
//! mathematically exact result and reports when that result leaves the
//! 128-bit range, instead of wrapping or trapping.

use vstd::arithmetic::div_mod::{
    lemma_div_is_ordered, lemma_div_multiples_vanish, lemma_fundamental_div_mod,
    lemma_fundamental_div_mod_converse,
};
use vstd::prelude::*;

verus! {

/// The largest integer that is not above the exact quotient `n / d`.
/// Meaningful for every divisor other than zero, of either sign.
pub open spec fn floor_div(n: int, d: int) -> int {
    if d > 0 {
        n / d
    } else {
        (-n) / (-d)
    }
}

/// Whether `x` can be held in an `i128`.
pub open spec fn fits_i128(x: int) -> bool {
    i128::MIN <= x <= i128::MAX
}

/// `x` as an `i128`, or `None` where it does not fit.
pub open spec fn narrow(x: int) -> Option<i128> {
    if fits_i128(x) {
        Some(x as i128)
    } else {
        None
    }
}

/// The absolute value of `x`, as a mathematical integer.
pub open spec fn abs(x: int) -> int {
    if x >= 0 {
        x
    } else {
        -x
    }
}

/// `floor_div` rounds down: `q = floor_div(n, d)` is the one integer with
/// `q <= n / d < q + 1`, written without fractions.
pub proof fn lemma_floor_div_bounds(n: int, d: int)
    requires
        d != 0,
    ensures
        d > 0 ==> floor_div(n, d) * d <= n < (floor_div(n, d) + 1) * d,
        d < 0 ==> floor_div(n, d) * d >= n > (floor_div(n, d) + 1) * d,
{
    if d > 0 {
        lemma_fundamental_div_mod(n, d);
        let q = n / d;
        let r = n % d;
        assert(0 <= r < d);
        assert(q * d <= n && n < (q + 1) * d) by (nonlinear_arith)
            requires
                n == d * q + r,
                0 <= r < d,
        ;
    } else {
        let m = -n;
        let e = -d;
        lemma_fundamental_div_mod(m, e);
        let q = m / e;
        let r = m % e;
        assert(0 <= r < e);
        assert(q * d >= n && n > (q + 1) * d) by (nonlinear_arith)
            requires
                -n == (-d) * q + r,
                0 <= r < -d,
        ;
    }
}

proof fn lemma_quotient_at_least(x: int, k: int, c: int)
    requires
        c > 0,
        x >= k * c,
    ensures
        x / c >= k,
{
    lemma_div_is_ordered(k * c, x, c);
    lemma_div_multiples_vanish(k, c);
    assert(c * k == k * c) by (nonlinear_arith);
}

proof fn lemma_div_of_negated(x: int, d: int)
    requires
        x >= 0,
        d > 0,
    ensures
        (-x) / d == -(x / d) - (if x % d > 0 { 1int } else { 0int }),
{
    lemma_fundamental_div_mod(x, d);
    let q = x / d;
    let r = x % d;
    assert(0 <= r < d);
    if r > 0 {
        assert(-x == (-q - 1) * d + (d - r)) by (nonlinear_arith)
            requires
                x == d * q + r,
        ;
        lemma_fundamental_div_mod_converse(-x, d, -q - 1, d - r);
    } else {
        assert(-x == (-q) * d + 0) by (nonlinear_arith)
            requires
                x == d * q + r,
                r == 0,
        ;
        lemma_fundamental_div_mod_converse(-x, d, -q, 0);
    }
}

proof fn lemma_merge_parts(
    a: int,
    c: int,
    q: int,
    r: int,
    low: int,
    qa: int,
    ra: int,
    pw: int,
    carry: int,
    r2: int,
)
    requires
        q * c + r == a * low,
        qa * c + ra == a * pw,
        r2 == r + ra - carry * c,
    ensures
        (q + qa + carry) * c + r2 == a * (low + pw),
{
    assert((q + qa + carry) * c + r2 == a * (low + pw)) by (nonlinear_arith)
        requires
            q * c + r == a * low,
            qa * c + ra == a * pw,
            r2 == r + ra - carry * c,
    ;
}

proof fn lemma_product_grows(a: int, x: int, y: int)
    requires
        a >= 0,
        x <= y,
    ensures
        a * x <= a * y,
{
    assert(a * x <= a * y) by (nonlinear_arith)
        requires
            a >= 0,
            x <= y,
    ;
}

/// Adds two residues below `c` and reduces the sum below `c` again,
/// without leaving the 128-bit range on the way.
fn add_reduce(x: u128, y: u128, c: u128) -> (out: (u128, u128))
    requires
        x < c,
        y < c,
    ensures
        out.1 <= 1,
        out.0 < c,
        out.0 == x + y - out.1 * c,
{
    if x >= c - y {
        (x - (c - y), 1)
    } else {
        (x + y, 0)
    }
}

/// Quotient and remainder of the full product `a * b` by `c`.
///
/// The product is never formed: the quotient and remainder of `a * 2^k`
/// are doubled bit by bit and summed for the bits that are set in `b`.
/// `None` says that the quotient is above `u128::MAX`.
fn mul_div_rem(a: u128, b: u128, c: u128) -> (out: Option<(u128, u128)>)
    requires
        c > 0,
    ensures
        match out {
            Some((q, r)) => q == (a * b) / (c as int) && r == (a * b) % (c as int),
            None => (a * b) / (c as int) > u128::MAX,
        },
{
    let mut n: u128 = b;
    let mut qa: u128 = a / c;
    let mut ra: u128 = a % c;
    let mut q: u128 = 0;
    let mut r: u128 = 0;
    let ghost mut pw: int = 1;
    let ghost mut low: int = 0;
    proof {
        lemma_fundamental_div_mod(a as int, c as int);
        assert(qa * c + ra == a * pw) by (nonlinear_arith)
            requires
                a == c * qa + ra,
                pw == 1,
        ;
        assert(q * c + r == a * low) by (nonlinear_arith)
            requires
                q == 0,
                r == 0,
                low == 0,
        ;
        assert(b == n * pw + low) by (nonlinear_arith)
            requires
                b == n,
                pw == 1,
                low == 0,
        ;
    }
    while n > 0
        invariant
            c > 0,
            pw >= 1,
            0 <= low < pw,
            b == n * pw + low,
            n > 0 ==> qa * c + ra == a * pw,
            ra < c,
            q * c + r == a * low,
            r < c,
        decreases n,
    {
        let ghost n_before = n;
        if n % 2 == 1 {
            let (r2, carry) = add_reduce(r, ra, c);
            proof {
                lemma_merge_parts(
                    a as int,
                    c as int,
                    q as int,
                    r as int,
                    low,
                    qa as int,
                    ra as int,
                    pw,
                    carry as int,
                    r2 as int,
                );
            }
            if q > u128::MAX - qa || q + qa > u128::MAX - carry {
                proof {
                    assert(low + pw <= b) by (nonlinear_arith)
                        requires
                            b == n * pw + low,
                            n >= 1,
                            pw >= 1,
                    ;
                    lemma_product_grows(a as int, low + pw, b as int);
                    assert((q + qa + carry) * c + r2 >= (u128::MAX + 1) * c) by (nonlinear_arith)
                        requires
                            q + qa + carry >= u128::MAX + 1,
                            c > 0,
                            r2 >= 0,
                    ;
                    lemma_quotient_at_least(a * b, u128::MAX + 1, c as int);
                }
                return None;
            }
            q = q + qa + carry;
            r = r2;
            proof {
                low = low + pw;
            }
        }
        n = n / 2;
        if n > 0 {
            let (ra2, carry) = add_reduce(ra, ra, c);
            proof {
                lemma_merge_parts(
                    a as int,
                    c as int,
                    qa as int,
                    ra as int,
                    pw,
                    qa as int,
                    ra as int,
                    pw,
                    carry as int,
                    ra2 as int,
                );
            }
            if qa > u128::MAX - qa || qa + qa > u128::MAX - carry {
                proof {
                    assert(pw + pw <= b) by (nonlinear_arith)
                        requires
                            b == n_before * pw + (if n_before % 2 == 1 { low - pw } else { low }),
                            n_before >= 2,
                            pw >= 1,
                            0 <= (if n_before % 2 == 1 { low - pw } else { low }),
                    ;
                    lemma_product_grows(a as int, pw + pw, b as int);
                    assert((qa + qa + carry) * c + ra2 >= (u128::MAX + 1) * c) by (nonlinear_arith)
                        requires
                            qa + qa + carry >= u128::MAX + 1,
                            c > 0,
                            ra2 >= 0,
                    ;
                    lemma_quotient_at_least(a * b, u128::MAX + 1, c as int);
                }
                return None;
            }
            qa = qa + qa + carry;
            ra = ra2;
        }
        proof {
            assert(b == n * (pw + pw) + low) by (nonlinear_arith)
                requires
                    b == n_before * pw + (if n_before % 2 == 1 { low - pw } else { low }),
                    n == n_before / 2,
                    n_before == 2 * (n_before / 2) + n_before % 2,
                    0 <= n_before % 2 <= 1,
            ;
            pw = pw + pw;
        }
    }
    proof {
        assert(a * b == q * c + r) by (nonlinear_arith)
            requires
                b == n * pw + low,
                n == 0,
                q * c + r == a * low,
        ;
        lemma_fundamental_div_mod_converse(a * b, c as int, q as int, r as int);
    }
    Some((q, r))
}

/// The absolute value of `x`; it fits `u128` for every `i128`.
pub fn magnitude(x: i128) -> (m: u128)
    ensures
        m == abs(x as int),
{
    if x >= 0 {
        x as u128
    } else if x == i128::MIN {
        0x8000_0000_0000_0000_0000_0000_0000_0000u128
    } else {
        (-x) as u128
    }
}

proof fn lemma_signed_product(a: int, b: int)
    ensures
        abs(a * b) == abs(a) * abs(b),
        (a * b < 0) == ((a < 0 && b > 0) || (a > 0 && b < 0)),
{
    assert(abs(a * b) == abs(a) * abs(b)) by (nonlinear_arith)
        requires
            abs(a) == (if a >= 0 { a } else { -a }),
            abs(b) == (if b >= 0 { b } else { -b }),
            abs(a * b) == (if a * b >= 0 { a * b } else { -(a * b) }),
    ;
    assert((a * b < 0) == ((a < 0 && b > 0) || (a > 0 && b < 0))) by (nonlinear_arith);
}

/// `floor(a * b / c)`, exact over the full product.
///
/// Returns the floor of the exact quotient wherever it fits an `i128`.
/// `None` comes for a zero divisor and for a quotient outside the
/// `i128` range, and for nothing else.
pub fn mul_div_floor(a: i128, b: i128, c: i128) -> (out: Option<i128>)
    ensures
        out == (if c == 0 {
            None
        } else {
            narrow(floor_div(a * b, c as int))
        }),
{
    if c == 0 {
        return None;
    }
    let ma = magnitude(a);
    let mb = magnitude(b);
    let mc = magnitude(c);
    let product_negative = (a < 0 && b > 0) || (a > 0 && b < 0);
    let downward = product_negative != (c < 0) && a != 0 && b != 0;
    let ghost p: int = a * b;
    let ghost n: int = if c > 0 { p } else { -p };
    proof {
        lemma_signed_product(a as int, b as int);
        assert(floor_div(p, c as int) == n / (mc as int));
        assert(a == 0 || b == 0 ==> p == 0) by (nonlinear_arith)
            requires
                p == a * b,
        ;
        assert(a != 0 && b != 0 ==> p != 0) by (nonlinear_arith)
            requires
                p == a * b,
        ;
        assert(downward ==> n == -(ma * mb) && ma * mb > 0);
        assert(!downward ==> n == ma * mb);
        if downward {
            lemma_div_of_negated(ma * mb, mc as int);
        }
    }
    match mul_div_rem(ma, mb, mc) {
        None => None,
        Some((q, r)) => {
            if !downward {
                if q <= i128::MAX as u128 {
                    Some(q as i128)
                } else {
                    None
                }
            } else {
                let extra: u128 = if r > 0 { 1 } else { 0 };
                if q > 0x8000_0000_0000_0000_0000_0000_0000_0000u128 - extra {
                    None
                } else if q + extra == 0x8000_0000_0000_0000_0000_0000_0000_0000u128 {
                    Some(i128::MIN)
                } else {
                    Some(-((q + extra) as i128))
                }
            }
        },
    }
}

} // verus!
