//! Exact 256-bit intermediate arithmetic over `u128` operands.
//!
//! The pool engines mirror on-chain fixed-point math, whose products do not
//! fit a machine word.  `Wide` is a double-word value; `mul_u128` forms the
//! exact product of two words and `div_wide` divides it back down, so
//! `mul_div` computes `floor(a * b / c)` with no intermediate loss.
use vstd::prelude::*;

verus! {

use vstd::arithmetic::div_mod::lemma_fundamental_div_mod;
use vstd::arithmetic::div_mod::lemma_div_is_ordered;
use vstd::arithmetic::power2::pow2;
use vstd::arithmetic::power2::lemma_pow2_adds;
use vstd::arithmetic::power2::lemma_pow2_pos;

/// 2^64, the limb base for double-word multiplication.
pub const B64: u128 = 0x1_0000_0000_0000_0000;

/// 2^127, the threshold above which doubling a `u128` overflows.
pub const B127: u128 = 0x8000_0000_0000_0000_0000_0000_0000_0000;

/// 2^128 as a mathematical integer, the weight of the high word.
pub open spec fn p128() -> int {
    0x1_0000_0000_0000_0000_0000_0000_0000_0000int
}

/// An unsigned 256-bit value as two 128-bit words.
#[derive(Clone, Copy, PartialEq, Eq, Structural, Debug)]
pub struct Wide {
    pub hi: u128,
    pub lo: u128,
}

impl Wide {
    /// The integer this double word denotes.
    pub open spec fn wval(self) -> int {
        self.hi * p128() + self.lo
    }
}

/// The exact 256-bit product of two words.
pub fn mul_u128(a: u128, b: u128) -> (r: Wide)
    ensures
        r.wval() == a * b,
{
    let a1 = a / B64;
    let a0 = a % B64;
    let b1 = b / B64;
    let b0 = b % B64;
    proof {
        lemma_fundamental_div_mod(a as int, B64 as int);
        lemma_fundamental_div_mod(b as int, B64 as int);
        assert(a1 < B64 && a0 < B64 && b1 < B64 && b0 < B64);
        assert(a1 * b1 <= (B64 - 1) * (B64 - 1) && a1 * b0 <= (B64 - 1) * (B64 - 1) && a0 * b1
            <= (B64 - 1) * (B64 - 1) && a0 * b0 <= (B64 - 1) * (B64 - 1)) by (nonlinear_arith)
            requires
                a1 < B64 && a0 < B64 && b1 < B64 && b0 < B64,
        ;
    }
    let ll = a0 * b0;
    let lh = a0 * b1;
    let hl = a1 * b0;
    let hh = a1 * b1;
    let m = (ll / B64) + (lh % B64) + (hl % B64);
    let lo = (ll % B64) + (m % B64) * B64;
    proof {
        lemma_fundamental_div_mod(ll as int, B64 as int);
        lemma_fundamental_div_mod(lh as int, B64 as int);
        lemma_fundamental_div_mod(hl as int, B64 as int);
        lemma_fundamental_div_mod(m as int, B64 as int);
    }
    let hi = hh + (lh / B64) + (hl / B64) + (m / B64);
    proof {
        assert(hi * p128() + lo == a * b)
            by (nonlinear_arith)
            requires
                a == a1 * B64 + a0,
                b == b1 * B64 + b0,
                ll == a0 * b0,
                lh == a0 * b1,
                hl == a1 * b0,
                hh == a1 * b1,
                m == (ll / B64) + (lh % B64) + (hl % B64),
                ll == (ll / B64) * B64 + ll % B64,
                lh == (lh / B64) * B64 + lh % B64,
                hl == (hl / B64) * B64 + hl % B64,
                m == (m / B64) * B64 + m % B64,
                lo == (ll % B64) + (m % B64) * B64,
                hi == hh + (lh / B64) + (hl / B64) + (m / B64),
                B64 == 0x1_0000_0000_0000_0000,
                p128() == 0x1_0000_0000_0000_0000_0000_0000_0000_0000int,
        ;
    }
    Wide { hi, lo }
}

/// `a >= b` on double words.
fn ge_wide(a: &Wide, b: &Wide) -> (r: bool)
    ensures
        r == (a.wval() >= b.wval()),
{
    a.hi > b.hi || (a.hi == b.hi && a.lo >= b.lo)
}

/// Exact double-word subtraction.
fn sub_wide(a: &Wide, b: &Wide) -> (r: Wide)
    requires
        a.wval() >= b.wval(),
    ensures
        r.wval() == a.wval() - b.wval(),
{
    if a.lo >= b.lo {
        Wide { hi: a.hi - b.hi, lo: a.lo - b.lo }
    } else {
        Wide { hi: a.hi - b.hi - 1, lo: (u128::MAX - b.lo) + a.lo + 1 }
    }
}

/// Exact doubling; the top bit must be clear.
fn shl1(a: &Wide) -> (r: Wide)
    requires
        a.hi < B127,
    ensures
        r.wval() == 2 * a.wval(),
{
    let carry = a.lo / B127;
    let r = Wide { hi: a.hi * 2 + carry, lo: (a.lo % B127) * 2 };
    proof {
        lemma_fundamental_div_mod(a.lo as int, B127 as int);
    }
    r
}

/// Exact halving of an even double word.
#[verifier::rlimit(50)]
fn shr1(a: &Wide) -> (r: Wide)
    requires
        a.wval() % 2 == 0,
    ensures
        r.wval() == a.wval() / 2,
        2 * r.wval() == a.wval(),
{
    let r = Wide { hi: a.hi / 2, lo: a.lo / 2 + (a.hi % 2) * B127 };
    proof {
        lemma_fundamental_div_mod(a.hi as int, 2);
        lemma_fundamental_div_mod(a.lo as int, 2);
        assert(r.wval() * 2 == a.wval() - a.lo % 2);
        assert(a.lo % 2 == 0);
    }
    r
}

/// Division of a double word by a nonzero word: quotient and remainder.
/// `None` exactly when the quotient does not fit a `u128`.
pub fn div_wide(n: &Wide, c: u128) -> (r: Option<(u128, u128)>)
    requires
        c > 0,
    ensures
        match r {
            Some(qr) => n.wval() == qr.0 * c + qr.1 && qr.1 < c,
            None => n.wval() >= c * p128(),
        },
{
    if n.hi == 0 {
        let q = n.lo / c;
        let rem = n.lo % c;
        proof {
            lemma_fundamental_div_mod(n.lo as int, c as int);
            assert(c * (n.lo as int / c as int) == (n.lo as int / c as int) * c)
                by (nonlinear_arith);
        }
        return Some((q, rem));
    }
    // Align: double the divisor until one more doubling would pass the dividend.
    let mut d = Wide { hi: 0, lo: c };
    let ghost mut k: nat = 0;
    proof {
        vstd::arithmetic::power2::lemma2_to64();
    }
    loop
        invariant
            c > 0,
            d.wval() == c * pow2(k),
            d.wval() <= n.wval(),
        ensures
            d.wval() == c * pow2(k),
            d.wval() <= n.wval(),
            n.wval() < 2 * d.wval(),
        decreases n.wval() - d.wval(),
    {
        proof {
            lemma_pow2_pos(k);
            assert(d.wval() > 0) by (nonlinear_arith)
                requires
                    c > 0,
                    pow2(k) > 0,
                    d.wval() == c * pow2(k),
            ;
        }
        if d.hi >= B127 {
            // 2*d >= 2^256 > n
            break ;
        }
        let d2 = shl1(&d);
        if !ge_wide(n, &d2) {
            break ;
        }
        proof {
            lemma_pow2_adds(k, 1);
            vstd::arithmetic::power2::lemma2_to64();
            assert(d2.wval() == c * pow2(k + 1)) by (nonlinear_arith)
                requires
                    d2.wval() == 2 * d.wval(),
                    d.wval() == c * pow2(k),
                    pow2(k + 1) == pow2(k) * pow2(1),
                    pow2(1) == 2,
            ;
            k = k + 1;
        }
        d = d2;
    }
    // Restoring division, one quotient bit per halving of the divisor.
    let mut q: u128 = 0;
    let mut rem = Wide { hi: n.hi, lo: n.lo };
    let ghost nval: int = n.wval();
    loop
        invariant_except_break
            c > 0,
            d.wval() == c * pow2(k),
            rem.wval() < 2 * d.wval(),
            rem.wval() >= 0,
            nval == n.wval(),
            nval == q * (2 * d.wval()) + rem.wval(),
        ensures
            nval == q * c + rem.wval() && rem.wval() < c,
        decreases k,
    {
        let ghost dv = d.wval();
        let ghost qold = q as int;
        let ghost remold = rem.wval();
        proof {
            lemma_pow2_pos(k);
            assert(d.wval() > 0) by (nonlinear_arith)
                requires
                    c > 0,
                    pow2(k) > 0,
                    d.wval() == c * pow2(k),
            ;
        }
        let bit: u128;
        if ge_wide(&rem, &d) {
            rem = sub_wide(&rem, &d);
            bit = 1;
        } else {
            bit = 0;
        }
        proof {
            assert(nval == qold * (2 * dv) + bit * dv + rem.wval());
            assert(rem.wval() < dv);
        }
        if q >= B127 {
            proof {
                assert(nval >= (2 * (q as int) + bit) * d.wval()) by (nonlinear_arith)
                    requires
                        nval == q * (2 * d.wval()) + bit * d.wval() + rem.wval(),
                        rem.wval() >= 0,
                        d.wval() > 0,
                ;
                assert((2 * (q as int) + bit) * d.wval() >= (2 * (B127 as int)) * (c * pow2(k)))
                    by (nonlinear_arith)
                    requires
                        q >= B127,
                        bit >= 0,
                        d.wval() == c * pow2(k),
                        d.wval() > 0,
                ;
                assert((2 * (B127 as int)) * (c * pow2(k)) >= c * p128()) by (nonlinear_arith)
                    requires
                        pow2(k) >= 1,
                        c > 0,
                ;
            }
            return None;
        }
        q = 2 * q + bit;
        proof {
            assert(nval == (2 * qold + bit) * dv + rem.wval()) by (nonlinear_arith)
                requires
                    nval == qold * (2 * dv) + bit * dv + rem.wval(),
            ;
        }
        if d.hi == 0 && d.lo == c {
            // Divisor is back to c itself: the last bit has been placed.
            proof {
                assert(nval == q * c + rem.wval());
            }
            break ;
        }
        proof {
            // d > c means pow2(k) > 1, so k >= 1 and d is even.
            vstd::arithmetic::power2::lemma2_to64();
            assert(d.wval() != c);
            assert(pow2(k) != 1) by (nonlinear_arith)
                requires
                    d.wval() == c * pow2(k),
                    d.wval() != c,
                    c > 0,
            ;
            assert(k >= 1) by {
                if k == 0 {
                    assert(pow2(0) == 1);
                }
            }
            lemma_pow2_adds((k - 1) as nat, 1);
            assert(d.wval() == (c * pow2((k - 1) as nat)) * 2) by (nonlinear_arith)
                requires
                    d.wval() == c * pow2(k),
                    pow2(k) == pow2((k - 1) as nat) * pow2(1),
                    pow2(1) == 2,
            ;
        }
        d = shr1(&d);
        proof {
            assert(d.wval() == c * pow2((k - 1) as nat)) by (nonlinear_arith)
                requires
                    2 * d.wval() == dv,
                    dv == (c * pow2((k - 1) as nat)) * 2,
            ;
            k = (k - 1) as nat;
            assert(nval == q * (2 * d.wval()) + rem.wval());
        }
    }
    proof {
        assert(rem.hi == 0);
    }
    Some((q, rem.lo))
}

/// `floor(a * b / c)` with an exact 256-bit intermediate product.
/// `None` exactly when `c` is zero or the quotient does not fit a `u128`.
pub fn mul_div(a: u128, b: u128, c: u128) -> (r: Option<u128>)
    ensures
        match r {
            Some(q) => c > 0 && q == (a * b) / (c as int),
            None => c == 0 || (a * b) / (c as int) >= p128(),
        },
{
    if c == 0 {
        return None;
    }
    let p = mul_u128(a, b);
    proof {
        assert(p.wval() >= 0);
    }
    match div_wide(&p, c) {
        Some((q, rem)) => {
            proof {
                vstd::arithmetic::div_mod::lemma_fundamental_div_mod_converse(
                    p.wval(),
                    c as int,
                    q as int,
                    rem as int,
                );
            }
            Some(q)
        },
        None => {
            proof {
                assert((a * b) / (c as int) >= p128()) by {
                    vstd::arithmetic::div_mod::lemma_div_multiples_vanish(p128(), c as int);
                    lemma_div_is_ordered(c * p128(), p.wval(), c as int);
                }
            }
            None
        },
    }
}

/// Half-up rounding of `a * b / c`: `floor(a*b/c)`, plus one when the
/// remainder is at least half the divisor.
/// `None` exactly when `c` is zero or the rounded value does not fit a `u128`.
pub fn mul_div_round(a: u128, b: u128, c: u128) -> (r: Option<u128>)
    ensures
        match r {
            Some(q) => c > 0 && q == round_div(a * b, c as int),
            None => c == 0 || round_div(a * b, c as int) >= p128(),
        },
{
    if c == 0 {
        return None;
    }
    let p = mul_u128(a, b);
    proof {
        assert(p.wval() >= 0);
    }
    match div_wide(&p, c) {
        Some((q, rem)) => {
            proof {
                vstd::arithmetic::div_mod::lemma_fundamental_div_mod_converse(
                    p.wval(),
                    c as int,
                    q as int,
                    rem as int,
                );
            }
            if rem >= c - rem {
                // 2*rem >= c: round up.
                if q == u128::MAX {
                    return None;
                }
                Some(q + 1)
            } else {
                Some(q)
            }
        },
        None => {
            proof {
                assert((a * b) / (c as int) >= p128()) by {
                    vstd::arithmetic::div_mod::lemma_div_multiples_vanish(p128(), c as int);
                    lemma_div_is_ordered(c * p128(), p.wval(), c as int);
                }
            }
            None
        },
    }
}

/// `x / c` rounded half away from zero, for nonnegative `x` and positive `c`.
pub open spec fn round_div(x: int, c: int) -> int {
    x / c + if 2 * (x % c) >= c {
        1int
    } else {
        0int
    }
}

/// `10^e` as a mathematical integer.
pub open spec fn pow10s(e: nat) -> int
    decreases e,
{
    if e == 0 {
        1
    } else {
        10 * pow10s((e - 1) as nat)
    }
}

/// `10^e` as a `u128`; `None` when it does not fit (`e > 38`).
pub fn pow10(e: u32) -> (r: Option<u128>)
    ensures
        match r {
            Some(p) => p == pow10s(e as nat) && p > 0 && e <= 38,
            None => e > 38 && pow10s(e as nat) > u128::MAX,
        },
{
    if e > 38 {
        proof {
            lemma_pow10s_39();
            lemma_pow10s_grows(39, e as nat);
        }
        return None;
    }
    let mut i: u32 = 0;
    let mut p: u128 = 1;
    while i < e
        invariant
            i <= e,
            e <= 38,
            p == pow10s(i as nat),
            p > 0,
        decreases e - i,
    {
        proof {
            lemma_pow10s_38();
            lemma_pow10s_grows(i as nat, 37);
            assert(pow10s((i + 1) as nat) == 10 * pow10s(i as nat));
        }
        p = p * 10;
        i = i + 1;
    }
    Some(p)
}

/// Ten to the eighteenth, the fixed-point scale for decimal prices.
pub proof fn lemma_pow10s_18()
    ensures
        pow10s(18) == 1_000_000_000_000_000_000,
{
    reveal_with_fuel(pow10s, 20);
}

/// The largest power of ten that fits a `u128`.
proof fn lemma_pow10s_38()
    ensures
        pow10s(38) == 0x4B3B4CA85A86C47A098A224000000000,
{
    reveal_with_fuel(pow10s, 40);
}

/// The first power of ten past `u128::MAX`.
proof fn lemma_pow10s_39()
    ensures
        pow10s(39) > u128::MAX,
{
    reveal_with_fuel(pow10s, 41);
}

/// Powers of ten are positive and monotone in the exponent.
pub proof fn lemma_pow10s_grows(a: nat, b: nat)
    requires
        a <= b,
    ensures
        0 < pow10s(a) <= pow10s(b),
    decreases b - a,
{
    if a == b {
        lemma_pow10s_pos(a);
    } else {
        lemma_pow10s_grows(a, (b - 1) as nat);
        assert(pow10s(b) == 10 * pow10s((b - 1) as nat));
    }
}

/// Powers of ten are positive.
pub proof fn lemma_pow10s_pos(e: nat)
    ensures
        pow10s(e) > 0,
    decreases e,
{
    if e > 0 {
        lemma_pow10s_pos((e - 1) as nat);
    }
}

} // verus!
