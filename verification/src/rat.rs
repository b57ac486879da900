//! Exact signed rationals over `u128` magnitudes.
//!
//! Prices, spreads and profits are quotients of machine integers; floating
//! point would lose the rounding guarantees the pool math is specified with,
//! so they are kept as sign-magnitude fractions instead.  Every operation
//! returns an exact result (reduced by the greatest common divisor) or `None`
//! when an intermediate product cannot be represented.
use vstd::prelude::*;

verus! {

use vstd::arithmetic::div_mod::lemma_fundamental_div_mod;
use vstd::arithmetic::div_mod::lemma_mod_multiples_basic;

/// A signed rational: `(-1)^neg * num / den`.  Zero is canonically
/// non-negative.
#[derive(Clone, Copy, Debug)]
pub struct Rat {
    pub neg: bool,
    pub num: u128,
    pub den: u128,
}

impl Rat {
    /// Well-formed: positive denominator, zero carries no sign.
    pub open spec fn wf(self) -> bool {
        self.den > 0 && (self.num == 0 ==> !self.neg)
    }

    /// Signed numerator as a mathematical integer.
    pub open spec fn n(self) -> int {
        if self.neg {
            -(self.num as int)
        } else {
            self.num as int
        }
    }

    /// Denominator as a mathematical integer.
    pub open spec fn d(self) -> int {
        self.den as int
    }

    /// The rational 0/1.
    pub fn zero() -> (r: Rat)
        ensures
            r.wf(),
            r.n() == 0,
            r.d() == 1,
    {
        Rat { neg: false, num: 0, den: 1 }
    }

    /// A whole number.
    pub fn from_u128(v: u128) -> (r: Rat)
        ensures
            r.wf(),
            r.n() == v,
            r.d() == 1,
    {
        Rat { neg: false, num: v, den: 1 }
    }

    /// A signed fraction, reduced; `None` exactly when `den` is zero.
    pub fn new_frac(neg: bool, num: u128, den: u128) -> (r: Option<Rat>)
        ensures
            match r {
                Some(v) => v.wf() && v.n() * den == (if neg {
                    -(num as int)
                } else {
                    num as int
                }) * v.d(),
                None => den == 0,
            },
    {
        if den == 0 {
            None
        } else {
            Some(reduce(neg, num, den))
        }
    }

    /// True exactly when the value is zero.
    pub fn is_zero(&self) -> (r: bool)
        requires
            self.wf(),
        ensures
            r == (self.n() == 0),
    {
        self.num == 0
    }

    /// True exactly when the value is strictly negative.
    pub fn is_negative(&self) -> (r: bool)
        requires
            self.wf(),
        ensures
            r == (self.n() < 0),
    {
        self.neg
    }

    /// Exact negation.
    pub fn negate(&self) -> (r: Rat)
        requires
            self.wf(),
        ensures
            r.wf(),
            r.n() == -self.n(),
            r.d() == self.d(),
    {
        if self.num == 0 {
            Rat { neg: false, num: 0, den: self.den }
        } else {
            Rat { neg: !self.neg, num: self.num, den: self.den }
        }
    }

    /// Exact absolute value.
    pub fn abs(&self) -> (r: Rat)
        requires
            self.wf(),
        ensures
            r.wf(),
            r.n() == if self.n() >= 0 {
                self.n()
            } else {
                -self.n()
            },
            r.d() == self.d(),
    {
        Rat { neg: false, num: self.num, den: self.den }
    }

    /// Exact sum, reduced.  `None` exactly when a cross product, the
    /// denominator product, or a same-sign numerator sum overflows `u128`.
    pub fn try_add(&self, other: &Rat) -> (r: Option<Rat>)
        requires
            self.wf(),
            other.wf(),
        ensures
            match r {
                Some(v) => v.wf() && v.n() * (self.d() * other.d()) == (self.n() * other.d()
                    + other.n() * self.d()) * v.d() && v.num <= self.num * other.den + other.num
                    * self.den && v.den <= self.den * other.den && !(self.num * other.den
                    > u128::MAX || other.num * self.den > u128::MAX || self.den * other.den
                    > u128::MAX || (self.neg == other.neg && self.num * other.den + other.num
                    * self.den > u128::MAX)),
                None => self.num * other.den > u128::MAX || other.num * self.den > u128::MAX
                    || self.den * other.den > u128::MAX || (self.neg == other.neg && self.num
                    * other.den + other.num * self.den > u128::MAX),
            },
    {
        let c1o = self.num.checked_mul(other.den);
        let c2o = other.num.checked_mul(self.den);
        let ddo = self.den.checked_mul(other.den);
        match (c1o, c2o, ddo) {
            (Some(c1), Some(c2), Some(dd)) => {
                proof {
                    assert(dd > 0) by (nonlinear_arith)
                        requires
                            self.den > 0,
                            other.den > 0,
                            dd == self.den * other.den,
                    ;
                }
                if self.neg == other.neg {
                    match c1.checked_add(c2) {
                        Some(s) => {
                            let v = reduce(self.neg, s, dd);
                            proof {
                                lemma_add_case(*self, *other, c1 as int, c2 as int, dd as int,
                                    self.neg, s as int, v);
                            }
                            Some(v)
                        },
                        None => None,
                    }
                } else {
                    if c1 >= c2 {
                        let v = reduce(self.neg, c1 - c2, dd);
                        proof {
                            lemma_add_case(*self, *other, c1 as int, c2 as int, dd as int,
                                self.neg, c1 - c2, v);
                        }
                        Some(v)
                    } else {
                        let v = reduce(other.neg, c2 - c1, dd);
                        proof {
                            lemma_add_case(*self, *other, c1 as int, c2 as int, dd as int,
                                other.neg, c2 - c1, v);
                        }
                        Some(v)
                    }
                }
            },
            _ => None,
        }
    }

    /// Exact difference, reduced; overflow conditions as for `try_add`.
    pub fn try_sub(&self, other: &Rat) -> (r: Option<Rat>)
        requires
            self.wf(),
            other.wf(),
        ensures
            match r {
                Some(v) => v.wf() && v.n() * (self.d() * other.d()) == (self.n() * other.d()
                    - other.n() * self.d()) * v.d() && v.num <= self.num * other.den + other.num
                    * self.den && v.den <= self.den * other.den && !(self.num * other.den
                    > u128::MAX || other.num * self.den > u128::MAX || self.den * other.den
                    > u128::MAX || (self.neg != other.neg && self.num * other.den + other.num
                    * self.den > u128::MAX)),
                None => self.num * other.den > u128::MAX || other.num * self.den > u128::MAX
                    || self.den * other.den > u128::MAX || (self.neg != other.neg && self.num
                    * other.den + other.num * self.den > u128::MAX),
            },
    {
        let o = other.negate();
        let r = self.try_add(&o);
        proof {
            if o.num == 0 {
                assert(other.num == 0);
            }
            assert((-other.n()) * self.d() == -(other.n() * self.d())) by (nonlinear_arith);
        }
        r
    }

    /// Exact product, reduced.  `None` exactly when a numerator or
    /// denominator product overflows `u128`.
    pub fn try_mul(&self, other: &Rat) -> (r: Option<Rat>)
        requires
            self.wf(),
            other.wf(),
        ensures
            match r {
                Some(v) => v.wf() && v.n() * (self.d() * other.d()) == (self.n() * other.n())
                    * v.d() && v.num <= self.num * other.num && v.den <= self.den * other.den,
                None => self.num * other.num > u128::MAX || self.den * other.den > u128::MAX,
            },
    {
        let nno = self.num.checked_mul(other.num);
        let ddo = self.den.checked_mul(other.den);
        match (nno, ddo) {
            (Some(nn), Some(dd)) => {
                proof {
                    assert(dd > 0) by (nonlinear_arith)
                        requires
                            self.den > 0,
                            other.den > 0,
                            dd == self.den * other.den,
                    ;
                }
                let sign = self.neg != other.neg;
                let v = reduce(sign, nn, dd);
                proof {
                    assert(v.n() * (self.d() * other.d()) == (self.n() * other.n()) * v.d())
                        by (nonlinear_arith)
                        requires
                            nn == self.num * other.num,
                            dd == self.den * other.den,
                            v.n() * (dd as int) == (if sign {
                                -(nn as int)
                            } else {
                                nn as int
                            }) * v.d(),
                            sign == (self.neg != other.neg),
                            self.n() == (if self.neg {
                                -(self.num as int)
                            } else {
                                self.num as int
                            }),
                            other.n() == (if other.neg {
                                -(other.num as int)
                            } else {
                                other.num as int
                            }),
                            self.d() == self.den,
                            other.d() == other.den,
                    ;
                }
                Some(v)
            },
            _ => None,
        }
    }

    /// Exact quotient, reduced.  `None` exactly when `other` is zero or a
    /// cross product overflows `u128`.
    pub fn try_div(&self, other: &Rat) -> (r: Option<Rat>)
        requires
            self.wf(),
            other.wf(),
        ensures
            match r {
                Some(v) => v.wf() && v.n() * (self.d() * other.n()) == (self.n() * other.d())
                    * v.d(),
                None => other.num == 0 || self.num * other.den > u128::MAX || self.den * other.num
                    > u128::MAX,
            },
    {
        if other.num == 0 {
            return None;
        }
        let nno = self.num.checked_mul(other.den);
        let ddo = self.den.checked_mul(other.num);
        match (nno, ddo) {
            (Some(nn), Some(dd)) => {
                proof {
                    assert(dd > 0) by (nonlinear_arith)
                        requires
                            self.den > 0,
                            other.num > 0,
                            dd == self.den * other.num,
                    ;
                }
                let sign = self.neg != other.neg;
                let v = reduce(sign, nn, dd);
                proof {
                    assert(v.n() * (self.d() * other.n()) == (self.n() * other.d()) * v.d())
                        by (nonlinear_arith)
                        requires
                            nn == self.num * other.den,
                            dd == self.den * other.num,
                            v.n() * (dd as int) == (if sign {
                                -(nn as int)
                            } else {
                                nn as int
                            }) * v.d(),
                            sign == (self.neg != other.neg),
                            self.n() == (if self.neg {
                                -(self.num as int)
                            } else {
                                self.num as int
                            }),
                            other.n() == (if other.neg {
                                -(other.num as int)
                            } else {
                                other.num as int
                            }),
                            self.d() == self.den,
                            other.d() == other.den,
                    ;
                }
                Some(v)
            },
            _ => None,
        }
    }

    /// Exact comparison.  `None` exactly when a cross product overflows
    /// `u128`; that can only happen for operands of equal sign.
    pub fn try_lt(&self, other: &Rat) -> (r: Option<bool>)
        requires
            self.wf(),
            other.wf(),
        ensures
            match r {
                Some(b) => b == (self.n() * other.d() < other.n() * self.d()),
                None => self.num * other.den > u128::MAX || other.num * self.den > u128::MAX,
            },
    {
        if self.neg && !other.neg {
            // strictly negative vs non-negative
            proof {
                assert(self.n() * other.d() < other.n() * self.d()) by (nonlinear_arith)
                    requires
                        self.n() < 0,
                        other.n() >= 0,
                        self.d() > 0,
                        other.d() > 0,
                ;
            }
            return Some(true);
        }
        if !self.neg && other.neg {
            proof {
                assert(!(self.n() * other.d() < other.n() * self.d())) by (nonlinear_arith)
                    requires
                        self.n() >= 0,
                        other.n() < 0,
                        self.d() > 0,
                        other.d() > 0,
                ;
            }
            return Some(false);
        }
        let c1o = self.num.checked_mul(other.den);
        let c2o = other.num.checked_mul(self.den);
        match (c1o, c2o) {
            (Some(c1), Some(c2)) => {
                proof {
                    assert((self.n() * other.d() < other.n() * self.d()) == (if self.neg {
                        c1 > c2
                    } else {
                        c1 < c2
                    })) by (nonlinear_arith)
                        requires
                            c1 == self.num * other.den,
                            c2 == other.num * self.den,
                            self.neg == other.neg,
                            self.n() == (if self.neg {
                                -(self.num as int)
                            } else {
                                self.num as int
                            }),
                            other.n() == (if other.neg {
                                -(other.num as int)
                            } else {
                                other.num as int
                            }),
                            self.d() == self.den,
                            other.d() == other.den,
                    ;
                }
                if self.neg {
                    Some(c1 > c2)
                } else {
                    Some(c1 < c2)
                }
            },
            _ => None,
        }
    }
}

/// The sum branch of `try_add` denotes the exact rational sum.
proof fn lemma_add_case(a: Rat, b: Rat, c1: int, c2: int, dd: int, sg: bool, s: int, v: Rat)
    by (nonlinear_arith)
    requires
        a.wf(),
        b.wf(),
        c1 == a.num * b.den,
        c2 == b.num * a.den,
        dd == a.den * b.den,
        (if sg {
            -s
        } else {
            s
        }) == (if a.neg {
            -c1
        } else {
            c1
        }) + (if b.neg {
            -c2
        } else {
            c2
        }),
        v.n() * dd == (if sg {
            -s
        } else {
            s
        }) * v.d(),
    ensures
        v.n() * (a.d() * b.d()) == (a.n() * b.d() + b.n() * a.d()) * v.d(),
{
}

/// Rational equality is transitive: if `a == b` and `b == c` by cross
/// multiplication and `b` has a positive denominator, then `a == c`.
pub proof fn lemma_rat_trans(an: int, ad: int, bn: int, bd: int, cn: int, cd: int)
    by (nonlinear_arith)
    requires
        bd > 0,
        an * bd == bn * ad,
        bn * cd == cn * bd,
    ensures
        an * cd == cn * ad,
{
}

/// A quotient transports across reduced representations: if `a` and `b`
/// denote `An/Ad` and `Bn/Bd` and `v == a / b` by cross multiplication, then
/// `v == (An * Bd) / (Ad * Bn)` by cross multiplication.
#[verifier::rlimit(50)]
pub proof fn lemma_rat_div_transport(
    vn: int,
    vd: int,
    an: int,
    ad: int,
    aan: int,
    aad: int,
    bn: int,
    bd: int,
    bbn: int,
    bbd: int,
)
    requires
        ad > 0,
        bd > 0,
        aad > 0,
        bbd > 0,
        an * aad == aan * ad,
        bn * bbd == bbn * bd,
        vn * (ad * bn) == (an * bd) * vd,
    ensures
        vn * (aad * bbn) == (aan * bbd) * vd,
{
    assert((vn * (aad * bbn)) * (ad * bd) == (vn * (ad * bn)) * (aad * bbd))
        by (nonlinear_arith)
        requires
            bn * bbd == bbn * bd,
    ;
    assert((vn * (ad * bn)) * (aad * bbd) == ((an * bd) * vd) * (aad * bbd))
        by (nonlinear_arith)
        requires
            vn * (ad * bn) == (an * bd) * vd,
    ;
    assert(((an * bd) * vd) * (aad * bbd) == ((an * aad) * vd) * (bd * bbd)) by (nonlinear_arith);
    assert(((an * aad) * vd) * (bd * bbd) == ((aan * ad) * vd) * (bd * bbd)) by (nonlinear_arith)
        requires
            an * aad == aan * ad,
    ;
    assert(((aan * ad) * vd) * (bd * bbd) == ((aan * bbd) * vd) * (ad * bd)) by (nonlinear_arith);
    assert(vn * (aad * bbn) == (aan * bbd) * vd) by (nonlinear_arith)
        requires
            (vn * (aad * bbn)) * (ad * bd) == ((aan * bbd) * vd) * (ad * bd),
            ad > 0,
            bd > 0,
    ;
}

/// Greatest common divisor by Euclid's algorithm; the result divides both
/// arguments.
pub fn gcd_u128(a: u128, b: u128) -> (g: u128)
    requires
        a > 0,
    ensures
        g > 0,
        a % g == 0,
        b % g == 0,
    decreases b,
{
    if b == 0 {
        proof {
            lemma_fundamental_div_mod(a as int, a as int);
            assert(a % a == 0) by (nonlinear_arith)
                requires
                    a > 0,
            ;
        }
        a
    } else {
        let m = a % b;
        let g = gcd_u128(b, m);
        proof {
            lemma_divides_step(a as int, b as int, g as int);
        }
        g
    }
}

/// If `g` divides `b` and `a % b`, it divides `a`.
proof fn lemma_divides_step(a: int, b: int, g: int)
    requires
        a >= 0,
        b > 0,
        g > 0,
        b % g == 0,
        (a % b) % g == 0,
    ensures
        a % g == 0,
{
    lemma_fundamental_div_mod(a, b);
    lemma_fundamental_div_mod(b, g);
    lemma_fundamental_div_mod(a % b, g);
    let q = (a / b) * (b / g) + (a % b) / g;
    assert(a == q * g) by (nonlinear_arith)
        requires
            a == b * (a / b) + a % b,
            b == g * (b / g) + b % g,
            b % g == 0,
            a % b == g * ((a % b) / g) + (a % b) % g,
            (a % b) % g == 0,
            q == (a / b) * (b / g) + (a % b) / g,
    ;
    lemma_mod_multiples_basic(q, g);
}

/// Reduce a sign-magnitude fraction by its greatest common divisor.
/// The result denotes the same rational and is well-formed.
pub fn reduce(neg: bool, num: u128, den: u128) -> (r: Rat)
    requires
        den > 0,
    ensures
        r.wf(),
        r.n() * den == (if neg {
            -(num as int)
        } else {
            num as int
        }) * r.d(),
        r.num <= num,
        r.den <= den,
        (num == 0) == (r.num == 0),
        r.neg == (neg && num > 0),
    {
    if num == 0 {
        let r = Rat { neg: false, num: 0, den: 1 };
        proof {
            let rhs = (if neg {
                -(num as int)
            } else {
                num as int
            });
            assert(rhs == 0);
            assert(r.n() * den == rhs * r.d()) by (nonlinear_arith)
                requires
                    r.n() == 0,
                    rhs == 0,
            ;
        }
        return r;
    }
    let g = gcd_u128(num, den);
    let rn = num / g;
    let rd = den / g;
    proof {
        lemma_fundamental_div_mod(num as int, g as int);
        lemma_fundamental_div_mod(den as int, g as int);
        assert(rd > 0 && rn > 0) by (nonlinear_arith)
            requires
                num > 0,
                den > 0,
                g > 0,
                num == g * (rn as int),
                den == g * (rd as int),
        ;
        assert(rn as int * den == num as int * rd) by (nonlinear_arith)
            requires
                num == g * (rn as int),
                den == g * (rd as int),
        ;
        assert(-(rn as int) * den == -(num as int) * rd) by (nonlinear_arith)
            requires
                rn as int * den == num as int * rd,
        ;
        assert(rn <= num && rd <= den) by (nonlinear_arith)
            requires
                num == g * (rn as int),
                den == g * (rd as int),
                g > 0,
                rn >= 0,
                rd >= 0,
        ;
    }
    Rat { neg, num: rn, den: rd }
}

} // verus!
