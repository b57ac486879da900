//! Gradient-ascent search for the most profitable trade size.
//!
//! The profit function is caller-supplied and evaluated exactly over
//! rationals: the gradient is the centered finite difference
//! `(f(x + eps) - f(x - eps)) / (2 * eps)`, and each step moves
//! `x <- x + learning_rate * gradient`.  The search halts early when the
//! gradient magnitude falls below one millionth, when a step would take the
//! trade size negative (before the profit function is applied to it), or
//! when an exact intermediate cannot be represented.  The best point seen is
//! returned only if its profit is strictly positive.
use vstd::prelude::*;

verus! {

use crate::rat::Rat;
use crate::rat::lemma_rat_div_transport;

/// A record of the points the ascent actually evaluated, in order: it starts
/// at `start`, every evaluated size is well-formed and non-negative, and
/// every profit is an actual output of the profit function at its size.
pub open spec fn visited_trace_ok<F: Fn(Rat) -> Option<Rat>>(
    f: F,
    start: Rat,
    visited: Seq<(Rat, Rat)>,
) -> bool {
    visited.len() >= 1 && visited[0].0 == start && forall|i: int|
        0 <= i < visited.len() ==> ((#[trigger] visited[i]).0.wf() && !visited[i].0.neg
            && visited[i].1.wf() && call_ensures(f, (visited[i].0,), Some(visited[i].1)))
}

/// Order chains across a strict improvement: `t <= b` and `b < p` give
/// `t <= p`, by cross multiplication over positive denominators.
proof fn lemma_rat_le_lt(tn: int, td: int, bn: int, bd: int, pn: int, pd: int)
    requires
        td > 0,
        bd > 0,
        pd > 0,
        tn * bd <= bn * td,
        bn * pd < pn * bd,
    ensures
        tn * pd <= pn * td,
{
    assert((tn * pd) * bd <= (pn * td) * bd) by (nonlinear_arith)
        requires
            tn * bd <= bn * td,
            bn * pd < pn * bd,
            td > 0,
            pd > 0,
    ;
    assert(tn * pd <= pn * td) by (nonlinear_arith)
        requires
            (tn * pd) * bd <= (pn * td) * bd,
            bd > 0,
    ;
}

/// A value at most a non-positive bound is non-positive.
proof fn lemma_rat_nonpos(tn: int, td: int, bn: int, bd: int)
    by (nonlinear_arith)
    requires
        td > 0,
        bd > 0,
        tn * bd <= bn * td,
        bn <= 0,
    ensures
        tn <= 0,
{
}

/// Centered finite-difference gradient of `f` at `x`:
/// `(f(x + eps) - f(x - eps)) / (2 * eps)`, exactly over rationals.
/// `None` when `f` declines a probe or an intermediate overflows.
pub fn numerical_gradient<F: Fn(Rat) -> Option<Rat>>(f: &F, x: &Rat, eps: &Rat) -> (r: Option<
    Rat,
>)
    requires
        forall|a: Rat| a.wf() ==> #[trigger] call_requires(*f, (a,)),
        x.wf(),
        eps.wf(),
    ensures
        match r {
            Some(g) => g.wf() && exists|xp: Rat, xm: Rat, vp: Rat, vm: Rat|
                {
                    &&& xp.wf()
                    &&& xm.wf()
                    &&& vp.wf()
                    &&& vm.wf()
                    &&& xp.n() * (x.d() * eps.d()) == (x.n() * eps.d() + eps.n() * x.d()) * xp.d()
                    &&& xm.n() * (x.d() * eps.d()) == (x.n() * eps.d() - eps.n() * x.d()) * xm.d()
                    &&& #[trigger] call_ensures(*f, (xp,), Some(vp))
                    &&& #[trigger] call_ensures(*f, (xm,), Some(vm))
                    &&& g.n() * ((vp.d() * vm.d()) * (2 * eps.n())) == ((vp.n() * vm.d() - vm.n()
                        * vp.d()) * eps.d()) * g.d()
                },
            None => true,
        },
        // Forming a probe point x +- eps past the machine width forces an
        // absent gradient before the profit function is consulted.
        (x.num * eps.den > u128::MAX || eps.num * x.den > u128::MAX || x.den * eps.den > u128::MAX
            || x.num * eps.den + eps.num * x.den > u128::MAX) ==> r is None,
        // When both probe points are formed, the profit function is applied
        // to the upper probe, whatever it then returns.
        !(x.num * eps.den > u128::MAX || eps.num * x.den > u128::MAX || x.den * eps.den
            > u128::MAX || x.num * eps.den + eps.num * x.den > u128::MAX) ==> exists|
            xp: Rat,
            vpo: Option<Rat>,
        |
            {
                &&& xp.wf()
                &&& xp.n() * (x.d() * eps.d()) == (x.n() * eps.d() + eps.n() * x.d()) * xp.d()
                &&& #[trigger] call_ensures(*f, (xp,), vpo)
                &&& (vpo is None ==> r is None)
            },
{
    let xp = match x.try_add(eps) {
        Some(v) => v,
        None => {
            return None;
        },
    };
    let xm = match x.try_sub(eps) {
        Some(v) => v,
        None => {
            return None;
        },
    };
    let vp = match f(xp) {
        Some(v) => v,
        None => {
            return None;
        },
    };
    let vm = match f(xm) {
        Some(v) => v,
        None => {
            return None;
        },
    };
    if vp.den == 0 || (vp.num == 0 && vp.neg) || vm.den == 0 || (vm.num == 0 && vm.neg) {
        return None;
    }
    let diff = match vp.try_sub(&vm) {
        Some(v) => v,
        None => {
            return None;
        },
    };
    let two_eps = match eps.try_add(eps) {
        Some(v) => v,
        None => {
            return None;
        },
    };
    if two_eps.num == 0 {
        return None;
    }
    let g = match diff.try_div(&two_eps) {
        Some(v) => v,
        None => {
            return None;
        },
    };
    proof {
        // g == diff / two_eps, diff == (vp*vm.d - vm*vp.d)/(vp.d*vm.d),
        // two_eps == 2*eps.n/eps.d; transport to the stated cross products.
        assert(two_eps.n() * (eps.d() * eps.d()) == (2 * eps.n() * eps.d()) * two_eps.d()) by (
        nonlinear_arith)
            requires
                two_eps.n() * (eps.d() * eps.d()) == (eps.n() * eps.d() + eps.n() * eps.d())
                    * two_eps.d(),
        ;
        assert(two_eps.n() * (eps.d() * 1) == ((2 * eps.n()) * 1) * two_eps.d()) by (
        nonlinear_arith)
            requires
                two_eps.n() * (eps.d() * eps.d()) == (2 * eps.n() * eps.d()) * two_eps.d(),
                eps.d() > 0,
        ;
        assert(vp.d() * vm.d() > 0) by (nonlinear_arith)
            requires
                vp.d() > 0,
                vm.d() > 0,
        ;
        lemma_rat_div_transport(
            g.n(),
            g.d(),
            diff.n(),
            diff.d(),
            vp.n() * vm.d() - vm.n() * vp.d(),
            vp.d() * vm.d(),
            two_eps.n(),
            two_eps.d(),
            2 * eps.n(),
            eps.d(),
        );
        assert(g.n() * ((vp.d() * vm.d()) * (2 * eps.n())) == ((vp.n() * vm.d() - vm.n() * vp.d())
            * eps.d()) * g.d());
    }
    Some(g)
}

/// Gradient ascent over a caller-supplied profit function, from `start`,
/// stepping by `learning_rate` times the centered finite-difference
/// gradient, for at most `max_iters` iterations.
///
/// Tracks the best `(size, profit)` pair seen and returns it only when the
/// best profit is strictly positive; a candidate size below zero ends the
/// search before the profit function is applied to it, so any returned size
/// is non-negative.
pub fn gradient_ascent<F: Fn(Rat) -> Option<Rat>>(
    f: F,
    start: Rat,
    learning_rate: Rat,
    eps: Rat,
    max_iters: usize,
) -> (r: Option<(Rat, Rat)>)
    requires
        forall|a: Rat| a.wf() ==> #[trigger] call_requires(f, (a,)),
        start.wf(),
        !start.neg,
        learning_rate.wf(),
        eps.wf(),
    ensures
        match r {
            Some(t) => t.0.wf() && !t.0.neg && t.1.wf() && t.1.n() > 0 && call_ensures(
                f,
                (t.0,),
                Some(t.1),
            ) && (exists|visited: Seq<(Rat, Rat)>|
                #[trigger] visited_trace_ok(f, start, visited) && visited.contains(t) && forall|
                    i: int,
                |
                    0 <= i < visited.len() ==> (#[trigger] visited[i]).1.n() * t.1.d() <= t.1.n()
                        * visited[i].1.d()),
            None => (exists|visited: Seq<(Rat, Rat)>|
                #[trigger] visited_trace_ok(f, start, visited) && forall|i: int|
                    0 <= i < visited.len() ==> (#[trigger] visited[i]).1.n() <= 0) || (exists|
                v: Option<Rat>,
            |
                #[trigger] call_ensures(f, (start,), v) && (v is None || (v matches Some(p)
                    && !p.wf()))),
        },
        (forall|v: Option<Rat>| call_ensures(f, (start,), v) ==> (v matches Some(p) && p.wf()
            && p.n() > 0)) ==> r is Some,
{
    let ghost positive_start = forall|v: Option<Rat>|
        call_ensures(f, (start,), v) ==> (v matches Some(p) && p.wf() && p.n() > 0);
    let mut x = start;
    let mut best_profit = match f(x) {
        Some(p) => p,
        None => {
            return None;
        },
    };
    if best_profit.den == 0 || (best_profit.num == 0 && best_profit.neg) {
        proof {
            assert(!best_profit.wf());
        }
        return None;
    }
    let mut best_x = x;
    let ghost mut visited: Seq<(Rat, Rat)> = seq![(start, best_profit)];
    proof {
        assert(visited[0] == (best_x, best_profit));
    }
    // Convergence threshold on the gradient magnitude: one millionth.
    let threshold = Rat { neg: false, num: 1, den: 1_000_000 };
    let mut i: usize = 0;
    while i < max_iters
        invariant
            forall|a: Rat| a.wf() ==> #[trigger] call_requires(f, (a,)),
            x.wf(),
            !x.neg,
            eps.wf(),
            learning_rate.wf(),
            threshold.wf(),
            best_x.wf(),
            !best_x.neg,
            best_profit.wf(),
            call_ensures(f, (best_x,), Some(best_profit)),
            i <= max_iters,
            positive_start == (forall|v: Option<Rat>|
                call_ensures(f, (start,), v) ==> (v matches Some(p) && p.wf() && p.n() > 0)),
            positive_start ==> best_profit.n() > 0,
            visited_trace_ok(f, start, visited),
            visited.contains((best_x, best_profit)),
            forall|j: int|
                0 <= j < visited.len() ==> (#[trigger] visited[j]).1.n() * best_profit.d()
                    <= best_profit.n() * visited[j].1.d(),
        ensures
            best_x.wf(),
            !best_x.neg,
            best_profit.wf(),
            call_ensures(f, (best_x,), Some(best_profit)),
            positive_start ==> best_profit.n() > 0,
            visited_trace_ok(f, start, visited),
            visited.contains((best_x, best_profit)),
            forall|j: int|
                0 <= j < visited.len() ==> (#[trigger] visited[j]).1.n() * best_profit.d()
                    <= best_profit.n() * visited[j].1.d(),
        decreases max_iters - i,
    {
        let grad = match numerical_gradient(&f, &x, &eps) {
            Some(g) => g,
            None => {
                break ;
            },
        };
        let step = match learning_rate.try_mul(&grad) {
            Some(v) => v,
            None => {
                break ;
            },
        };
        let next = match x.try_add(&step) {
            Some(v) => v,
            None => {
                break ;
            },
        };
        if next.is_negative() {
            // A loan cannot be negative: halt before evaluating f here.
            break ;
        }
        x = next;
        let p = match f(x) {
            Some(p) => p,
            None => {
                break ;
            },
        };
        if p.den == 0 || (p.num == 0 && p.neg) {
            break ;
        }
        let improved = match best_profit.try_lt(&p) {
            Some(b) => b,
            None => {
                break ;
            },
        };
        let ghost ob = best_profit;
        if improved {
            proof {
                assert(p.n() > 0 || best_profit.n() <= 0) by (nonlinear_arith)
                    requires
                        best_profit.n() * p.d() < p.n() * best_profit.d(),
                        best_profit.d() > 0,
                        p.d() > 0,
                ;
            }
            best_profit = p;
            best_x = x;
        }
        proof {
            // Record the evaluated point and keep the best maximal over
            // everything recorded so far.
            let oldv = visited;
            visited = visited.push((x, p));
            assert(visited[oldv.len() as int] == (x, p));
            assert forall|j: int|
                0 <= j < visited.len() implies ((#[trigger] visited[j]).0.wf()
                && !visited[j].0.neg && visited[j].1.wf() && call_ensures(
                f,
                (visited[j].0,),
                Some(visited[j].1),
            )) by {
                if j < oldv.len() {
                    assert(visited[j] == oldv[j]);
                }
            }
            if improved {
                assert(visited[oldv.len() as int] == (best_x, best_profit));
            } else {
                let k = choose|k: int| 0 <= k < oldv.len() && oldv[k] == (best_x, best_profit);
                assert(visited[k] == (best_x, best_profit));
            }
            assert(visited.contains((best_x, best_profit)));
            assert forall|j: int|
                0 <= j < visited.len() implies (#[trigger] visited[j]).1.n() * best_profit.d()
                <= best_profit.n() * visited[j].1.d() by {
                if j < oldv.len() {
                    assert(visited[j] == oldv[j]);
                    if improved {
                        lemma_rat_le_lt(
                            oldv[j].1.n(),
                            oldv[j].1.d(),
                            ob.n(),
                            ob.d(),
                            p.n(),
                            p.d(),
                        );
                    }
                } else {
                    assert(visited[j] == (x, p));
                }
            }
        }
        let small = match grad.abs().try_lt(&threshold) {
            Some(b) => b,
            None => {
                break ;
            },
        };
        if small {
            // Converged.
            break ;
        }
        i = i + 1;
    }
    if !best_profit.neg && best_profit.num > 0 {
        Some((best_x, best_profit))
    } else {
        proof {
            assert(best_profit.n() <= 0);
            assert forall|j: int|
                0 <= j < visited.len() implies (#[trigger] visited[j]).1.n() <= 0 by {
                lemma_rat_nonpos(
                    visited[j].1.n(),
                    visited[j].1.d(),
                    best_profit.n(),
                    best_profit.d(),
                );
            }
        }
        None
    }
}

} // verus!
