//! Collecting the outcomes of a batch evaluation.
//!
//! The driver evaluates every direction and each one yields a present result
//! or an absent one; the batch keeps exactly the present entries.  A failing
//! direction therefore never disturbs its siblings: a batch of `n` outcomes
//! with `k` absent yields exactly `n - k` collected results.
use vstd::prelude::*;

verus! {

/// The present values of a sequence of optional outcomes, in order.
pub open spec fn some_values<T>(s: Seq<Option<T>>) -> Seq<T>
    decreases s.len(),
{
    if s.len() == 0 {
        Seq::empty()
    } else {
        match s[0] {
            Some(x) => seq![x] + some_values(s.skip(1)),
            None => some_values(s.skip(1)),
        }
    }
}

/// How many outcomes of a sequence are absent.
pub open spec fn count_none<T>(s: Seq<Option<T>>) -> int
    decreases s.len(),
{
    if s.len() == 0 {
        0
    } else {
        (if s[0] is None {
            1int
        } else {
            0int
        }) + count_none(s.skip(1))
    }
}

/// A batch of `n` outcomes with `k` absent yields exactly `n - k` collected
/// results: the present values and the absent count partition the batch.
pub proof fn lemma_present_count<T>(s: Seq<Option<T>>)
    ensures
        some_values(s).len() + count_none(s) == s.len(),
    decreases s.len(),
{
    if s.len() > 0 {
        lemma_present_count(s.skip(1));
    }
}

/// Keep the present outcomes of a batch, in order.
pub fn collect_present<T>(results: Vec<Option<T>>) -> (r: Vec<T>)
    ensures
        r@ == some_values(results@),
        r@.len() + count_none(results@) == results@.len(),
{
    let mut rest = results;
    let mut out: Vec<T> = Vec::new();
    proof {
        assert(out@ + some_values(rest@) =~= some_values(rest@));
    }
    loop
        invariant_except_break
            out@ + some_values(rest@) == some_values(results@),
        ensures
            out@ == some_values(results@),
        decreases rest@.len(),
    {
        if rest.len() == 0 {
            proof {
                assert(some_values(rest@) =~= Seq::<T>::empty());
                assert(out@ + some_values(rest@) =~= out@);
            }
            break ;
        }
        let ghost prev = rest@;
        let ghost prev_out = out@;
        let head = rest.remove(0);
        proof {
            assert(rest@ =~= prev.skip(1));
        }
        match head {
            Some(x) => {
                out.push(x);
                proof {
                    assert(out@ + some_values(rest@) =~= prev_out + (seq![x] + some_values(
                        prev.skip(1),
                    )));
                    assert(prev_out + some_values(prev) == some_values(results@));
                }
            },
            None => {
                proof {
                    assert(out@ + some_values(rest@) == some_values(results@));
                }
            },
        }
    }
    proof {
        lemma_present_count(results@);
    }
    out
}

} // verus!
