//! Cubic to quadratic: the search for the number of quadratic segments, and the ring
//! that fits a batch of cubics.
use vstd::prelude::*;

verus! {

/// The most quadratic segments that a cubic is ever split into.
pub const MAX_N: usize = 100;

/// No quadratic spline within tolerance was found.
#[derive(Debug, Clone, Copy, PartialEq, Eq, Structural)]
pub struct ApproxNotFoundError;

impl ApproxNotFoundError {
    /// A short description of the failure.
    pub fn description(&self) -> (r: &'static str)
        ensures
            r@ == "Could not approximate cubic curve with a quadratic"@,
    {
        proof {
            reveal_strlit("Could not approximate cubic curve with a quadratic");
        }
        "Could not approximate cubic curve with a quadratic"
    }
}

/// `fit` may fail for `n` segments.
pub open spec fn fails<T, F: Fn(usize) -> Result<T, ApproxNotFoundError>>(fit: F, n: usize) -> bool {
    fit.ensures((n,), Err(ApproxNotFoundError))
}

/// `s` is what `fit` may return for `n` segments, the first count that did not fail:
/// `n` lies in `1..=MAX_N` and every smaller count may fail.
pub open spec fn first_fit<T, F: Fn(usize) -> Result<T, ApproxNotFoundError>>(
    fit: F,
    n: usize,
    s: T,
) -> bool {
    &&& 1 <= n <= MAX_N
    &&& fit.ensures((n,), Ok(s))
    &&& forall|m: usize| 1 <= m < n ==> #[trigger] fails(fit, m)
}

/// Tries `fit` with 1, 2, ... up to `MAX_N` segments and returns the first spline it
/// finds; fails when every count fails.
pub fn curve_to_quadratic<T, F: Fn(usize) -> Result<T, ApproxNotFoundError>>(fit: &F) -> (r: Result<
    T,
    ApproxNotFoundError,
>)
    requires
        forall|n: usize| 1 <= n <= MAX_N ==> fit.requires((n,)),
    ensures
        r matches Ok(s) ==> exists|n: usize| first_fit(*fit, n, s),
        r is Err ==> forall|m: usize| 1 <= m <= MAX_N ==> #[trigger] fails(*fit, m),
{
    let mut n: usize = 1;
    while n <= MAX_N
        invariant
            1 <= n <= MAX_N + 1,
            forall|k: usize| 1 <= k <= MAX_N ==> fit.requires((k,)),
            forall|m: usize| 1 <= m < n ==> #[trigger] fails(*fit, m),
        decreases MAX_N + 1 - n,
    {
        match fit(n) {
            Ok(s) => {
                assert(first_fit(*fit, n, s));
                return Ok(s);
            },
            Err(e) => {
                assert(e == ApproxNotFoundError);
            },
        }
        n = n + 1;
    }
    Err(ApproxNotFoundError)
}

/// `fit` may fail for curve `i` with `n` segments.
pub open spec fn fails_at<T, F: Fn(usize, usize) -> Result<T, ApproxNotFoundError>>(
    fit: F,
    i: usize,
    n: usize,
) -> bool {
    fit.ensures((i, n), Err(ApproxNotFoundError))
}

/// With `n` segments, `fit` may fail for some curve among the first `count`.
pub open spec fn some_fails<T, F: Fn(usize, usize) -> Result<T, ApproxNotFoundError>>(
    fit: F,
    count: usize,
    n: usize,
) -> bool {
    exists|j: usize| j < count && #[trigger] fails_at(fit, j, n)
}

/// `v` holds, for each curve in order, what `fit` may return for it with the one shared
/// count `n`, the first count in `1..=MAX_N` at which no curve failed: at every smaller
/// count some curve may fail.
pub open spec fn batch_fit_at<T, F: Fn(usize, usize) -> Result<T, ApproxNotFoundError>>(
    fit: F,
    n: usize,
    v: Seq<T>,
) -> bool {
    &&& 1 <= n <= MAX_N
    &&& forall|k: int| 0 <= k < v.len() ==> fit.ensures((k as usize, n), Ok(#[trigger] v[k]))
    &&& forall|m: usize| 1 <= m < n ==> #[trigger] some_fails(fit, v.len() as usize, m)
}

/// `v` is a batch result for `count` curves: one spline per curve, all fitted with one
/// count, the first at which no curve failed.
pub open spec fn batch_result<T, F: Fn(usize, usize) -> Result<T, ApproxNotFoundError>>(
    fit: F,
    count: usize,
    v: Seq<T>,
) -> bool {
    &&& v.len() == count
    &&& exists|n: usize| #[trigger] batch_fit_at(fit, n, v)
}

/// `slot` holds what `fit` may return for curve `i` with `n` segments.
spec fn kept<T, F: Fn(usize, usize) -> Result<T, ApproxNotFoundError>>(
    fit: F,
    i: usize,
    n: usize,
    slot: Option<T>,
) -> bool {
    match slot {
        Some(s) => fit.ensures((i, n), Ok(s)),
        None => false,
    }
}

/// How many steps round a ring of `len` places lead from `from` to `k`.
spec fn ring_offset(k: int, from: int, len: int) -> int {
    if k >= from {
        k - from
    } else {
        k + len - from
    }
}

/// Where the ring of `curves_to_quadratic` stands: the curve it visits, the curve at whose
/// failure the count was last raised, and the segment count shared by all curves.
struct Ring {
    index: usize,
    last_changed: usize,
    n: usize,
}

/// Fits a batch of `count` curves with one segment count for all of them, `fit(i, n)`
/// fitting curve `i` with `n` segments.
///
/// The count starts at one. The curves are visited round a ring from curve 0: where `fit`
/// succeeds the result is kept and the ring moves on; where it fails the shared count goes
/// up by one and the failing curve becomes the last changed. The batch is done when the
/// ring comes round to the last changed curve, every curve having then been fitted with
/// the current count, and fails when the count would pass `MAX_N`. On success the result
/// holds one spline per curve, in the order of the curves, all with the same count: the
/// first at which no curve failed. On failure some curve may fail at every count.
pub fn curves_to_quadratic<T, F: Fn(usize, usize) -> Result<T, ApproxNotFoundError>>(
    count: usize,
    fit: &F,
) -> (r: Result<Vec<T>, ApproxNotFoundError>)
    requires
        forall|i: usize, n: usize| i < count && 1 <= n <= MAX_N ==> fit.requires((i, n)),
    ensures
        r matches Ok(v) ==> batch_result(*fit, count, v@),
        r is Err ==> forall|m: usize| 1 <= m <= MAX_N ==> #[trigger] some_fails(*fit, count, m),
{
    if count == 0 {
        let v: Vec<T> = Vec::new();
        assert(batch_fit_at(*fit, 1, v@));
        assert(batch_result(*fit, count, v@));
        return Ok(v);
    }
    let mut slots: Vec<Option<T>> = Vec::new();
    let mut k: usize = 0;
    while k < count
        invariant
            k <= count,
            slots.len() == k,
        decreases count - k,
    {
        slots.push(None);
        k = k + 1;
    }
    let mut ring = Ring { index: 0, last_changed: 0, n: 1 };
    let ghost mut streak: int = 0;
    loop
        invariant_except_break
            0 <= streak < count,
            streak == ring_offset(ring.index as int, ring.last_changed as int, count as int),
        invariant
            count > 0,
            forall|i: usize, n: usize| i < count && 1 <= n <= MAX_N ==> fit.requires((i, n)),
            slots.len() == count,
            ring.index < count,
            ring.last_changed < count,
            1 <= ring.n <= MAX_N,
            forall|m: usize| 1 <= m < ring.n ==> #[trigger] some_fails(*fit, count, m),
            forall|j: int|
                0 <= j < count && ring_offset(j, ring.last_changed as int, count as int) < streak
                    ==> kept(*fit, j as usize, ring.n, #[trigger] slots[j]),
        ensures
            forall|j: int| 0 <= j < count ==> kept(*fit, j as usize, ring.n, #[trigger] slots[j]),
        decreases MAX_N - ring.n, count - streak,
    {
        let i = ring.index;
        match fit(i, ring.n) {
            Ok(s) => {
                slots.set(i, Some(s));
                let next = if i + 1 == count {
                    0
                } else {
                    i + 1
                };
                proof {
                    streak = streak + 1;
                }
                if next == ring.last_changed {
                    assert forall|j: int| 0 <= j < count implies kept(
                        *fit,
                        j as usize,
                        ring.n,
                        #[trigger] slots[j],
                    ) by {
                        assert(ring_offset(j, ring.last_changed as int, count as int) < streak);
                    }
                    break;
                }
                ring.index = next;
            },
            Err(e) => {
                assert(e == ApproxNotFoundError);
                assert(fails_at(*fit, i, ring.n));
                assert(some_fails(*fit, count, ring.n));
                if ring.n == MAX_N {
                    return Err(ApproxNotFoundError);
                }
                proof {
                    streak = 0;
                }
                ring.n = ring.n + 1;
                ring.last_changed = i;
            },
        }
    }
    let n = ring.n;
    let mut out: Vec<T> = Vec::new();
    let ghost full = slots@;
    let mut j: usize = 0;
    while j < count
        invariant
            j <= count,
            full.len() == count,
            slots@ == full.subrange(j as int, count as int),
            out.len() == j,
            forall|q: int| 0 <= q < j ==> fit.ensures((q as usize, n), Ok(#[trigger] out[q])),
            forall|q: int| 0 <= q < count ==> kept(*fit, q as usize, n, #[trigger] full[q]),
        decreases count - j,
    {
        let slot = slots.remove(0);
        match slot {
            Some(s) => {
                out.push(s);
            },
            None => {
                assert(false);
            },
        }
        j = j + 1;
    }
    assert(batch_fit_at(*fit, n, out@));
    assert(batch_result(*fit, count, out@));
    Ok(out)
}

/// The batch keeps the order of its curves: where every spline that `fit` may return for
/// curve `i` has a property `spans(i, _)` (it starts at that curve's start and ends at its
/// end, say), the `k`-th spline of a batch result has `spans(k, _)`.
pub proof fn lemma_batch_keeps_order<T, F: Fn(usize, usize) -> Result<T, ApproxNotFoundError>>(
    fit: F,
    spans: spec_fn(usize, T) -> bool,
    n: usize,
    v: Seq<T>,
)
    requires
        batch_fit_at(fit, n, v),
        forall|i: usize, m: usize, s: T| #[trigger] fit.ensures((i, m), Ok(s)) ==> spans(i, s),
    ensures
        forall|k: int| 0 <= k < v.len() ==> spans(k as usize, #[trigger] v[k]),
{
    assert forall|k: int| 0 <= k < v.len() implies spans(k as usize, #[trigger] v[k]) by {
        assert(fit.ensures((k as usize, n), Ok(v[k])));
    }
}

} // verus!
