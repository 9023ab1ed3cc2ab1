//! Conic to quadratic: classification, how a sub-interval is cut out, binary subdivision,
//! and the subdivision level.
use std::cmp::Ordering;
use vstd::prelude::*;

verus! {

/// The shape of a conic, from how its weight compares with one.
#[derive(Debug, Clone, Copy, PartialEq, Eq, Structural)]
pub enum ConicKind {
    /// The weight is below one.
    Ellipse,
    /// The weight is one.
    Parabola,
    /// The weight is above one.
    Hyperbola,
}

/// The kind of a conic whose weight compares with one as `o` says.
pub open spec fn kind_of(o: Ordering) -> ConicKind {
    match o {
        Ordering::Less => ConicKind::Ellipse,
        Ordering::Equal => ConicKind::Parabola,
        Ordering::Greater => ConicKind::Hyperbola,
    }
}

impl ConicKind {
    /// Classifies a conic given the ordering of its weight against one.
    pub fn from_weight_ordering(o: Ordering) -> (k: ConicKind)
        ensures
            k == kind_of(o),
    {
        match o {
            Ordering::Less => ConicKind::Ellipse,
            Ordering::Equal => ConicKind::Parabola,
            Ordering::Greater => ConicKind::Hyperbola,
        }
    }
}

/// How the piece of a conic between two parameters is cut out.
#[derive(Debug, Clone, Copy, PartialEq, Eq, Structural)]
pub enum ChopPlan {
    /// The interval is the whole curve: the piece is the curve itself.
    Whole,
    /// The interval starts at the start: the left half of one chop at its end.
    Head,
    /// The interval ends at the end: the right half of one chop at its start.
    Tail,
    /// The interval lies inside: the closed form over both parameters.
    Interior,
}

impl ChopPlan {
    /// The plan for an interval that does or does not reach the start of the curve, and
    /// does or does not reach its end.
    pub fn for_interval(reaches_start: bool, reaches_end: bool) -> (p: ChopPlan)
        ensures
            p == (if reaches_start && reaches_end {
                ChopPlan::Whole
            } else if reaches_start {
                ChopPlan::Head
            } else if reaches_end {
                ChopPlan::Tail
            } else {
                ChopPlan::Interior
            }),
    {
        if reaches_start && reaches_end {
            ChopPlan::Whole
        } else if reaches_start {
            ChopPlan::Head
        } else if reaches_end {
            ChopPlan::Tail
        } else {
            ChopPlan::Interior
        }
    }
}

/// The number of pieces that `level` rounds of halving make: two to the power `level`.
pub open spec fn two_pow(level: nat) -> nat
    decreases level,
{
    if level == 0 {
        1
    } else {
        2 * two_pow((level - 1) as nat)
    }
}

/// `s` is what halving `c` with `chop` to depth `level` yields, leaves from left to right:
/// at depth zero the piece itself, else the leaves of the left half followed by those of
/// the right half, for some pair of halves that `chop` may return for `c`.
pub open spec fn subdivision_of<T, F: Fn(&T) -> (T, T)>(chop: F, c: T, level: nat, s: Seq<T>) -> bool
    decreases level,
{
    if level == 0 {
        s == seq![c]
    } else {
        let half = two_pow((level - 1) as nat) as int;
        &&& s.len() == 2 * half
        &&& exists|l: T, r: T|
            #[trigger] chop.ensures((&c,), (l, r))
                && subdivision_of(chop, l, (level - 1) as nat, s.subrange(0, half))
                && subdivision_of(chop, r, (level - 1) as nat, s.subrange(half, 2 * half))
    }
}

/// Halves `c` with `chop`, then each half again, `level` times over, and returns the
/// `2^level` leaves in order from the start of the curve to its end.
pub fn subdivide<T, F: Fn(&T) -> (T, T)>(c: T, level: usize, chop: &F) -> (r: Vec<T>)
    requires
        forall|x: &T| chop.requires((x,)),
    ensures
        r@.len() == two_pow(level as nat),
        subdivision_of(*chop, c, level as nat, r@),
    decreases level,
{
    if level == 0 {
        let ghost g = c;
        let mut leaf = Vec::new();
        leaf.push(c);
        assert(leaf@ =~= seq![g]);
        return leaf;
    }
    let (left, right) = chop(&c);
    let mut r = subdivide(left, level - 1, chop);
    let mut rest = subdivide(right, level - 1, chop);
    let ghost a = r@;
    let ghost b = rest@;
    r.append(&mut rest);
    proof {
        let half = two_pow((level - 1) as nat) as int;
        assert(r@.subrange(0, half) =~= a);
        assert(r@.subrange(half, 2 * half) =~= b);
    }
    r
}

/// `chop` keeps the endpoints: the left half starts where the piece starts, the right half
/// ends where it ends, and the two halves meet, as `first` and `last` read the endpoints.
pub open spec fn chop_keeps_ends<T, P, F: Fn(&T) -> (T, T)>(
    chop: F,
    first: spec_fn(T) -> P,
    last: spec_fn(T) -> P,
) -> bool {
    forall|x: T, l: T, r: T|
        #[trigger] chop.ensures((&x,), (l, r)) ==> {
            &&& first(l) == first(x)
            &&& last(l) == first(r)
            &&& last(r) == last(x)
        }
}

/// Subdividing with a `chop` that keeps the endpoints gives `2^level` pieces that form one
/// unbroken chain: the first starts where `c` starts, each ends where the next one starts,
/// and the last ends where `c` ends.
pub proof fn lemma_subdivision_continuous<T, P, F: Fn(&T) -> (T, T)>(
    chop: F,
    first: spec_fn(T) -> P,
    last: spec_fn(T) -> P,
    c: T,
    level: nat,
    s: Seq<T>,
)
    requires
        subdivision_of(chop, c, level, s),
        chop_keeps_ends(chop, first, last),
    ensures
        s.len() == two_pow(level),
        first(s[0]) == first(c),
        last(s[s.len() - 1]) == last(c),
        forall|i: int| 0 <= i < s.len() - 1 ==> last(#[trigger] s[i]) == first(s[i + 1]),
    decreases level,
{
    lemma_two_pow_positive(level);
    if level > 0 {
        let half = two_pow((level - 1) as nat) as int;
        let (l, r) = choose|l: T, r: T|
            #[trigger] chop.ensures((&c,), (l, r))
                && subdivision_of(chop, l, (level - 1) as nat, s.subrange(0, half))
                && subdivision_of(chop, r, (level - 1) as nat, s.subrange(half, 2 * half));
        let a = s.subrange(0, half);
        let b = s.subrange(half, 2 * half);
        lemma_subdivision_continuous(chop, first, last, l, (level - 1) as nat, a);
        lemma_subdivision_continuous(chop, first, last, r, (level - 1) as nat, b);
        assert(s =~= a + b);
        assert forall|i: int| 0 <= i < s.len() - 1 implies last(#[trigger] s[i]) == first(s[i + 1]) by {
            if i < half - 1 {
                assert(s[i] == a[i] && s[i + 1] == a[i + 1]);
            } else if i == half - 1 {
                assert(s[i] == a[half - 1] && s[i + 1] == b[0]);
            } else {
                assert(s[i] == b[i - half] && s[i + 1] == b[i - half + 1]);
            }
        }
    }
}

/// Two to any power is at least one.
pub proof fn lemma_two_pow_positive(level: nat)
    ensures
        two_pow(level) >= 1,
    decreases level,
{
    if level > 0 {
        lemma_two_pow_positive((level - 1) as nat);
    }
}

/// The deepest subdivision level that a conic is cut to: at most `2^5` quadratics.
pub const MAX_QUAD_POW2: usize = 5;

/// The first level at or after `from` at which `fits` holds, or the maximum level when
/// none below it does.
pub open spec fn first_fit_from(fits: Seq<bool>, from: nat) -> nat
    decreases MAX_QUAD_POW2 - from,
{
    if from >= MAX_QUAD_POW2 {
        MAX_QUAD_POW2 as nat
    } else if fits[from as int] {
        from
    } else {
        first_fit_from(fits, from + 1)
    }
}

/// The subdivision level of a conic: zero when its error estimate is degenerate (not a
/// number), else the first level at which the estimate, quartered once per level, is
/// within tolerance (`fits[i]` says so of level `i`), or the maximum level.
pub open spec fn level_of(degenerate: bool, fits: Seq<bool>) -> nat {
    if degenerate {
        0
    } else {
        first_fit_from(fits, 0)
    }
}

/// What `first_fit_from` is: no level from `from` up to it fits, and it fits unless it is
/// the maximum.
pub proof fn lemma_first_fit_from(fits: Seq<bool>, from: nat)
    requires
        from <= MAX_QUAD_POW2,
        fits.len() >= MAX_QUAD_POW2,
    ensures
        from <= first_fit_from(fits, from) <= MAX_QUAD_POW2,
        forall|j: int| from <= j < first_fit_from(fits, from) ==> !#[trigger] fits[j],
        first_fit_from(fits, from) < MAX_QUAD_POW2 ==> fits[first_fit_from(fits, from) as int],
    decreases MAX_QUAD_POW2 - from,
{
    if from < MAX_QUAD_POW2 && !fits[from as int] {
        lemma_first_fit_from(fits, from + 1);
    }
}

/// Picks the subdivision level of a conic from its error estimate: `degenerate` says the
/// estimate is not a number, and `fits[i]` says the estimate quartered `i` times is
/// within tolerance. The level is zero for a degenerate estimate, else the first level
/// that fits, or `MAX_QUAD_POW2` when none below it does.
pub fn quad_pow2_level(degenerate: bool, fits: &[bool]) -> (level: usize)
    requires
        fits@.len() >= MAX_QUAD_POW2,
    ensures
        level == level_of(degenerate, fits@),
        level <= MAX_QUAD_POW2,
        degenerate ==> level == 0,
        !degenerate ==> forall|j: int| 0 <= j < level ==> !#[trigger] fits@[j],
        !degenerate && level < MAX_QUAD_POW2 ==> fits@[level as int],
{
    proof {
        lemma_first_fit_from(fits@, 0);
    }
    if degenerate {
        return 0;
    }
    let mut level: usize = 0;
    while level < MAX_QUAD_POW2
        invariant
            !degenerate,
            level <= MAX_QUAD_POW2,
            fits@.len() >= MAX_QUAD_POW2,
            first_fit_from(fits@, level as nat) == first_fit_from(fits@, 0),
            forall|j: int| 0 <= j < level ==> !#[trigger] fits@[j],
        decreases MAX_QUAD_POW2 - level,
    {
        if fits[level] {
            return level;
        }
        level = level + 1;
    }
    level
}

/// A tighter tolerance never lowers the level: where every level that fits the tighter
/// tolerance (`tight`) also fits the looser one (`loose`), the looser one's level is at
/// most the tighter one's.
pub proof fn lemma_quad_pow2_monotone(degenerate: bool, loose: Seq<bool>, tight: Seq<bool>)
    requires
        loose.len() >= MAX_QUAD_POW2,
        tight.len() >= MAX_QUAD_POW2,
        forall|i: int| 0 <= i < MAX_QUAD_POW2 && #[trigger] tight[i] ==> loose[i],
    ensures
        level_of(degenerate, loose) <= level_of(degenerate, tight),
{
    lemma_first_fit_from(loose, 0);
    lemma_first_fit_from(tight, 0);
    let t = first_fit_from(tight, 0);
    if t < MAX_QUAD_POW2 {
        assert(loose[t as int]);
    }
}

} // verus!
