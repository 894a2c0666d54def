//! Scaling schemes: pure transforms that read every individual's raw score
//! and write its fitness score, never reordering or resizing the population.
//!
//! Linear scaling follows Goldberg's construction `fitness = a*raw + b`,
//! stated here over integers: each branch yields a numerator pair and a
//! positive denominator, and the quotient is taken once per individual. The
//! `avg` it builds on is the half-range `(max - min) / 2`, the convention
//! this engine has always used, not the arithmetic mean.

use vstd::prelude::*;

use crate::ga_core::GAIndividual;
use crate::ga_population::{GAPopulation, GAPopulationSortBasis};

verus! {

/// Default multiplier of the linear scaling scheme.
pub const GA_LINEAR_SCALING_MULTIPLIER: i64 = 2;

/// Largest accepted linear-scaling multiplier.
pub const GA_LINEAR_SCALING_MAX_MULTIPLIER: i64 = 100;

/// Largest raw-score magnitude linear scaling accepts (100.0 in millionths):
/// it keeps every intermediate product inside one machine word.
pub const GA_SCORE_LIMIT: i64 = 100_000_000;

/// Division that rounds toward negative infinity, for a positive divisor:
/// exactly the `/` of specifications.
fn floor_div(a: i64, b: i64) -> (q: i64)
    requires
        b >= 1,
        a > i64::MIN,
    ensures
        q == a as int / b as int,
{
    if a >= 0 {
        let q = (a as u64) / (b as u64);
        proof {
            vstd::arithmetic::div_mod::lemma_div_nonincreasing(a as int, b as int);
            vstd::arithmetic::div_mod::lemma_div_pos_is_pos(a as int, b as int);
        }
        q as i64
    } else {
        let na = (-a) as u64;
        let bu = b as u64;
        let d = (na + bu - 1) / bu;
        proof {
            let k = na as int / bu as int;
            let r = na as int % bu as int;
            vstd::arithmetic::div_mod::lemma_fundamental_div_mod(na as int, bu as int);
            vstd::arithmetic::div_mod::lemma_mod_bound(na as int, bu as int);
            assert(na as int == bu as int * k + r);
            vstd::arithmetic::mul::lemma_mul_is_commutative(bu as int, k);
            vstd::arithmetic::mul::lemma_mul_unary_negation(k, bu as int);
            vstd::arithmetic::mul::lemma_mul_is_distributive_add(bu as int, k, 1);
            vstd::arithmetic::mul::lemma_mul_unary_negation(k + 1, bu as int);
            vstd::arithmetic::mul::lemma_mul_is_commutative(bu as int, k + 1);
            if r == 0 {
                assert(na as int + bu - 1 == k * bu as int + (bu as int - 1));
                vstd::arithmetic::div_mod::lemma_fundamental_div_mod_converse_div(
                    na as int + bu - 1,
                    bu as int,
                    k,
                    bu as int - 1,
                );
                assert(a as int == (-k) * bu as int + 0);
                vstd::arithmetic::div_mod::lemma_fundamental_div_mod_converse_div(
                    a as int,
                    bu as int,
                    -k,
                    0,
                );
            } else {
                assert(na as int + bu - 1 == (k + 1) * bu as int + (r - 1));
                vstd::arithmetic::div_mod::lemma_fundamental_div_mod_converse_div(
                    na as int + bu - 1,
                    bu as int,
                    k + 1,
                    r - 1,
                );
                assert(a as int == (-k - 1) * bu as int + (bu as int - r));
                vstd::arithmetic::div_mod::lemma_fundamental_div_mod_converse_div(
                    a as int,
                    bu as int,
                    -k - 1,
                    bu as int - r,
                );
            }
            // the ceiling of na / bu is at most na, so negating it fits
            vstd::arithmetic::mul::lemma_mul_increases(bu as int, na as int);
            vstd::arithmetic::mul::lemma_mul_is_commutative(na as int, bu as int);
            assert(na as int + bu - 1 <= na as int * bu as int + (bu as int - 1));
            vstd::arithmetic::div_mod::lemma_fundamental_div_mod_converse_div(
                na as int * bu as int + (bu as int - 1),
                bu as int,
                na as int,
                bu as int - 1,
            );
            vstd::arithmetic::div_mod::lemma_div_is_ordered(
                na as int + bu - 1,
                na as int * bu as int + (bu as int - 1),
                bu as int,
            );
            assert(d <= na);
        }
        -(d as i64)
    }
}

/// The magnitude of a product is bounded by the product of the magnitudes.
proof fn lemma_abs_mul_le(x: int, y: int, bx: int, by: int)
    requires
        -bx <= x <= bx,
        -by <= y <= by,
    ensures
        -(bx * by) <= x * y <= bx * by,
{
    assert(-(bx * by) <= x * y <= bx * by) by (nonlinear_arith)
        requires
            -bx <= x <= bx,
            -by <= y <= by,
    ;
}

/// The half-range `avg` linear scaling builds on.
pub open spec fn lin_avg(mx: int, mn: int) -> int {
    (mx - mn) / 2
}

/// The linear coefficients as `(a_num, b_num, delta)`, so that an individual
/// with raw score `raw` is assigned fitness `(a_num * raw + b_num) / delta`.
/// The first branch pins the best score to `multiplier * avg`; the second
/// pins the worst score to zero.
pub open spec fn lin_coeffs(mx: int, mn: int, m: int) -> (int, int, int) {
    let avg = lin_avg(mx, mn);
    if mn > (m * avg - mx) / (m - 1) {
        (avg * (m - 1), avg * (mx - m * avg), mx - avg)
    } else {
        (avg, -mn * avg, avg - mn)
    }
}

/// The fitness linear scaling assigns to position `j` of `raws`: the linear
/// transform of its raw score, or the raw score itself when every score is
/// equal or the denominator degenerates (so a run never aborts merely
/// because scores converged).
pub open spec fn lin_scaled(raws: Seq<int>, m: int, j: int) -> int {
    let mx = raws.max();
    let mn = raws.min();
    if mx == mn {
        raws[j]
    } else {
        let c = lin_coeffs(mx, mn, m);
        if c.2 <= 0 {
            raws[j]
        } else {
            (c.0 * raws[j] + c.1) / c.2
        }
    }
}

/// Linear scaling is a monotone transform: whenever its slope is not
/// negative — and the slope numerator is `avg * (multiplier - 1)` or `avg`
/// with `avg >= 0`, so that is always — the fitness ordering it writes
/// preserves the raw-score ordering.
pub proof fn lemma_linear_scaling_monotone(raws: Seq<int>, m: int, j: int, k: int)
    requires
        2 <= m,
        0 <= j < raws.len(),
        0 <= k < raws.len(),
        raws[j] <= raws[k],
    ensures
        lin_scaled(raws, m, j) <= lin_scaled(raws, m, k),
{
    let mx = raws.max();
    let mn = raws.min();
    raws.max_ensures();
    raws.min_ensures();
    if mx != mn {
        let avg = lin_avg(mx, mn);
        assert(mn <= raws[j] <= mx);
        vstd::arithmetic::div_mod::lemma_div_is_ordered(0, mx - mn, 2);
        let c = lin_coeffs(mx, mn, m);
        if c.2 > 0 {
            assert(c.0 >= 0) by {
                if mn > (m * avg - mx) / (m - 1) {
                    vstd::arithmetic::mul::lemma_mul_nonnegative(avg, m - 1);
                }
            }
            vstd::arithmetic::mul::lemma_mul_inequality(raws[j], raws[k], c.0);
            vstd::arithmetic::mul::lemma_mul_is_commutative(raws[j], c.0);
            vstd::arithmetic::mul::lemma_mul_is_commutative(raws[k], c.0);
            vstd::arithmetic::div_mod::lemma_div_is_ordered(
                c.0 * raws[j] + c.1,
                c.0 * raws[k] + c.1,
                c.2,
            );
        }
    }
}

/// When every raw score is equal the linear-scaling denominator would be
/// zero; the transform then falls back to the identity, so each individual
/// keeps its raw score as its fitness and no run aborts on converged scores.
pub proof fn lemma_linear_scaling_degenerate(raws: Seq<int>, m: int, j: int)
    requires
        0 <= j < raws.len(),
        forall|a: int| 0 <= a < raws.len() ==> #[trigger] raws[a] == raws[j],
    ensures
        lin_scaled(raws, m, j) == raws[j],
{
    raws.max_ensures();
    raws.min_ensures();
    assert(raws.contains(raws.max()));
    assert(raws.contains(raws.min()));
    let kx = choose|k: int| 0 <= k < raws.len() && raws[k] == raws.max();
    let kn = choose|k: int| 0 <= k < raws.len() && raws[k] == raws.min();
    assert(raws[kx] == raws[j] && raws[kn] == raws[j]);
}

/// Scaling scheme: reads raw scores and writes fitness scores across one
/// population snapshot, visiting every individual exactly once.
pub trait GAScaling<T: GAIndividual> {
    /// The populations (by their raw scores) this scheme accepts.
    spec fn applicable(&self, raws: Seq<int>) -> bool;

    /// The fitness this scheme assigns to position `j`.
    spec fn scaled(&self, raws: Seq<int>, j: int) -> int;

    /// Writes `self.scaled` of the raw scores into every individual's
    /// fitness score. Membership, raw scores and the raw ordering are left
    /// alone.
    fn evaluate(&self, pop: &mut GAPopulation<T>)
        requires
            old(pop).wf(),
            self.applicable(old(pop).raws()),
        ensures
            final(pop).wf(),
            final(pop).size_spec() == old(pop).size_spec(),
            final(pop).sort_order_spec() == old(pop).sort_order_spec(),
            final(pop).raws() == old(pop).raws(),
            final(pop).order_spec(GAPopulationSortBasis::Raw) == old(pop).order_spec(
                GAPopulationSortBasis::Raw,
            ),
            final(pop).is_sorted(GAPopulationSortBasis::Raw) == old(pop).is_sorted(
                GAPopulationSortBasis::Raw,
            ),
            forall|j: int|
                0 <= j < old(pop).size_spec() ==> final(pop).fits()[j] == self.scaled(
                    old(pop).raws(),
                    j,
                ),
    ;
}

/// Copies every raw score into the fitness score.
fn copy_raw_to_fitness<T: GAIndividual>(pop: &mut GAPopulation<T>)
    requires
        old(pop).wf(),
    ensures
        final(pop).wf(),
        final(pop).size_spec() == old(pop).size_spec(),
        final(pop).sort_order_spec() == old(pop).sort_order_spec(),
        final(pop).raws() == old(pop).raws(),
        final(pop).order_spec(GAPopulationSortBasis::Raw) == old(pop).order_spec(
            GAPopulationSortBasis::Raw,
        ),
        final(pop).is_sorted(GAPopulationSortBasis::Raw) == old(pop).is_sorted(
            GAPopulationSortBasis::Raw,
        ),
        forall|j: int|
            0 <= j < old(pop).size_spec() ==> final(pop).fits()[j] == old(pop).raws()[j],
{
    let n = pop.size();
    let mut i: usize = 0;
    while i < n
        invariant
            i <= n,
            pop.wf(),
            n == pop.size_spec(),
            pop.size_spec() == old(pop).size_spec(),
            pop.sort_order_spec() == old(pop).sort_order_spec(),
            pop.raws() == old(pop).raws(),
            pop.order_spec(GAPopulationSortBasis::Raw) == old(pop).order_spec(
                GAPopulationSortBasis::Raw,
            ),
            pop.is_sorted(GAPopulationSortBasis::Raw) == old(pop).is_sorted(
                GAPopulationSortBasis::Raw,
            ),
            forall|j: int| 0 <= j < i ==> pop.fits()[j] == old(pop).raws()[j],
        decreases n - i,
    {
        let r = pop.raw_at(i);
        pop.set_fitness_at(i, r);
        i += 1;
    }
}

/// No scaling: fitness is the raw score, the identity baseline used when the
/// raw score already is the fitness.
pub struct GANoScaling;

impl<T: GAIndividual> GAScaling<T> for GANoScaling {
    /// Accepts every population.
    open spec fn applicable(&self, raws: Seq<int>) -> bool {
        true
    }

    /// The raw score itself.
    open spec fn scaled(&self, raws: Seq<int>, j: int) -> int {
        raws[j]
    }

    fn evaluate(&self, pop: &mut GAPopulation<T>) {
        copy_raw_to_fitness(pop);
    }
}

/// Linear scaling: `fitness = a*raw + b` with coefficients derived from the
/// population's extremes after Goldberg. Unlike the scores, the multiplier
/// is a whole number, not a fixed-point value: the accepted band keeps every
/// intermediate product inside one machine word.
pub struct GALinearScaling {
    multiplier: i64,
}

impl GALinearScaling {
    /// The configured multiplier.
    pub closed spec fn multiplier_spec(self) -> int {
        self.multiplier as int
    }

    /// Creates a linear scaling scheme with the given multiplier.
    pub fn new(mult: i64) -> (r: GALinearScaling)
        requires
            GA_LINEAR_SCALING_MULTIPLIER <= mult <= GA_LINEAR_SCALING_MAX_MULTIPLIER,
        ensures
            r.multiplier_spec() == mult,
    {
        GALinearScaling { multiplier: mult }
    }

    /// Derives the scaling coefficients `(a_num, b_num, delta)` from the
    /// population's extreme raw scores and their half-range `avg`.
    fn prescale(&self, max: i64, min: i64, avg: i64) -> (r: (i64, i64, i64))
        requires
            GA_LINEAR_SCALING_MULTIPLIER <= self.multiplier_spec()
                <= GA_LINEAR_SCALING_MAX_MULTIPLIER,
            -GA_SCORE_LIMIT <= min,
            min <= max,
            max <= GA_SCORE_LIMIT,
            avg == lin_avg(max as int, min as int),
        ensures
            (r.0 as int, r.1 as int, r.2 as int) == lin_coeffs(
                max as int,
                min as int,
                self.multiplier_spec(),
            ),
            -GA_SCORE_LIMIT * GA_LINEAR_SCALING_MAX_MULTIPLIER <= r.0 as int
                <= GA_SCORE_LIMIT * GA_LINEAR_SCALING_MAX_MULTIPLIER,
            r.1 as int <= 2 * GA_SCORE_LIMIT * GA_SCORE_LIMIT
                * GA_LINEAR_SCALING_MAX_MULTIPLIER,
            -(2 * GA_SCORE_LIMIT * GA_SCORE_LIMIT * GA_LINEAR_SCALING_MAX_MULTIPLIER)
                <= r.1 as int,
            r.2 as int <= 2 * GA_SCORE_LIMIT,
    {
        let m = self.multiplier;
        proof {
            vstd::arithmetic::div_mod::lemma_div_is_ordered(
                0,
                max as int - min as int,
                2,
            );
            vstd::arithmetic::div_mod::lemma_div_is_ordered(
                max as int - min as int,
                2 * GA_SCORE_LIMIT as int,
                2,
            );
            vstd::arithmetic::div_mod::lemma_fundamental_div_mod_converse_div(
                2 * GA_SCORE_LIMIT as int,
                2,
                GA_SCORE_LIMIT as int,
                0,
            );
        }
        let a;
        let b;
        let delta;
        proof {
            lemma_abs_mul_le(
                m as int,
                avg as int,
                GA_LINEAR_SCALING_MAX_MULTIPLIER as int,
                GA_SCORE_LIMIT as int,
            );
        }
        if min > floor_div(m * avg - max, m - 1) {
            delta = max - avg;
            proof {
                lemma_abs_mul_le(
                    avg as int,
                    m as int - 1,
                    GA_SCORE_LIMIT as int,
                    GA_LINEAR_SCALING_MAX_MULTIPLIER as int,
                );
                lemma_abs_mul_le(
                    avg as int,
                    max as int - m as int * avg as int,
                    GA_SCORE_LIMIT as int,
                    (GA_LINEAR_SCALING_MAX_MULTIPLIER + 1) as int * GA_SCORE_LIMIT as int,
                );
            }
            a = avg * (m - 1);
            b = avg * (max - m * avg);
        } else {
            delta = avg - min;
            a = avg;
            proof {
                lemma_abs_mul_le(
                    -min as int,
                    avg as int,
                    GA_SCORE_LIMIT as int,
                    GA_SCORE_LIMIT as int,
                );
            }
            b = (-min) * avg;
        }
        (a, b, delta)
    }
}

impl<T: GAIndividual> GAScaling<T> for GALinearScaling {
    /// Accepts populations whose raw scores all fit the score limit, under a
    /// multiplier in the accepted band.
    open spec fn applicable(&self, raws: Seq<int>) -> bool {
        &&& GA_LINEAR_SCALING_MULTIPLIER <= self.multiplier_spec()
            <= GA_LINEAR_SCALING_MAX_MULTIPLIER
        &&& forall|j: int| 0 <= j < raws.len() ==> -GA_SCORE_LIMIT <= #[trigger] raws[j]
            <= GA_SCORE_LIMIT
    }

    /// The linear transform of position `j`'s raw score.
    open spec fn scaled(&self, raws: Seq<int>, j: int) -> int {
        lin_scaled(raws, self.multiplier_spec(), j)
    }

    fn evaluate(&self, pop: &mut GAPopulation<T>) {
        let n = pop.size();
        if n == 0 {
            return ;
        }
        let ghost raws = pop.raws();
        let mut mx = pop.raw_at(0);
        let mut mn = pop.raw_at(0);
        let mut i: usize = 1;
        while i < n
            invariant
                1 <= i <= n,
                n == pop.size_spec(),
                raws == pop.raws(),
                raws.len() == n,
                forall|j: int| 0 <= j < i ==> #[trigger] raws[j] <= mx as int,
                forall|j: int| 0 <= j < i ==> mn as int <= #[trigger] raws[j],
                exists|j: int| 0 <= j < i && raws[j] == mx as int,
                exists|j: int| 0 <= j < i && raws[j] == mn as int,
            decreases n - i,
        {
            let r = pop.raw_at(i);
            if r > mx {
                mx = r;
            }
            if r < mn {
                mn = r;
            }
            i += 1;
        }
        proof {
            raws.max_ensures();
            raws.min_ensures();
            let jx = choose|j: int| 0 <= j < n && raws[j] == mx as int;
            assert(raws.contains(raws[jx]));
            let jn = choose|j: int| 0 <= j < n && raws[j] == mn as int;
            assert(raws.contains(raws[jn]));
            assert(raws.contains(raws.max()));
            let kx = choose|k: int| 0 <= k < n && raws[k] == raws.max();
            assert(raws.contains(raws.min()));
            let kn = choose|k: int| 0 <= k < n && raws[k] == raws.min();
            assert(mx as int == raws.max());
            assert(mn as int == raws.min());
        }
        if mx == mn {
            copy_raw_to_fitness(pop);
            return ;
        }
        let diff = mx - mn;
        let avg = floor_div(diff, 2);
        let (a_num, b_num, delta) = self.prescale(mx, mn, avg);
        if delta <= 0 {
            copy_raw_to_fitness(pop);
            return ;
        }
        let mut i: usize = 0;
        while i < n
            invariant
                i <= n,
                pop.wf(),
                n == pop.size_spec(),
                pop.size_spec() == old(pop).size_spec(),
                pop.sort_order_spec() == old(pop).sort_order_spec(),
                pop.raws() == raws,
                raws == old(pop).raws(),
                raws.len() == n,
                pop.order_spec(GAPopulationSortBasis::Raw) == old(pop).order_spec(
                    GAPopulationSortBasis::Raw,
                ),
                pop.is_sorted(GAPopulationSortBasis::Raw) == old(pop).is_sorted(
                    GAPopulationSortBasis::Raw,
                ),
                GA_LINEAR_SCALING_MULTIPLIER <= self.multiplier_spec()
                    <= GA_LINEAR_SCALING_MAX_MULTIPLIER,
                forall|j: int| 0 <= j < n ==> -GA_SCORE_LIMIT <= #[trigger] raws[j]
                    <= GA_SCORE_LIMIT,
                mx as int == raws.max(),
                mn as int == raws.min(),
                mx != mn,
                avg as int == lin_avg(mx as int, mn as int),
                (a_num as int, b_num as int, delta as int) == lin_coeffs(
                    mx as int,
                    mn as int,
                    self.multiplier_spec(),
                ),
                delta >= 1,
                -GA_SCORE_LIMIT * GA_LINEAR_SCALING_MAX_MULTIPLIER <= a_num as int
                    <= GA_SCORE_LIMIT * GA_LINEAR_SCALING_MAX_MULTIPLIER,
                -(2 * GA_SCORE_LIMIT * GA_SCORE_LIMIT * GA_LINEAR_SCALING_MAX_MULTIPLIER)
                    <= b_num as int <= 2 * GA_SCORE_LIMIT * GA_SCORE_LIMIT
                    * GA_LINEAR_SCALING_MAX_MULTIPLIER,
                forall|j: int|
                    0 <= j < i ==> pop.fits()[j] == lin_scaled(
                        raws,
                        self.multiplier_spec(),
                        j,
                    ),
            decreases n - i,
        {
            let r = pop.raw_at(i);
            proof {
                lemma_abs_mul_le(
                    a_num as int,
                    r as int,
                    GA_SCORE_LIMIT as int * GA_LINEAR_SCALING_MAX_MULTIPLIER as int,
                    GA_SCORE_LIMIT as int,
                );
            }
            let num = a_num * r + b_num;
            let f = floor_div(num, delta);
            pop.set_fitness_at(i, f);
            i += 1;
        }
    }
}

} // verus!
