//! Selection schemes: samplers that read a population and draw individuals
//! from it on demand, with replacement, never mutating the membership.
//!
//! A selector is bound to a score basis at construction. `update` refreshes
//! whatever cached state the scheme keeps (and may re-sort the population's
//! cached orderings); it must be called again whenever the population's
//! scores or membership change. `select` then draws one individual, spending
//! randomness only from the context handed in.

use vstd::prelude::*;

use crate::ga_core::GAIndividual;
use crate::ga_population::{GAPopulation, GAPopulationSortBasis, GAPopulationSortOrder};
use crate::ga_random::{lcg_draw, lcg_draw_wide, lcg_next, GARandomCtx};

verus! {

/// Selector: the interface of all selection schemes.
pub trait GASelector<T: GAIndividual> {
    /// When this selector's cached state fits `pop`, so drawing is possible.
    spec fn ready(&self, pop: GAPopulation<T>) -> bool;

    /// How the chosen individual and the random context after the draw
    /// relate to the population and the random context before it.
    spec fn selects(
        &self,
        pop: GAPopulation<T>,
        rng0: GARandomCtx,
        rng1: GARandomCtx,
        chosen: T,
    ) -> bool;

    /// Recomputes the cached sampling state from the current population.
    /// The membership is never changed; a scheme may refresh the
    /// population's cached orderings.
    fn update(&mut self, pop: &mut GAPopulation<T>)
        requires
            old(pop).wf(),
        ensures
            final(pop).wf(),
            final(pop).members() == old(pop).members(),
            final(pop).sort_order_spec() == old(pop).sort_order_spec(),
            final(self).ready(*final(pop)),
    ;

    /// Draws one individual. The draw does not remove it: sampling is with
    /// replacement.
    fn select<'a>(&self, pop: &'a GAPopulation<T>, rng_ctx: &mut GARandomCtx) -> (r: &'a T)
        requires
            pop.wf(),
            pop.size_spec() > 0,
            self.ready(*pop),
        ensures
            self.selects(*pop, *old(rng_ctx), *final(rng_ctx), *r),
    ;
}

/// Rank selector: deterministically returns the best individual by the bound
/// basis. `update` re-sorts the population by that basis.
pub struct GARankSelector {
    basis: GAPopulationSortBasis,
}

impl GARankSelector {
    /// The bound score basis.
    pub closed spec fn basis_spec(self) -> GAPopulationSortBasis {
        self.basis
    }

    /// Creates a rank selector bound to `basis`.
    pub fn new(basis: GAPopulationSortBasis) -> (r: GARankSelector)
        ensures
            r.basis_spec() == basis,
    {
        GARankSelector { basis }
    }
}

impl<T: GAIndividual> GASelector<T> for GARankSelector {
    /// Ready once the population's ordering for the bound basis is valid.
    open spec fn ready(&self, pop: GAPopulation<T>) -> bool {
        pop.is_sorted(self.basis_spec())
    }

    /// Always the front of the bound ordering; the random context is not
    /// touched.
    open spec fn selects(
        &self,
        pop: GAPopulation<T>,
        rng0: GARandomCtx,
        rng1: GARandomCtx,
        chosen: T,
    ) -> bool {
        &&& rng1 == rng0
        &&& chosen == pop.members()[pop.order_spec(self.basis_spec())[0] as int]
    }

    /// Beyond the trait's contract: the selector itself is untouched.
    fn update(&mut self, pop: &mut GAPopulation<T>)
        ensures
            *final(self) == *old(self),
    {
        match self.basis {
            GAPopulationSortBasis::Raw => pop.sort_by_raw(),
            GAPopulationSortBasis::Scaled => pop.sort_by_fitness(),
        }
    }

    fn select<'a>(&self, pop: &'a GAPopulation<T>, rng_ctx: &mut GARandomCtx) -> (r: &'a T) {
        match pop.individual(0, self.basis) {
            Ok(ind) => ind,
            Err(_) => vstd::pervasive::unreached(),
        }
    }
}

/// Uniform selector: every member is equally likely, independent of score.
pub struct GAUniformSelector {
}

impl GAUniformSelector {
    /// Creates a uniform selector.
    pub fn new() -> GAUniformSelector {
        GAUniformSelector {  }
    }
}

impl<T: GAIndividual> GASelector<T> for GAUniformSelector {
    /// No cached state depends on the population.
    open spec fn ready(&self, pop: GAPopulation<T>) -> bool {
        true
    }

    /// One draw below the population size picks the insertion position.
    open spec fn selects(
        &self,
        pop: GAPopulation<T>,
        rng0: GARandomCtx,
        rng1: GARandomCtx,
        chosen: T,
    ) -> bool {
        &&& rng1.state_spec() == lcg_next(rng0.state_spec())
        &&& chosen == pop.members()[lcg_draw(rng0.state_spec(), pop.size_spec() as u64) as int]
    }

    /// `update` is a no-op: nothing depends on the scores.
    fn update(&mut self, pop: &mut GAPopulation<T>)
        ensures
            *final(self) == *old(self),
            *final(pop) == *old(pop),
    {
    }

    fn select<'a>(&self, pop: &'a GAPopulation<T>, rng_ctx: &mut GARandomCtx) -> (r: &'a T) {
        let n = pop.size();
        let idx = rng_ctx.next_below(n as u64) as usize;
        match pop.member_at(idx) {
            Ok(ind) => ind,
            Err(_) => vstd::pervasive::unreached(),
        }
    }
}

/// A negative score carries no selection weight.
pub open spec fn clamped(s: int) -> int {
    if s < 0 {
        0
    } else {
        s
    }
}

/// The sum of the clamped first `k` scores.
pub open spec fn sum_clamped(scores: Seq<int>, k: int) -> int
    decreases k,
{
    if k <= 0 {
        0
    } else {
        sum_clamped(scores, k - 1) + clamped(scores[k - 1])
    }
}

/// Roulette-wheel selector: the probability of drawing an individual is
/// proportional to its score on the bound basis. Scores are meant to be
/// non-negative (the caller's or the scaling strategy's responsibility);
/// negative ones count as zero weight here.
pub struct GARouletteWheelSelector {
    basis: GAPopulationSortBasis,
    wheel: Vec<i128>,
    total: i128,
}

impl GARouletteWheelSelector {
    /// The bound score basis.
    pub closed spec fn basis_spec(self) -> GAPopulationSortBasis {
        self.basis
    }

    /// The cumulative weight table, one entry per insertion position.
    pub closed spec fn wheel_spec(self) -> Seq<i128> {
        self.wheel@
    }

    /// The total weight: the last table entry, or zero for an empty table.
    pub closed spec fn total_spec(self) -> int {
        self.total as int
    }

    /// Creates a roulette-wheel selector bound to `basis`, with an empty
    /// cumulative table: `update` must run before the first draw.
    pub fn new(basis: GAPopulationSortBasis) -> (r: GARouletteWheelSelector)
        ensures
            r.basis_spec() == basis,
            r.wheel_spec().len() == 0,
    {
        GARouletteWheelSelector { basis, wheel: Vec::new(), total: 0 }
    }
}

impl<T: GAIndividual> GASelector<T> for GARouletteWheelSelector {
    /// Ready once the cumulative table matches the population's scores on
    /// the bound basis.
    open spec fn ready(&self, pop: GAPopulation<T>) -> bool {
        &&& self.wheel_spec().len() == pop.size_spec()
        &&& forall|i: int|
            0 <= i < pop.size_spec() ==> #[trigger] self.wheel_spec()[i] as int == sum_clamped(
                pop.scores(self.basis_spec()),
                i + 1,
            )
        &&& self.total_spec() == sum_clamped(pop.scores(self.basis_spec()), pop.size_spec() as int)
    }

    /// With positive total weight, one wide draw below it falls into exactly
    /// one slot of the cumulative table, and that slot's individual is
    /// chosen. With no weight at all there is no distribution to follow and
    /// the first individual is returned, the random context untouched.
    open spec fn selects(
        &self,
        pop: GAPopulation<T>,
        rng0: GARandomCtx,
        rng1: GARandomCtx,
        chosen: T,
    ) -> bool {
        if self.total_spec() > 0 {
            let u = lcg_draw_wide(rng0.state_spec(), self.total_spec() as i128);
            &&& rng1.state_spec() == lcg_next(lcg_next(rng0.state_spec()))
            &&& exists|i: int|
                {
                    &&& 0 <= i < pop.size_spec()
                    &&& u < #[trigger] self.wheel_spec()[i] as int
                    &&& forall|t: int| 0 <= t < i ==> #[trigger] self.wheel_spec()[t] as int <= u
                    &&& chosen == pop.members()[i]
                }
        } else {
            &&& rng1 == rng0
            &&& chosen == pop.members()[0]
        }
    }

    /// Beyond the trait's contract: the bound basis survives the rebuild,
    /// and the population itself is untouched.
    fn update(&mut self, pop: &mut GAPopulation<T>)
        ensures
            final(self).basis_spec() == old(self).basis_spec(),
            *final(pop) == *old(pop),
    {
        let n = pop.size();
        let mut wheel: Vec<i128> = Vec::new();
        let mut cum: i128 = 0;
        let mut i: usize = 0;
        while i < n
            invariant
                i <= n,
                n == pop.size_spec(),
                wheel@.len() == i,
                cum == sum_clamped(pop.scores(self.basis_spec()), i as int),
                0 <= cum <= i * 0x8000_0000_0000_0000,
                forall|t: int|
                    0 <= t < i ==> #[trigger] wheel@[t] as int == sum_clamped(
                        pop.scores(self.basis_spec()),
                        t + 1,
                    ),
                pop.wf(),
            decreases n - i,
        {
            let s = pop.score_at(i, self.basis);
            let w: i128 = if s < 0 {
                0
            } else {
                s as i128
            };
            cum = cum + w;
            wheel.push(cum);
            i += 1;
        }
        self.wheel = wheel;
        self.total = cum;
    }

    fn select<'a>(&self, pop: &'a GAPopulation<T>, rng_ctx: &mut GARandomCtx) -> (r: &'a T) {
        if self.total <= 0 {
            match pop.member_at(0) {
                Ok(ind) => ind,
                Err(_) => vstd::pervasive::unreached(),
            }
        } else {
            let u = rng_ctx.next_wide_below(self.total);
            let n = pop.size();
            let mut i: usize = 0;
            while self.wheel[i] <= u
                invariant
                    0 <= i < n,
                    n == pop.size_spec(),
                    pop.wf(),
                    self.ready(*pop),
                    self.total_spec() > 0,
                    0 <= u < self.total_spec(),
                    self.wheel_spec().len() == n,
                    forall|t: int| 0 <= t < i ==> #[trigger] self.wheel_spec()[t] as int <= u,
                decreases n - i,
            {
                proof {
                    if i + 1 == n {
                        assert(self.wheel_spec()[i as int] as int == self.total_spec());
                        assert(false);
                    }
                }
                i += 1;
            }
            proof {
                assert(u < self.wheel_spec()[i as int] as int);
            }
            match pop.member_at(i) {
                Ok(ind) => ind,
                Err(_) => vstd::pervasive::unreached(),
            }
        }
    }
}

/// The cumulative weights never decrease.
proof fn lemma_sum_clamped_monotone(scores: Seq<int>, a: int, b: int)
    requires
        0 <= a <= b,
    ensures
        sum_clamped(scores, a) <= sum_clamped(scores, b),
    decreases b - a,
{
    if a < b {
        lemma_sum_clamped_monotone(scores, a, b - 1);
    }
}

/// Roulette-wheel proportionality: the draws that pick the member at
/// position `i` are exactly those in its slot of the cumulative table, and
/// the slot is as wide as the member's clamped score — so each member's
/// share of the draws is proportional to its score.
pub proof fn lemma_roulette_slot<T: GAIndividual>(
    selector: GARouletteWheelSelector,
    pop: GAPopulation<T>,
    i: int,
    u: int,
)
    requires
        (GASelector::<T>::ready(&selector, pop)),
        0 <= i < pop.size_spec(),
        0 <= u < selector.total_spec(),
    ensures
        ({
            let scores = pop.scores(selector.basis_spec());
            &&& (sum_clamped(scores, i) <= u < sum_clamped(scores, i + 1)) <==> (u
                < selector.wheel_spec()[i] as int && forall|t: int|
                0 <= t < i ==> #[trigger] selector.wheel_spec()[t] as int <= u)
            &&& sum_clamped(scores, i + 1) - sum_clamped(scores, i) == clamped(scores[i])
        }),
{
    let scores = pop.scores(selector.basis_spec());
    assert(selector.wheel_spec()[i] as int == sum_clamped(scores, i + 1));
    if sum_clamped(scores, i) <= u < sum_clamped(scores, i + 1) {
        assert forall|t: int| 0 <= t < i implies #[trigger] selector.wheel_spec()[t] as int
            <= u by {
            lemma_sum_clamped_monotone(scores, t + 1, i);
        }
    }
    if u < selector.wheel_spec()[i] as int && (forall|t: int|
        0 <= t < i ==> #[trigger] selector.wheel_spec()[t] as int <= u) {
        if i > 0 {
            assert(selector.wheel_spec()[i - 1] as int <= u);
        }
    }
}

/// Whether position `i` strictly beats position `j` on `scores` under the
/// population's sort order.
pub open spec fn beats(
    scores: Seq<int>,
    order: GAPopulationSortOrder,
    i: int,
    j: int,
) -> bool {
    match order {
        GAPopulationSortOrder::HighIsBest => scores[i] > scores[j],
        GAPopulationSortOrder::LowIsBest => scores[i] < scores[j],
    }
}

/// The random state after `rounds` tournament draws from state `s0`, and the
/// insertion position of the winner: each round draws one position uniformly
/// and a strictly better score unseats the standing winner, so on ties the
/// earlier draw stays.
pub open spec fn tournament_winner(
    scores: Seq<int>,
    order: GAPopulationSortOrder,
    s0: u64,
    rounds: nat,
) -> (u64, int)
    decreases rounds,
{
    if rounds <= 1 {
        (lcg_next(s0), lcg_draw(s0, scores.len() as u64) as int)
    } else {
        let prev = tournament_winner(scores, order, s0, (rounds - 1) as nat);
        let idx = lcg_draw(prev.0, scores.len() as u64) as int;
        if beats(scores, order, idx, prev.1) {
            (lcg_next(prev.0), idx)
        } else {
            (lcg_next(prev.0), prev.1)
        }
    }
}

/// The random state after `k` steps from `s0`.
pub open spec fn nth_state(s0: u64, k: nat) -> u64
    decreases k,
{
    if k == 0 {
        s0
    } else {
        lcg_next(nth_state(s0, (k - 1) as nat))
    }
}

/// The positions a tournament of `rounds` draws from state `s0`: one
/// uniform draw per round.
pub open spec fn tournament_draws(scores: Seq<int>, s0: u64, rounds: nat) -> Seq<int> {
    Seq::new(rounds, |j: int| lcg_draw(nth_state(s0, j as nat), scores.len() as u64) as int)
}

/// A tournament returns the best member of its random subset: the winner is
/// one of the drawn positions and no drawn position strictly beats it.
pub proof fn lemma_tournament_winner_is_best(
    scores: Seq<int>,
    order: GAPopulationSortOrder,
    s0: u64,
    rounds: nat,
)
    requires
        rounds >= 1,
    ensures
        tournament_winner(scores, order, s0, rounds).0 == nth_state(s0, rounds),
        exists|k: int|
            0 <= k < rounds && #[trigger] tournament_draws(scores, s0, rounds)[k]
                == tournament_winner(scores, order, s0, rounds).1,
        forall|j: int|
            0 <= j < rounds ==> !beats(
                scores,
                order,
                #[trigger] tournament_draws(scores, s0, rounds)[j],
                tournament_winner(scores, order, s0, rounds).1,
            ),
    decreases rounds,
{
    let w = tournament_winner(scores, order, s0, rounds);
    let draws = tournament_draws(scores, s0, rounds);
    if rounds == 1 {
        assert(draws[0] == w.1);
    } else {
        lemma_tournament_winner_is_best(scores, order, s0, (rounds - 1) as nat);
        let prev = tournament_winner(scores, order, s0, (rounds - 1) as nat);
        let prev_draws = tournament_draws(scores, s0, (rounds - 1) as nat);
        assert(forall|j: int| 0 <= j < rounds - 1 ==> #[trigger] draws[j] == prev_draws[j]);
        assert(draws[rounds - 1] == lcg_draw(prev.0, scores.len() as u64) as int);
        let idx = lcg_draw(prev.0, scores.len() as u64) as int;
        if beats(scores, order, idx, prev.1) {
            assert(draws[rounds - 1] == w.1);
        } else {
            let k = choose|k: int| 0 <= k < rounds - 1 && #[trigger] prev_draws[k] == prev.1;
            assert(draws[k] == w.1);
        }
    }
}

/// Tournament selector: draws a fixed-size uniform random subset of the
/// population and returns its best member by the bound basis.
pub struct GATournamentSelector {
    basis: GAPopulationSortBasis,
    size: usize,
}

impl GATournamentSelector {
    /// The bound score basis.
    pub closed spec fn basis_spec(self) -> GAPopulationSortBasis {
        self.basis
    }

    /// How many contenders each tournament draws.
    pub closed spec fn size_spec(self) -> int {
        self.size as int
    }

    /// Creates a tournament selector bound to `basis`, drawing `size`
    /// contenders per tournament.
    pub fn new(basis: GAPopulationSortBasis, size: usize) -> (r: GATournamentSelector)
        requires
            size >= 1,
        ensures
            r.basis_spec() == basis,
            r.size_spec() == size,
    {
        GATournamentSelector { basis, size }
    }
}

impl<T: GAIndividual> GASelector<T> for GATournamentSelector {
    /// No cached state depends on the population.
    open spec fn ready(&self, pop: GAPopulation<T>) -> bool {
        true
    }

    /// The winner of one tournament of `size` draws.
    open spec fn selects(
        &self,
        pop: GAPopulation<T>,
        rng0: GARandomCtx,
        rng1: GARandomCtx,
        chosen: T,
    ) -> bool {
        let w = tournament_winner(
            pop.scores(self.basis_spec()),
            pop.sort_order_spec(),
            rng0.state_spec(),
            self.size_spec() as nat,
        );
        &&& rng1.state_spec() == w.0
        &&& chosen == pop.members()[w.1]
    }

    /// `update` is a no-op: each draw reads the scores directly.
    fn update(&mut self, pop: &mut GAPopulation<T>)
        ensures
            *final(self) == *old(self),
            *final(pop) == *old(pop),
    {
    }

    fn select<'a>(&self, pop: &'a GAPopulation<T>, rng_ctx: &mut GARandomCtx) -> (r: &'a T) {
        let ghost scores = pop.scores(self.basis_spec());
        let ghost order = pop.sort_order_spec();
        let ghost s0 = rng_ctx.state_spec();
        let n = pop.size();
        let mut best = rng_ctx.next_below(n as u64) as usize;
        let mut best_score = pop.score_at(best, self.basis);
        let mut round: usize = 1;
        while round < self.size
        invariant
            1 <= round,
            round <= self.size_spec() || round == 1,
            n == pop.size_spec(),
            n > 0,
            scores == pop.scores(self.basis_spec()),
            order == pop.sort_order_spec(),
            pop.wf(),
            best < n,
            best_score as int == scores[best as int],
            (rng_ctx.state_spec(), best as int) == tournament_winner(
                scores,
                order,
                s0,
                round as nat,
            ),
        decreases self.size - round,
        {
            let idx = rng_ctx.next_below(n as u64) as usize;
            let s = pop.score_at(idx, self.basis);
            let is_better = match pop.order() {
                GAPopulationSortOrder::HighIsBest => s > best_score,
                GAPopulationSortOrder::LowIsBest => s < best_score,
            };
            if is_better {
                best = idx;
                best_score = s;
            }
            round += 1;
        }
        proof {
            if self.size_spec() < 1 {
                // a tournament of no rounds degenerates to a single draw
                assert(tournament_winner(scores, order, s0, self.size_spec() as nat)
                    == tournament_winner(scores, order, s0, 1));
            }
        }
        match pop.member_at(best) {
            Ok(ind) => ind,
            Err(_) => vstd::pervasive::unreached(),
        }
    }
}

} // verus!
