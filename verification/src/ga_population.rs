//! The population: an ordered container of individuals exposing two
//! independently sortable views, one by raw score and one by fitness score.
//!
//! Sorting never moves the individuals themselves; it only rebuilds a cached
//! permutation of positions, so the insertion order stays observable and ties
//! are broken by it. Each ordering is valid only after an explicit sort call,
//! and writing a fitness score invalidates the fitness ordering.

use vstd::prelude::*;

use crate::ga_core::{GAError, GAIndividual};

verus! {

/// Whether the best individual is the one with the highest or the lowest
/// score.
#[derive(Clone, Copy, Debug, PartialEq, Eq, Structural)]
pub enum GAPopulationSortOrder {
    HighIsBest,
    LowIsBest,
}

/// Which of the two scores an ordering or a selection samples against.
#[derive(Clone, Copy, Debug, PartialEq, Eq, Structural)]
pub enum GAPopulationSortBasis {
    Raw,
    Scaled,
}

/// The scores that `basis` selects out of a sequence of individuals, by
/// insertion position.
pub open spec fn scores_of<T: GAIndividual>(
    members: Seq<T>,
    basis: GAPopulationSortBasis,
) -> Seq<int> {
    match basis {
        GAPopulationSortBasis::Raw => Seq::new(members.len(), |i: int| members[i].raw_spec()),
        GAPopulationSortBasis::Scaled => Seq::new(
            members.len(),
            |i: int| members[i].fitness_spec(),
        ),
    }
}

/// Position `i` may stand no later than position `j` in an ordering of
/// `scores` under `order`: the better score comes first, and equal scores
/// keep their insertion order.
pub open spec fn precedes(
    scores: Seq<int>,
    order: GAPopulationSortOrder,
    i: int,
    j: int,
) -> bool {
    match order {
        GAPopulationSortOrder::HighIsBest => scores[i] > scores[j] || (scores[i] == scores[j] && i
            <= j),
        GAPopulationSortOrder::LowIsBest => scores[i] < scores[j] || (scores[i] == scores[j] && i
            <= j),
    }
}

/// `ord` lists each position below `n` exactly once.
pub open spec fn is_position_permutation(ord: Seq<usize>, n: nat) -> bool {
    &&& ord.len() == n
    &&& ord.no_duplicates()
    &&& forall|k: int| 0 <= k < ord.len() ==> (#[trigger] ord[k]) < n
}

/// `ord` is a permutation of the positions of `scores` in which every
/// earlier entry precedes every later one.
pub open spec fn is_sorted_permutation(
    ord: Seq<usize>,
    scores: Seq<int>,
    order: GAPopulationSortOrder,
) -> bool {
    &&& is_position_permutation(ord, scores.len())
    &&& forall|a: int, b: int|
        0 <= a < b < ord.len() ==> precedes(
            scores,
            order,
            #[trigger] ord[a] as int,
            #[trigger] ord[b] as int,
        )
}

/// Reads the score that `basis` selects from one individual.
fn score_of<T: GAIndividual>(ind: &T, basis: GAPopulationSortBasis) -> (r: i64)
    ensures
        r as int == match basis {
            GAPopulationSortBasis::Raw => ind.raw_spec(),
            GAPopulationSortBasis::Scaled => ind.fitness_spec(),
        },
{
    match basis {
        GAPopulationSortBasis::Raw => ind.raw(),
        GAPopulationSortBasis::Scaled => ind.fitness(),
    }
}

/// Decides `precedes` from the two scores and the two insertion positions.
fn position_precedes(order: GAPopulationSortOrder, si: i64, sj: i64, i: usize, j: usize) -> (r:
    bool)
    ensures
        r == match order {
            GAPopulationSortOrder::HighIsBest => si > sj || (si == sj && i <= j),
            GAPopulationSortOrder::LowIsBest => si < sj || (si == sj && i <= j),
        },
{
    match order {
        GAPopulationSortOrder::HighIsBest => si > sj || (si == sj && i <= j),
        GAPopulationSortOrder::LowIsBest => si < sj || (si == sj && i <= j),
    }
}

/// Rebuilds `ord` as the sorted permutation of the positions of `members`
/// under `order`, comparing the scores `basis` selects. Insertion sort: the
/// comparison is a strict total order on positions (ties fall back to the
/// position itself), so the sorted permutation is unique and stable.
fn sort_positions<T: GAIndividual>(
    members: &Vec<T>,
    ord: &mut Vec<usize>,
    order: GAPopulationSortOrder,
    basis: GAPopulationSortBasis,
)
    requires
        is_position_permutation(old(ord)@, members@.len()),
    ensures
        is_sorted_permutation(final(ord)@, scores_of(members@, basis), order),
{
    let ghost scores = scores_of(members@, basis);
    let n = ord.len();
    let mut i: usize = 0;
    while i < n
        invariant
            i <= n,
            n == ord@.len(),
            n == members@.len(),
            scores == scores_of(members@, basis),
            scores.len() == n,
            is_position_permutation(ord@, n as nat),
            forall|a: int, b: int|
                0 <= a < b < i ==> precedes(
                    scores,
                    order,
                    #[trigger] ord@[a] as int,
                    #[trigger] ord@[b] as int,
                ),
        decreases n - i,
    {
        let ghost pre = ord@;
        let key: usize = ord[i];
        let key_score: i64 = score_of(&members[key], basis);
        let mut j: usize = i;
        while j > 0 && !position_precedes(
            order,
            score_of(&members[ord[j - 1]], basis),
            key_score,
            ord[j - 1],
            key,
        )
            invariant
                j <= i < n,
                n == ord@.len(),
                n == members@.len(),
                scores == scores_of(members@, basis),
                scores.len() == n,
                is_position_permutation(pre, n as nat),
                key == pre[i as int],
                key_score as int == scores[key as int],
                forall|a: int, b: int|
                    0 <= a < b < i ==> precedes(
                        scores,
                        order,
                        #[trigger] pre[a] as int,
                        #[trigger] pre[b] as int,
                    ),
                forall|t: int| 0 <= t < j ==> #[trigger] ord@[t] == pre[t],
                forall|t: int| j < t <= i ==> #[trigger] ord@[t] == pre[t - 1],
                forall|t: int| i < t < n ==> #[trigger] ord@[t] == pre[t],
                forall|t: int|
                    j <= t < i ==> !precedes(scores, order, #[trigger] pre[t] as int, key as int),
            decreases j,
        {
            let prev = ord[j - 1];
            ord.set(j, prev);
            j -= 1;
        }
        ord.set(j, key);
        proof {
            let post = ord@;
            assert forall|k: int| 0 <= k < n implies (#[trigger] post[k]) < n by {
                if k < j {
                } else if k == j {
                } else if k <= i {
                    assert(post[k] == pre[k - 1]);
                } else {
                }
            }
            assert forall|t1: int, t2: int|
                0 <= t1 < n && 0 <= t2 < n && t1 != t2 implies #[trigger] post[t1]
                != #[trigger] post[t2] by {
                let m1: int = if t1 < j { t1 } else if t1 == j { i as int } else if t1 <= i {
                    t1 - 1
                } else {
                    t1
                };
                let m2: int = if t2 < j { t2 } else if t2 == j { i as int } else if t2 <= i {
                    t2 - 1
                } else {
                    t2
                };
                assert(post[t1] == pre[m1]);
                assert(post[t2] == pre[m2]);
                assert(m1 != m2);
            }
            assert(ord@.no_duplicates());
            assert forall|a: int, b: int| 0 <= a < b < i + 1 implies precedes(
                scores,
                order,
                #[trigger] post[a] as int,
                #[trigger] post[b] as int,
            ) by {
                if b < j {
                    // untouched prefix pair
                } else if a < j && b == j {
                    // pre[a] precedes pre[j - 1], which precedes key
                    assert(post[a] == pre[a]);
                    if a < j - 1 {
                        assert(precedes(scores, order, pre[a] as int, pre[j - 1] as int));
                    }
                    assert(precedes(scores, order, pre[j - 1] as int, key as int));
                } else if a < j && b > j {
                    assert(post[a] == pre[a]);
                    assert(post[b] == pre[b - 1]);
                    assert(precedes(scores, order, pre[a] as int, pre[b - 1] as int));
                } else if a == j {
                    // key precedes every position the inner loop stepped over
                    assert(post[b] == pre[b - 1]);
                    assert(!precedes(scores, order, pre[b - 1] as int, key as int));
                } else {
                    // both positions were shifted right by one
                    assert(post[a] == pre[a - 1]);
                    assert(post[b] == pre[b - 1]);
                    assert(precedes(scores, order, pre[a - 1] as int, pre[b - 1] as int));
                }
            }
        }
        i += 1;
    }
}

/// An ordered container of individuals with a preferred sort order and two
/// lazily maintained orderings, one per score basis.
pub struct GAPopulation<T: GAIndividual> {
    individuals: Vec<T>,
    sort_order: GAPopulationSortOrder,
    raw_order: Vec<usize>,
    fitness_order: Vec<usize>,
    raw_sorted: bool,
    fitness_sorted: bool,
}

impl<T: GAIndividual> GAPopulation<T> {
    /// The individuals, in insertion order.
    pub closed spec fn members(self) -> Seq<T> {
        self.individuals@
    }

    /// How many individuals the population holds.
    pub open spec fn size_spec(self) -> nat {
        self.members().len()
    }

    /// The preferred sort order.
    pub closed spec fn sort_order_spec(self) -> GAPopulationSortOrder {
        self.sort_order
    }

    /// The raw scores, in insertion order.
    pub open spec fn raws(self) -> Seq<int> {
        scores_of(self.members(), GAPopulationSortBasis::Raw)
    }

    /// The fitness scores, in insertion order.
    pub open spec fn fits(self) -> Seq<int> {
        scores_of(self.members(), GAPopulationSortBasis::Scaled)
    }

    /// The scores `basis` selects, in insertion order.
    pub open spec fn scores(self, basis: GAPopulationSortBasis) -> Seq<int> {
        scores_of(self.members(), basis)
    }

    /// The cached ordering for `basis`: a permutation of insertion positions.
    pub closed spec fn order_spec(self, basis: GAPopulationSortBasis) -> Seq<usize> {
        match basis {
            GAPopulationSortBasis::Raw => self.raw_order@,
            GAPopulationSortBasis::Scaled => self.fitness_order@,
        }
    }

    /// Whether the ordering for `basis` is valid (refreshed since the last
    /// change that could affect it).
    pub closed spec fn is_sorted(self, basis: GAPopulationSortBasis) -> bool {
        match basis {
            GAPopulationSortBasis::Raw => self.raw_sorted,
            GAPopulationSortBasis::Scaled => self.fitness_sorted,
        }
    }

    /// Well-formedness: both cached orderings are permutations of the
    /// insertion positions, and each one marked valid is sorted.
    pub open spec fn wf(self) -> bool {
        &&& is_position_permutation(self.order_spec(GAPopulationSortBasis::Raw), self.size_spec())
        &&& is_position_permutation(
            self.order_spec(GAPopulationSortBasis::Scaled),
            self.size_spec(),
        )
        &&& self.is_sorted(GAPopulationSortBasis::Raw) ==> is_sorted_permutation(
            self.order_spec(GAPopulationSortBasis::Raw),
            self.raws(),
            self.sort_order_spec(),
        )
        &&& self.is_sorted(GAPopulationSortBasis::Scaled) ==> is_sorted_permutation(
            self.order_spec(GAPopulationSortBasis::Scaled),
            self.fits(),
            self.sort_order_spec(),
        )
    }

    /// Takes ownership of `individuals`; no sorting is performed yet.
    pub fn new(individuals: Vec<T>, sort_order: GAPopulationSortOrder) -> (pop: GAPopulation<T>)
        ensures
            pop.wf(),
            pop.members() == individuals@,
            pop.sort_order_spec() == sort_order,
            !pop.is_sorted(GAPopulationSortBasis::Raw),
            !pop.is_sorted(GAPopulationSortBasis::Scaled),
    {
        let n = individuals.len();
        let mut raw_order: Vec<usize> = Vec::new();
        let mut fitness_order: Vec<usize> = Vec::new();
        let mut i: usize = 0;
        while i < n
            invariant
                i <= n,
                raw_order@.len() == i,
                fitness_order@.len() == i,
                forall|k: int| 0 <= k < i ==> #[trigger] raw_order@[k] as int == k,
                forall|k: int| 0 <= k < i ==> #[trigger] fitness_order@[k] as int == k,
            decreases n - i,
        {
            raw_order.push(i);
            fitness_order.push(i);
            i += 1;
        }
        GAPopulation {
            individuals,
            sort_order,
            raw_order,
            fitness_order,
            raw_sorted: false,
            fitness_sorted: false,
        }
    }

    /// How many individuals the population holds.
    pub fn size(&self) -> (r: usize)
        ensures
            r == self.size_spec(),
    {
        self.individuals.len()
    }

    /// The preferred sort order.
    pub fn order(&self) -> (r: GAPopulationSortOrder)
        ensures
            r == self.sort_order_spec(),
    {
        self.sort_order
    }

    /// The individual at insertion position `i`, independent of any ordering.
    pub fn member_at(&self, i: usize) -> (r: Result<&T, GAError>)
        ensures
            match r {
                Ok(ind) => i < self.size_spec() && *ind == self.members()[i as int],
                Err(e) => i >= self.size_spec() && e == GAError::IndexOutOfRange,
            },
    {
        if i < self.individuals.len() {
            Ok(&self.individuals[i])
        } else {
            Err(GAError::IndexOutOfRange)
        }
    }

    /// The raw score at insertion position `i`.
    pub fn raw_at(&self, i: usize) -> (r: i64)
        requires
            i < self.size_spec(),
        ensures
            r as int == self.raws()[i as int],
    {
        self.individuals[i].raw()
    }

    /// The fitness score at insertion position `i`.
    pub fn fitness_at(&self, i: usize) -> (r: i64)
        requires
            i < self.size_spec(),
        ensures
            r as int == self.fits()[i as int],
    {
        self.individuals[i].fitness()
    }

    /// The score `basis` selects at insertion position `i`.
    pub fn score_at(&self, i: usize, basis: GAPopulationSortBasis) -> (r: i64)
        requires
            i < self.size_spec(),
        ensures
            r as int == self.scores(basis)[i as int],
    {
        score_of(&self.individuals[i], basis)
    }

    /// Writes the fitness score at insertion position `i`. The raw scores and
    /// the raw ordering are untouched; the fitness ordering is invalidated.
    pub fn set_fitness_at(&mut self, i: usize, f: i64)
        requires
            old(self).wf(),
            i < old(self).size_spec(),
        ensures
            final(self).wf(),
            final(self).size_spec() == old(self).size_spec(),
            final(self).sort_order_spec() == old(self).sort_order_spec(),
            final(self).raws() == old(self).raws(),
            final(self).fits() == old(self).fits().update(i as int, f as int),
            final(self).order_spec(GAPopulationSortBasis::Raw) == old(self).order_spec(
                GAPopulationSortBasis::Raw,
            ),
            final(self).is_sorted(GAPopulationSortBasis::Raw) == old(self).is_sorted(
                GAPopulationSortBasis::Raw,
            ),
            !final(self).is_sorted(GAPopulationSortBasis::Scaled),
            forall|k: int|
                0 <= k < old(self).size_spec() && k != i ==> final(self).members()[k] == old(
                    self,
                ).members()[k],
    {
        let element = &mut self.individuals[i];
        element.set_fitness(f);
        self.fitness_sorted = false;
        proof {
            assert(final(self).raws() =~= old(self).raws());
            assert(final(self).fits() =~= old(self).fits().update(i as int, f as int));
        }
    }

    /// Refreshes the raw-score ordering according to the sort order.
    pub fn sort_by_raw(&mut self)
        requires
            old(self).wf(),
        ensures
            final(self).wf(),
            final(self).members() == old(self).members(),
            final(self).sort_order_spec() == old(self).sort_order_spec(),
            final(self).is_sorted(GAPopulationSortBasis::Raw),
            final(self).is_sorted(GAPopulationSortBasis::Scaled) == old(self).is_sorted(
                GAPopulationSortBasis::Scaled,
            ),
            final(self).order_spec(GAPopulationSortBasis::Scaled) == old(self).order_spec(
                GAPopulationSortBasis::Scaled,
            ),
    {
        sort_positions(
            &self.individuals,
            &mut self.raw_order,
            self.sort_order,
            GAPopulationSortBasis::Raw,
        );
        self.raw_sorted = true;
    }

    /// Refreshes the fitness-score ordering according to the sort order.
    pub fn sort_by_fitness(&mut self)
        requires
            old(self).wf(),
        ensures
            final(self).wf(),
            final(self).members() == old(self).members(),
            final(self).sort_order_spec() == old(self).sort_order_spec(),
            final(self).is_sorted(GAPopulationSortBasis::Scaled),
            final(self).is_sorted(GAPopulationSortBasis::Raw) == old(self).is_sorted(
                GAPopulationSortBasis::Raw,
            ),
            final(self).order_spec(GAPopulationSortBasis::Raw) == old(self).order_spec(
                GAPopulationSortBasis::Raw,
            ),
    {
        sort_positions(
            &self.individuals,
            &mut self.fitness_order,
            self.sort_order,
            GAPopulationSortBasis::Scaled,
        );
        self.fitness_sorted = true;
    }

    /// Refreshes both orderings.
    pub fn sort(&mut self)
        requires
            old(self).wf(),
        ensures
            final(self).wf(),
            final(self).members() == old(self).members(),
            final(self).sort_order_spec() == old(self).sort_order_spec(),
            final(self).is_sorted(GAPopulationSortBasis::Raw),
            final(self).is_sorted(GAPopulationSortBasis::Scaled),
    {
        self.sort_by_raw();
        self.sort_by_fitness();
    }

    /// The individual at position `i` of the requested ordering; the ordering
    /// must have been refreshed. Fails with `IndexOutOfRange` beyond the end.
    pub fn individual(&self, i: usize, basis: GAPopulationSortBasis) -> (r: Result<&T, GAError>)
        requires
            self.wf(),
            self.is_sorted(basis),
        ensures
            match r {
                Ok(ind) => i < self.size_spec() && *ind == self.members()[self.order_spec(basis)[i as int] as int],
                Err(e) => i >= self.size_spec() && e == GAError::IndexOutOfRange,
            },
    {
        let ord = match basis {
            GAPopulationSortBasis::Raw => &self.raw_order,
            GAPopulationSortBasis::Scaled => &self.fitness_order,
        };
        if i < ord.len() {
            Ok(&self.individuals[ord[i]])
        } else {
            Err(GAError::IndexOutOfRange)
        }
    }

    /// The extremal individual of the requested ordering: the one its sort
    /// order likes best. Fails with `EmptyPopulation` if no individuals exist.
    pub fn best(&self, basis: GAPopulationSortBasis) -> (r: Result<&T, GAError>)
        requires
            self.wf(),
            self.is_sorted(basis),
        ensures
            match r {
                Ok(ind) => {
                    &&& self.size_spec() > 0
                    &&& *ind == self.members()[self.order_spec(basis)[0] as int]
                    &&& forall|v: int|
                        0 <= v < self.size_spec() ==> match self.sort_order_spec() {
                            GAPopulationSortOrder::HighIsBest => #[trigger] self.scores(basis)[v]
                                <= self.scores(basis)[self.order_spec(basis)[0] as int],
                            GAPopulationSortOrder::LowIsBest => #[trigger] self.scores(basis)[v]
                                >= self.scores(basis)[self.order_spec(basis)[0] as int],
                        }
                },
                Err(e) => self.size_spec() == 0 && e == GAError::EmptyPopulation,
            },
    {
        if self.individuals.len() == 0 {
            Err(GAError::EmptyPopulation)
        } else {
            proof {
                lemma_sorted_extremes(*self, basis);
            }
            match self.individual(0, basis) {
                Ok(ind) => Ok(ind),
                Err(_) => Err(GAError::EmptyPopulation),
            }
        }
    }

    /// The opposite extreme of the requested ordering: the individual its
    /// sort order likes least. Fails with `EmptyPopulation` if no individuals
    /// exist.
    pub fn worst(&self, basis: GAPopulationSortBasis) -> (r: Result<&T, GAError>)
        requires
            self.wf(),
            self.is_sorted(basis),
        ensures
            match r {
                Ok(ind) => {
                    &&& self.size_spec() > 0
                    &&& *ind == self.members()[self.order_spec(basis)[self.size_spec() - 1] as int]
                    &&& forall|v: int|
                        0 <= v < self.size_spec() ==> match self.sort_order_spec() {
                            GAPopulationSortOrder::HighIsBest => #[trigger] self.scores(basis)[v]
                                >= self.scores(basis)[self.order_spec(basis)[self.size_spec()
                                - 1] as int],
                            GAPopulationSortOrder::LowIsBest => #[trigger] self.scores(basis)[v]
                                <= self.scores(basis)[self.order_spec(basis)[self.size_spec()
                                - 1] as int],
                        }
                },
                Err(e) => self.size_spec() == 0 && e == GAError::EmptyPopulation,
            },
    {
        if self.individuals.len() == 0 {
            Err(GAError::EmptyPopulation)
        } else {
            proof {
                lemma_sorted_extremes(*self, basis);
            }
            match self.individual(self.individuals.len() - 1, basis) {
                Ok(ind) => Ok(ind),
                Err(_) => Err(GAError::EmptyPopulation),
            }
        }
    }
}

/// A permutation of positions lists every position: each `v` below `n`
/// appears somewhere in `ord`.
pub proof fn lemma_permutation_covers(ord: Seq<usize>, n: nat, v: int)
    requires
        is_position_permutation(ord, n),
        0 <= v < n,
    ensures
        exists|k: int| 0 <= k < ord.len() && #[trigger] ord[k] as int == v,
{
    broadcast use vstd::seq_lib::seq_to_set_is_finite;

    let ints = Seq::new(ord.len(), |i: int| ord[i] as int);
    assert(ints.no_duplicates()) by {
        assert forall|i: int, j: int|
            0 <= i < ints.len() && 0 <= j < ints.len() && i != j implies #[trigger] ints[i]
            != #[trigger] ints[j] by {
            assert(ord[i] != ord[j]);
        }
    }
    ints.unique_seq_to_set();
    let s = ints.to_set();
    let range = vstd::set_lib::set_int_range(0, n as int);
    vstd::set_lib::lemma_int_range(0, n as int);
    assert(s.subset_of(range)) by {
        assert forall|e: int| s.contains(e) implies range.contains(e) by {
            let k = choose|k: int| 0 <= k < ints.len() && ints[k] == e;
            assert(ord[k] < n);
        }
    }
    vstd::set_lib::lemma_subset_equality(s, range);
    assert(s.contains(v));
    assert(ints.contains(v));
    let k = choose|k: int| 0 <= k < ints.len() && ints[k] == v;
    assert(ord[k] as int == v);
}

/// In a refreshed ordering the ends are consistent with the sort order: under
/// `HighIsBest` the first individual's score is highest and the last one's is
/// lowest among all members, and under `LowIsBest` the other way round.
pub proof fn lemma_sorted_extremes<T: GAIndividual>(
    pop: GAPopulation<T>,
    basis: GAPopulationSortBasis,
)
    requires
        pop.wf(),
        pop.is_sorted(basis),
        pop.size_spec() > 0,
    ensures
        forall|k: int|
            0 <= k < pop.size_spec() ==> match pop.sort_order_spec() {
                GAPopulationSortOrder::HighIsBest => {
                    &&& pop.scores(basis)[pop.order_spec(basis)[0] as int] >= pop.scores(basis)[
                        #[trigger] pop.order_spec(basis)[k] as int]
                    &&& pop.scores(basis)[pop.order_spec(basis)[k] as int] >= pop.scores(basis)[
                        pop.order_spec(basis)[pop.size_spec() - 1] as int]
                },
                GAPopulationSortOrder::LowIsBest => {
                    &&& pop.scores(basis)[pop.order_spec(basis)[0] as int] <= pop.scores(basis)[
                        #[trigger] pop.order_spec(basis)[k] as int]
                    &&& pop.scores(basis)[pop.order_spec(basis)[k] as int] <= pop.scores(basis)[
                        pop.order_spec(basis)[pop.size_spec() - 1] as int]
                },
            },
        forall|v: int|
            0 <= v < pop.size_spec() ==> match pop.sort_order_spec() {
                GAPopulationSortOrder::HighIsBest => {
                    &&& pop.scores(basis)[pop.order_spec(basis)[0] as int] >= #[trigger] pop.scores(
                        basis,
                    )[v]
                    &&& pop.scores(basis)[v] >= pop.scores(basis)[pop.order_spec(basis)[
                        pop.size_spec() - 1] as int]
                },
                GAPopulationSortOrder::LowIsBest => {
                    &&& pop.scores(basis)[pop.order_spec(basis)[0] as int] <= #[trigger] pop.scores(
                        basis,
                    )[v]
                    &&& pop.scores(basis)[v] <= pop.scores(basis)[pop.order_spec(basis)[
                        pop.size_spec() - 1] as int]
                },
            },
{
    let ord = pop.order_spec(basis);
    let scores = pop.scores(basis);
    let so = pop.sort_order_spec();
    let n = pop.size_spec() as int;
    assert forall|k: int| 0 <= k < n implies precedes(
        scores,
        so,
        ord[0] as int,
        #[trigger] ord[k] as int,
    ) && precedes(scores, so, ord[k] as int, ord[n - 1] as int) by {
        if k > 0 {
            assert(precedes(scores, so, ord[0] as int, ord[k] as int));
        }
        if k < n - 1 {
            assert(precedes(scores, so, ord[k] as int, ord[n - 1] as int));
        }
    }
    assert forall|v: int| 0 <= v < n implies (match so {
        GAPopulationSortOrder::HighIsBest => {
            &&& scores[ord[0] as int] >= #[trigger] scores[v]
            &&& scores[v] >= scores[ord[n - 1] as int]
        },
        GAPopulationSortOrder::LowIsBest => {
            &&& scores[ord[0] as int] <= #[trigger] scores[v]
            &&& scores[v] <= scores[ord[n - 1] as int]
        },
    }) by {
        lemma_permutation_covers(ord, pop.size_spec(), v);
        let k = choose|k: int| 0 <= k < ord.len() && #[trigger] ord[k] as int == v;
        if k > 0 {
            assert(precedes(scores, so, ord[0] as int, ord[k] as int));
        }
        if k < n - 1 {
            assert(precedes(scores, so, ord[k] as int, ord[n - 1] as int));
        }
    }
}

} // verus!
