//! The population-search solver. Candidates are permutations; each
//! generation keeps the best candidate found so far (elitism) and replaces
//! the rest by mutated crossovers of tournament-selected parents.
use vstd::prelude::*;

use crate::assignment::{is_permutation, lemma_permutation_covers, lemma_swap_keeps_permutation, occurs};
use crate::cost::{assignment_cost, total_cost};
use crate::error::EngineError;
use crate::optimal::{is_rank_matching, solve_optimal};
use crate::rng::{xorshift_next, Xorshift, NONZERO_SEED};

verus! {

/// The identity permutation of `[0, n)`.
pub fn identity(n: usize) -> (r: Vec<usize>)
    ensures
        r@.len() == n,
        forall|i: int| 0 <= i < n ==> #[trigger] r@[i] == i,
        is_permutation(r@, n as nat),
{
    let mut r: Vec<usize> = Vec::new();
    let mut i: usize = 0;
    while i < n
        invariant
            i <= n,
            r@.len() == i,
            forall|j: int| 0 <= j < i ==> #[trigger] r@[j] == j,
        decreases n - i,
    {
        r.push(i);
        i = i + 1;
    }
    r
}

/// An element-wise copy of an assignment.
pub fn copy_assignment(a: &Vec<usize>) -> (r: Vec<usize>)
    ensures
        r@ == a@,
{
    let mut r: Vec<usize> = Vec::new();
    let mut i: usize = 0;
    while i < a.len()
        invariant
            i <= a@.len(),
            r@ == a@.subrange(0, i as int),
        decreases a@.len() - i,
    {
        r.push(a[i]);
        i = i + 1;
    }
    assert(r@ =~= a@);
    r
}

/// Exchanges entries `i` and `j`.
pub fn swap_entries(a: &mut Vec<usize>, i: usize, j: usize)
    requires
        i < old(a)@.len(),
        j < old(a)@.len(),
    ensures
        final(a)@ == old(a)@.update(i as int, old(a)@[j as int]).update(j as int, old(a)@[i as int]),
{
    let x = a[i];
    let y = a[j];
    a.set(i, y);
    a.set(j, x);
}

/// `a` with entries `i` and `j` exchanged.
pub open spec fn swapped(a: Seq<usize>, i: int, j: int) -> Seq<usize> {
    a.update(i, a[j]).update(j, a[i])
}

/// Fisher-Yates over the first `i` entries of `a` from generator state
/// `state`: the entry at `i - 1` is exchanged with the one at the next draw
/// modulo `i`, then the first `i - 1` entries are shuffled. Gives the
/// result and the final generator state.
pub open spec fn fisher_yates(a: Seq<usize>, state: u64, i: nat) -> (Seq<usize>, u64)
    decreases i,
{
    if i <= 1 {
        (a, state)
    } else {
        let x = xorshift_next(state);
        fisher_yates(swapped(a, i - 1, x as int % i as int), x, (i - 1) as nat)
    }
}

/// `swaps` random exchanges on `a`: each exchanges the entries at two
/// successive draws modulo the length. Gives the result and the final
/// generator state.
pub open spec fn mutation(a: Seq<usize>, state: u64, swaps: nat) -> (Seq<usize>, u64)
    decreases swaps,
{
    if swaps == 0 || a.len() == 0 {
        (a, state)
    } else {
        let x1 = xorshift_next(state);
        let x2 = xorshift_next(x1);
        mutation(swapped(a, x1 as int % a.len() as int, x2 as int % a.len() as int), x2, (swaps - 1) as nat)
    }
}

/// The slot of `c` that holds `v`.
pub open spec fn position(c: Seq<usize>, v: usize) -> int {
    choose|p: int| 0 <= p < c.len() && c[p] == v
}

/// Crossover from slot `d` on: slot `d` takes `pb[d]` by exchange with the
/// slot of `c` that holds it, up to slot `hi`.
pub open spec fn crossover_from(c: Seq<usize>, pb: Seq<usize>, d: int, hi: int) -> Seq<usize>
    decreases hi - d,
{
    if d >= hi {
        c
    } else {
        crossover_from(swapped(c, d, position(c, pb[d])), pb, d + 1, hi)
    }
}

/// Fisher-Yates shuffle driven by `rng`.
pub fn shuffle(a: &mut Vec<usize>, rng: &mut Xorshift)
    requires
        is_permutation(old(a)@, old(a)@.len()),
    ensures
        (final(a)@, final(rng).state) == fisher_yates(old(a)@, old(rng).state, old(a)@.len()),
        is_permutation(final(a)@, old(a)@.len()),
{
    let n = a.len();
    let mut i: usize = n;
    while i > 1
        invariant
            i <= n,
            a@.len() == n,
            is_permutation(a@, n as nat),
            fisher_yates(a@, rng.state, i as nat) == fisher_yates(old(a)@, old(rng).state, n as nat),
        decreases i,
    {
        let j = rng.below(i);
        proof {
            lemma_swap_keeps_permutation(a@, n as nat, (i - 1) as int, j as int);
        }
        swap_entries(a, i - 1, j);
        i = i - 1;
    }
}

/// Applies `swaps` random exchanges.
pub fn mutate(a: &mut Vec<usize>, rng: &mut Xorshift, swaps: usize)
    requires
        is_permutation(old(a)@, old(a)@.len()),
    ensures
        (final(a)@, final(rng).state) == mutation(old(a)@, old(rng).state, swaps as nat),
        is_permutation(final(a)@, old(a)@.len()),
{
    let n = a.len();
    if n == 0 {
        return;
    }
    let mut m: usize = 0;
    while m < swaps
        invariant
            n > 0,
            m <= swaps,
            a@.len() == n,
            is_permutation(a@, n as nat),
            mutation(a@, rng.state, (swaps - m) as nat) == mutation(
                old(a)@,
                old(rng).state,
                swaps as nat,
            ),
        decreases swaps - m,
    {
        let i = rng.below(n);
        let j = rng.below(n);
        proof {
            lemma_swap_keeps_permutation(a@, n as nat, i as int, j as int);
        }
        swap_entries(a, i, j);
        m = m + 1;
    }
}

/// Crossover of two permutations: the child starts as `pa` and takes
/// `pb`'s entries on slots `[lo, hi)`, each placed by exchanging it with
/// the slot that held it, so the child stays a permutation. Outside the
/// segment, an entry of `pa` that `pb` does not place in the segment stays.
pub fn crossover(pa: &Vec<usize>, pb: &Vec<usize>, lo: usize, hi: usize) -> (child: Vec<usize>)
    requires
        is_permutation(pa@, pa@.len()),
        is_permutation(pb@, pa@.len()),
        lo <= hi <= pa@.len(),
    ensures
        child@ == crossover_from(pa@, pb@, lo as int, hi as int),
        is_permutation(child@, pa@.len()),
        forall|d: int| lo <= d < hi ==> #[trigger] child@[d] == pb@[d],
        forall|d: int|
            0 <= d < pa@.len() && !(lo <= d < hi) && (forall|e: int|
                lo <= e < hi ==> #[trigger] pb@[e] != pa@[d]) ==> #[trigger] child@[d] == pa@[d],
{
    let n = pa.len();
    let mut child = copy_assignment(pa);
    let mut pos = crate::assignment::invert(pa);
    let mut d: usize = lo;
    while d < hi
        invariant
            n == pa@.len(),
            is_permutation(pb@, n as nat),
            lo <= d <= hi <= n,
            is_permutation(child@, n as nat),
            pos@.len() == n,
            forall|e: int| 0 <= e < n ==> #[trigger] pos@[child@[e] as int] == e,
            forall|e: int| lo <= e < d ==> #[trigger] child@[e] == pb@[e],
            crossover_from(child@, pb@, d as int, hi as int) == crossover_from(
                pa@,
                pb@,
                lo as int,
                hi as int,
            ),
            forall|f: int|
                0 <= f < n && !(lo <= f < hi) && (forall|e: int|
                    lo <= e < hi ==> #[trigger] pb@[e] != pa@[f]) ==> #[trigger] child@[f] == pa@[f],
        decreases hi - d,
    {
        let v = pb[d];
        proof {
            lemma_permutation_covers(child@, n as nat);
            assert(occurs(child@, v as int));
        }
        let p = pos[v];
        proof {
            let e = choose|e: int| 0 <= e < child@.len() && child@[e] as int == v as int;
            assert(pos@[child@[e] as int] == e);
            assert(child@[p as int] == v);
            if lo <= p && p < d {
                assert(pb@[p as int] != pb@[d as int]);
            }
            let q = position(child@, v);
            assert(0 <= q < n && child@[q] == v);
            assert(q == p as int);
        }
        let ghost c0 = child@;
        let ghost p0 = pos@;
        let w = child[d];
        proof {
            lemma_swap_keeps_permutation(child@, n as nat, d as int, p as int);
        }
        swap_entries(&mut child, d, p);
        pos.set(v, d);
        pos.set(w, p);
        proof {
            assert(child@ == swapped(c0, d as int, position(c0, pb@[d as int])));
            assert forall|e: int| 0 <= e < n implies #[trigger] pos@[child@[e] as int] == e by {
                if e == d as int {
                } else if e == p as int {
                } else {
                    assert(c0[e] != c0[p as int]);
                    assert(c0[e] != c0[d as int]);
                    assert(p0[c0[e] as int] == e);
                }
            }
            assert forall|f: int|
                0 <= f < n && !(lo <= f < hi) && (forall|e: int|
                    lo <= e < hi ==> #[trigger] pb@[e] != pa@[f]) implies #[trigger] child@[f]
                == pa@[f] by {
                assert(pb@[d as int] != pa@[f]);
                assert(c0[f] == pa@[f]);
                assert(f != p as int);
            }
        }
        d = d + 1;
    }
    child
}

/// The candidates of a population as sequences.
pub open spec fn candidates(pop: Seq<Vec<usize>>) -> Seq<Seq<usize>> {
    Seq::new(pop.len(), |i: int| pop[i]@)
}

/// Tournament selection from generator state `state`: of the candidates at
/// two successive draws, the cheaper (the first on a tie). Gives the index
/// and the final generator state.
pub open spec fn tournament(costs: Seq<u128>, state: u64) -> (int, u64) {
    let x1 = xorshift_next(state);
    let x2 = xorshift_next(x1);
    let a = x1 as int % costs.len() as int;
    let b = x2 as int % costs.len() as int;
    (if costs[b] < costs[a] { b } else { a }, x2)
}

/// The crossover segment `[lo, hi)` over `n` slots: spanned by two
/// successive draws, empty when there are no slots.
pub open spec fn segment(n: nat, state: u64) -> (int, int, u64) {
    if n == 0 {
        (0, 0, state)
    } else {
        let x1 = xorshift_next(state);
        let x2 = xorshift_next(x1);
        let x = x1 as int % n as int;
        let y = x2 as int % n as int;
        if x <= y {
            (x, y + 1, x2)
        } else {
            (y, x + 1, x2)
        }
    }
}

/// One offspring: two tournament parents, their crossover on a random
/// segment, then `swaps` random exchanges.
pub open spec fn offspring(pop: Seq<Seq<usize>>, costs: Seq<u128>, n: nat, swaps: nat, state: u64) -> (Seq<usize>, u64) {
    let (a, s1) = tournament(costs, state);
    let (b, s2) = tournament(costs, s1);
    let (lo, hi, s3) = segment(n, s2);
    mutation(crossover_from(pop[a], pop[b], lo, hi), s3, swaps)
}

/// The first `k` offspring of a generation, bred one after another from
/// generator state `state`, and the final generator state.
pub open spec fn brood(pop: Seq<Seq<usize>>, costs: Seq<u128>, n: nat, swaps: nat, state: u64, k: nat) -> (Seq<Seq<usize>>, u64)
    decreases k,
{
    if k == 0 {
        (Seq::empty(), state)
    } else {
        let (prev, s1) = brood(pop, costs, n, swaps, state, (k - 1) as nat);
        let (c, s2) = offspring(pop, costs, n, swaps, s1);
        (prev.push(c), s2)
    }
}

proof fn lemma_brood_len(pop: Seq<Seq<usize>>, costs: Seq<u128>, n: nat, swaps: nat, state: u64, k: nat)
    ensures
        brood(pop, costs, n, swaps, state, k).0.len() == k,
    decreases k,
{
    if k > 0 {
        lemma_brood_len(pop, costs, n, swaps, state, (k - 1) as nat);
    }
}

/// The identity permutation of `[0, n)` as a sequence.
pub open spec fn identity_seq(n: nat) -> Seq<usize> {
    Seq::new(n, |i: int| i as usize)
}

/// `k` shuffles of the identity on `n` slots, drawn one after another from
/// generator state `state`, and the final generator state.
pub open spec fn seeding(n: nat, state: u64, k: nat) -> (Seq<Seq<usize>>, u64)
    decreases k,
{
    if k == 0 {
        (Seq::empty(), state)
    } else {
        let (prev, s1) = seeding(n, state, (k - 1) as nat);
        let (c, s2) = fisher_yates(identity_seq(n), s1, n);
        (prev.push(c), s2)
    }
}

proof fn lemma_seeding_len(n: nat, state: u64, k: nat)
    ensures
        seeding(n, state, k).0.len() == k,
    decreases k,
{
    if k > 0 {
        lemma_seeding_len(n, state, (k - 1) as nat);
    }
}

/// Population size and mutation strength of a genetic run.
#[derive(Clone, Copy, Debug)]
pub struct GeneticParams {
    /// Number of candidates per generation, the elite included.
    pub population_size: usize,
    /// Random pairwise swaps applied to each offspring.
    pub mutation_swaps: usize,
}

/// State of a genetic run between generations.
pub struct GeneticSolver {
    pub source_weight: Vec<u8>,
    pub target_weight: Vec<u8>,
    pub params: GeneticParams,
    pub population: Vec<Vec<usize>>,
    pub costs: Vec<u128>,
    /// The cheapest candidate seen so far, and its cost.
    pub best: Vec<usize>,
    pub best_cost: u128,
    /// The rank matching the population was seeded with.
    pub baseline: Vec<usize>,
    pub generation: u64,
    pub rng: Xorshift,
}

impl GeneticSolver {
    /// Every candidate is a permutation with its cost recorded; the best
    /// candidate is no costlier than any candidate nor than the rank matching.
    pub open spec fn wf(&self) -> bool {
        let n = self.target_weight@.len();
        &&& self.source_weight@.len() == n
        &&& self.params.population_size >= 1
        &&& self.population@.len() == self.params.population_size
        &&& self.costs@.len() == self.population@.len()
        &&& forall|i: int|
            0 <= i < self.population@.len() ==> is_permutation(#[trigger] self.population@[i]@, n)
                && self.costs@[i] as int == total_cost(
                self.source_weight@,
                self.target_weight@,
                self.population@[i]@,
            ) && self.best_cost <= self.costs@[i]
        &&& is_permutation(self.best@, n)
        &&& self.best_cost as int == total_cost(self.source_weight@, self.target_weight@, self.best@)
        &&& is_rank_matching(self.source_weight@, self.target_weight@, self.baseline@)
        &&& self.best_cost as int <= total_cost(
            self.source_weight@,
            self.target_weight@,
            self.baseline@,
        )
    }

    /// Seeds a population with the rank matching plus random permutations.
    /// Fails with `InvalidSettings` on weight arrays of different lengths or
    /// an empty population.
    pub fn new(
        source_weight: Vec<u8>,
        target_weight: Vec<u8>,
        params: GeneticParams,
        seed: u64,
    ) -> (r: Result<Self, EngineError>)
        ensures
            r is Err <==> source_weight@.len() != target_weight@.len() || params.population_size
                == 0,
            r is Err ==> r == Err::<Self, EngineError>(EngineError::InvalidSettings),
            r matches Ok(g) ==> {
                &&& g.wf()
                &&& g.source_weight@ == source_weight@
                &&& g.target_weight@ == target_weight@
                &&& g.params == params
                &&& g.generation == 0
                &&& g.population@[0]@ == g.baseline@
                &&& ({
                    let sd = seeding(
                        target_weight@.len(),
                        if seed == 0 { NONZERO_SEED } else { seed },
                        (params.population_size - 1) as nat,
                    );
                    &&& g.rng.state == sd.1
                    &&& forall|i: int|
                        1 <= i < g.population@.len() ==> #[trigger] g.population@[i]@ == sd.0[i - 1]
                })
            },
    {
        if source_weight.len() != target_weight.len() || params.population_size == 0 {
            return Err(EngineError::InvalidSettings);
        }
        let n = target_weight.len();
        let baseline = solve_optimal(&source_weight, &target_weight);
        let base_cost = assignment_cost(&source_weight, &target_weight, &baseline);
        let mut rng = Xorshift::new(seed);
        let ghost s0 = rng.state;
        let mut population: Vec<Vec<usize>> = Vec::new();
        let mut costs: Vec<u128> = Vec::new();
        population.push(copy_assignment(&baseline));
        costs.push(base_cost);
        let mut best = copy_assignment(&baseline);
        let mut best_cost = base_cost;
        while population.len() < params.population_size
            invariant
                n == target_weight@.len(),
                n == source_weight@.len(),
                1 <= population@.len() <= params.population_size,
                costs@.len() == population@.len(),
                population@[0]@ == baseline@,
                is_rank_matching(source_weight@, target_weight@, baseline@),
                forall|i: int|
                    0 <= i < population@.len() ==> is_permutation(#[trigger] population@[i]@, n as nat)
                        && costs@[i] as int == total_cost(
                        source_weight@,
                        target_weight@,
                        population@[i]@,
                    ) && best_cost <= costs@[i],
                is_permutation(best@, n as nat),
                best_cost as int == total_cost(source_weight@, target_weight@, best@),
                best_cost as int <= total_cost(source_weight@, target_weight@, baseline@),
                seeding(n as nat, s0, (population@.len() - 1) as nat).1 == rng.state,
                forall|i: int|
                    1 <= i < population@.len() ==> #[trigger] population@[i]@ == seeding(
                        n as nat,
                        s0,
                        (population@.len() - 1) as nat,
                    ).0[i - 1],
            decreases params.population_size - population@.len(),
        {
            let ghost k = (population@.len() - 1) as nat;
            let mut candidate = identity(n);
            assert(candidate@ =~= identity_seq(n as nat));
            shuffle(&mut candidate, &mut rng);
            proof {
                lemma_seeding_len(n as nat, s0, k);
            }
            let c = assignment_cost(&source_weight, &target_weight, &candidate);
            let ghost pop0 = population@;
            let ghost costs0 = costs@;
            if c < best_cost {
                best = copy_assignment(&candidate);
                best_cost = c;
            }
            population.push(candidate);
            costs.push(c);
            proof {
                assert forall|i: int| 0 <= i < population@.len() implies is_permutation(
                    #[trigger] population@[i]@,
                    n as nat,
                ) && costs@[i] as int == total_cost(source_weight@, target_weight@, population@[i]@)
                    && best_cost <= costs@[i] by {
                    if i < pop0.len() {
                        assert(population@[i] == pop0[i]);
                        assert(costs@[i] == costs0[i]);
                    }
                }
                let sk1 = seeding(n as nat, s0, k + 1);
                assert forall|i: int| 1 <= i < population@.len() implies #[trigger] population@[i]@
                    == sk1.0[i - 1] by {
                    if i < pop0.len() {
                        assert(population@[i] == pop0[i]);
                    }
                }
            }
        }
        Ok(GeneticSolver {
            source_weight,
            target_weight,
            params,
            population,
            costs,
            best,
            best_cost,
            baseline,
            generation: 0,
            rng,
        })
    }

    /// Tournament selection: the cheaper of two random candidates.
    fn select_parent(&mut self) -> (r: usize)
        requires
            old(self).wf(),
        ensures
            final(self).wf(),
            r < final(self).population@.len(),
            final(self).source_weight == old(self).source_weight,
            final(self).target_weight == old(self).target_weight,
            final(self).params == old(self).params,
            final(self).population == old(self).population,
            final(self).costs == old(self).costs,
            final(self).best == old(self).best,
            final(self).best_cost == old(self).best_cost,
            final(self).baseline == old(self).baseline,
            final(self).generation == old(self).generation,
            (r as int, final(self).rng.state) == tournament(old(self).costs@, old(self).rng.state),
    {
        let size = self.population.len();
        let a = self.rng.below(size);
        let b = self.rng.below(size);
        if self.costs[b] < self.costs[a] {
            b
        } else {
            a
        }
    }

    /// Breeds one offspring: two tournament parents, their crossover on a
    /// random segment, then the configured number of random exchanges.
    fn breed_one(&mut self) -> (child: Vec<usize>)
        requires
            old(self).wf(),
        ensures
            final(self).wf(),
            final(self).source_weight == old(self).source_weight,
            final(self).target_weight == old(self).target_weight,
            final(self).params == old(self).params,
            final(self).population == old(self).population,
            final(self).costs == old(self).costs,
            final(self).best == old(self).best,
            final(self).best_cost == old(self).best_cost,
            final(self).baseline == old(self).baseline,
            final(self).generation == old(self).generation,
            is_permutation(child@, old(self).target_weight@.len()),
            (child@, final(self).rng.state) == offspring(
                candidates(old(self).population@),
                old(self).costs@,
                old(self).target_weight@.len(),
                old(self).params.mutation_swaps as nat,
                old(self).rng.state,
            ),
    {
        let ghost cands = candidates(self.population@);
        let ghost s0 = self.rng.state;
        let n = self.target_weight.len();
        let a = self.select_parent();
        let b = self.select_parent();
        let ghost s2 = self.rng.state;
        let mut lo: usize = 0;
        let mut hi: usize = 0;
        if n > 0 {
            let x = self.rng.below(n);
            let y = self.rng.below(n);
            if x <= y {
                lo = x;
                hi = y + 1;
            } else {
                lo = y;
                hi = x + 1;
            }
        }
        proof {
            assert(segment(n as nat, s2) == (lo as int, hi as int, self.rng.state));
            assert(cands[a as int] == self.population@[a as int]@);
            assert(cands[b as int] == self.population@[b as int]@);
        }
        let mut child = crossover(&self.population[a], &self.population[b], lo, hi);
        mutate(&mut child, &mut self.rng, self.params.mutation_swaps);
        child
    }

    /// One generation. Slot 0 receives the best candidate so far (elitism);
    /// every other slot receives the next offspring bred from the old
    /// population and the generator state. The best candidate becomes the
    /// cheapest of the old best and the offspring, so the best cost never
    /// increases.
    pub fn step(&mut self)
        requires
            old(self).wf(),
            old(self).generation < u64::MAX,
        ensures
            final(self).wf(),
            final(self).best_cost <= old(self).best_cost,
            final(self).generation == old(self).generation + 1,
            final(self).source_weight@ == old(self).source_weight@,
            final(self).target_weight@ == old(self).target_weight@,
            final(self).baseline@ == old(self).baseline@,
            final(self).params == old(self).params,
            final(self).population@.len() == old(self).population@.len(),
            final(self).population@[0]@ == old(self).best@,
            ({
                let b = brood(
                    candidates(old(self).population@),
                    old(self).costs@,
                    old(self).target_weight@.len(),
                    old(self).params.mutation_swaps as nat,
                    old(self).rng.state,
                    (old(self).population@.len() - 1) as nat,
                );
                &&& final(self).rng.state == b.1
                &&& forall|i: int|
                    1 <= i < final(self).population@.len() ==> #[trigger] final(self).population@[i]@
                        == b.0[i - 1]
            }),
            final(self).best@ == old(self).best@ || exists|i: int|
                1 <= i < final(self).population@.len() && final(self).best@
                    == #[trigger] final(self).population@[i]@,
    {
        let ghost start = *self;
        let ghost cands = candidates(self.population@);
        let n = self.target_weight.len();
        let size = self.population.len();
        let swaps = self.params.mutation_swaps;
        let mut next: Vec<Vec<usize>> = Vec::new();
        let mut next_costs: Vec<u128> = Vec::new();
        next.push(copy_assignment(&self.best));
        next_costs.push(self.best_cost);
        while next.len() < size
            invariant
                self.wf(),
                n == self.target_weight@.len(),
                size == self.population@.len(),
                swaps == self.params.mutation_swaps,
                self.source_weight == start.source_weight,
                self.target_weight == start.target_weight,
                self.params == start.params,
                self.baseline == start.baseline,
                self.generation == start.generation,
                self.population == start.population,
                self.costs == start.costs,
                cands == candidates(start.population@),
                self.best_cost <= start.best_cost,
                1 <= next@.len() <= size,
                next_costs@.len() == next@.len(),
                next@[0]@ == start.best@,
                forall|i: int|
                    0 <= i < next@.len() ==> is_permutation(#[trigger] next@[i]@, n as nat)
                        && next_costs@[i] as int == total_cost(
                        self.source_weight@,
                        self.target_weight@,
                        next@[i]@,
                    ) && self.best_cost <= next_costs@[i],
                brood(cands, start.costs@, n as nat, swaps as nat, start.rng.state, (next@.len() - 1) as nat).1
                    == self.rng.state,
                forall|i: int|
                    1 <= i < next@.len() ==> #[trigger] next@[i]@ == brood(
                        cands,
                        start.costs@,
                        n as nat,
                        swaps as nat,
                        start.rng.state,
                        (next@.len() - 1) as nat,
                    ).0[i - 1],
                self.best@ == start.best@ || exists|i: int|
                    1 <= i < next@.len() && self.best@ == #[trigger] next@[i]@,
            decreases size - next@.len(),
        {
            let ghost k = (next@.len() - 1) as nat;
            let child = self.breed_one();
            proof {
                lemma_brood_len(cands, start.costs@, n as nat, swaps as nat, start.rng.state, k);
            }
            let ghost cv = child@;
            let c = assignment_cost(&self.source_weight, &self.target_weight, &child);
            let ghost best0 = self.best@;
            if c < self.best_cost {
                self.best = copy_assignment(&child);
                self.best_cost = c;
            }
            let ghost next0 = next@;
            let ghost next_costs0 = next_costs@;
            next.push(child);
            next_costs.push(c);
            proof {
                let bk = brood(cands, start.costs@, n as nat, swaps as nat, start.rng.state, k);
                let bk1 = brood(cands, start.costs@, n as nat, swaps as nat, start.rng.state, k + 1);
                assert(bk1.0 == bk.0.push(next@[k + 1 as int]@));
                assert(next@[0] == next0[0]);
                assert forall|i: int| 0 <= i < next@.len() implies is_permutation(
                    #[trigger] next@[i]@,
                    n as nat,
                ) && next_costs@[i] as int == total_cost(
                    self.source_weight@,
                    self.target_weight@,
                    next@[i]@,
                ) && self.best_cost <= next_costs@[i] by {
                    if i < next0.len() {
                        assert(next@[i] == next0[i]);
                        assert(next_costs@[i] == next_costs0[i]);
                    } else {
                        assert(next@[i]@ == cv);
                        assert(next_costs@[i] == c);
                    }
                }
                assert forall|i: int| 1 <= i < next@.len() implies #[trigger] next@[i]@ == bk1.0[i
                    - 1] by {
                    if i < next0.len() {
                        assert(next@[i] == next0[i]);
                    }
                }
                if self.best@ == best0 {
                    if best0 != start.best@ {
                        let i = choose|i: int| 1 <= i < next0.len() && best0 == #[trigger] next0[i]@;
                        assert(next@[i] == next0[i]);
                    }
                } else {
                    assert(self.best@ == next@[k + 1 as int]@);
                }
            }
        }
        self.population = next;
        self.costs = next_costs;
        self.generation = self.generation + 1;
    }
}

/// Elitism over a whole run: when each generation's best cost is at most
/// the previous one's, the best cost recorded at a later generation never
/// exceeds the one recorded at an earlier generation.
pub proof fn lemma_best_cost_non_increasing(best_costs: Seq<u128>)
    requires
        forall|g: int| 0 <= g < best_costs.len() - 1 ==> #[trigger] best_costs[g + 1] <= best_costs[g],
    ensures
        forall|g: int, h: int| 0 <= g <= h < best_costs.len() ==> best_costs[h] <= best_costs[g],
    decreases best_costs.len(),
{
    if best_costs.len() > 0 {
        let prefix = best_costs.drop_last();
        assert forall|g: int| 0 <= g < prefix.len() - 1 implies #[trigger] prefix[g + 1] <= prefix[g] by {
            assert(best_costs[g + 1] <= best_costs[g]);
        }
        lemma_best_cost_non_increasing(prefix);
        assert forall|g: int, h: int| 0 <= g <= h < best_costs.len() implies best_costs[h]
            <= best_costs[g] by {
            if h == best_costs.len() - 1 && g < h {
                assert(prefix[g] == best_costs[g]);
                let g2 = h - 1;
                assert(best_costs[g2 + 1] <= best_costs[g2]);
                if g < h - 1 {
                    assert(prefix[h - 1] <= prefix[g]);
                }
            } else if h < best_costs.len() - 1 {
                assert(prefix[h] <= prefix[g]);
            }
        }
    }
}

} // verus!
