use vstd::prelude::*;

use crate::config::DEFAULT_MAX_SIMS;
use crate::laws::{lemma_item_hits_bounded, lemma_single_item_all_or_none};
use crate::draw::{random_distinct_indices, random_index};

verus! {

/// Why an estimate or a configuration could not be produced.
#[derive(Debug, Clone, Copy, PartialEq, Eq, Structural)]
pub enum BagError {
    /// An estimate was asked of a bag that holds no items.
    EmptyPopulation,
    /// A sample size was zero or larger than the population.
    InvalidSampleSize,
    /// A simulation-budget override was not a positive `u32` in decimal,
    /// with at most one leading `+`.
    InvalidConfiguration,
}

/// The outcome of a simulation: `hits` of `trials` draws met the predicate.
/// The estimated probability is `hits / trials`.
#[derive(Debug, Clone, Copy, PartialEq, Eq, Structural)]
pub struct Estimate {
    pub hits: u32,
    pub trials: u32,
}

/// A fixed population of items, and the number of simulated draws each
/// estimate performs.
pub struct Bag<T: Clone> {
    pub items: Vec<T>,
    pub max_sims: u32,
}

/// `f` can be called on every item and gives one answer per item.
pub open spec fn pure_item_predicate<T, F: Fn(&T) -> bool>(f: F) -> bool {
    &&& forall|x: &T| #[trigger] f.requires((x,))
    &&& forall|x: &T, a: bool, b: bool|
        #[trigger] f.ensures((x,), a) && #[trigger] f.ensures((x,), b) ==> a == b
}

/// `f` holds of the item `x`.
pub open spec fn accepts_item<T, F: Fn(&T) -> bool>(f: F, x: &T) -> bool {
    f.ensures((x,), true)
}

/// How many of the drawn positions `draws` hold an item of `items` that `f` accepts.
pub open spec fn count_item_hits<T, F: Fn(&T) -> bool>(f: F, items: Seq<T>, draws: Seq<usize>) -> nat
    decreases draws.len(),
{
    if draws.len() == 0 {
        0
    } else {
        count_item_hits(f, items, draws.drop_last()) + (if accepts_item(f, &items[draws.last() as int]) {
            1nat
        } else {
            0nat
        })
    }
}

/// Every position of `draws` lies in `[0, n)`.
pub open spec fn in_population(draws: Seq<usize>, n: nat) -> bool {
    forall|i: int| 0 <= i < draws.len() ==> #[trigger] draws[i] < n
}

/// `draw` picks `k` distinct positions of `[0, n)`.
pub open spec fn is_subset_draw(draw: Seq<usize>, n: nat, k: nat) -> bool {
    &&& draw.len() == k
    &&& in_population(draw, n)
    &&& forall|i: int, j: int| 0 <= i < j < draw.len() ==> draw[i] != draw[j]
}

/// `v` holds, in order, the items of `items` at the positions of `draw`.
pub open spec fn is_picked<T>(v: Seq<&T>, items: Seq<T>, draw: Seq<usize>) -> bool {
    &&& v.len() == draw.len()
    &&& forall|j: int| 0 <= j < v.len() ==> *#[trigger] v[j] == items[draw[j] as int]
}

/// `f` can be called on every selection and its answer depends only on the
/// items selected.
pub open spec fn pure_subset_predicate<T, F: Fn(Vec<&T>) -> bool>(f: F) -> bool {
    &&& forall|v: Vec<&T>| #[trigger] f.requires((v,))
    &&& forall|v: Vec<&T>, w: Vec<&T>, a: bool, b: bool|
        v@ == w@ && #[trigger] f.ensures((v,), a) && #[trigger] f.ensures((w,), b) ==> a == b
}

/// `f` holds of the items of `items` at the positions of `draw`.
pub open spec fn accepts_draw<T, F: Fn(Vec<&T>) -> bool>(f: F, items: Seq<T>, draw: Seq<usize>) -> bool {
    exists|v: Vec<&T>| is_picked(v@, items, draw) && #[trigger] f.ensures((v,), true)
}

/// How many of the selections `draws` hold items of `items` that `f` accepts.
pub open spec fn count_draw_hits<T, F: Fn(Vec<&T>) -> bool>(f: F, items: Seq<T>, draws: Seq<Seq<usize>>) -> nat
    decreases draws.len(),
{
    if draws.len() == 0 {
        0
    } else {
        count_draw_hits(f, items, draws.drop_last()) + (if accepts_draw(f, items, draws.last()) {
            1nat
        } else {
            0nat
        })
    }
}

/// `f` accepts every selection.
pub open spec fn always_accepts<T, F: Fn(Vec<&T>) -> bool>(f: F) -> bool {
    forall|v: Vec<&T>, a: bool| #[trigger] f.ensures((v,), a) ==> a
}

impl Bag<i32> {
    /// A bag holding the integers of `[min, max)` in ascending order; empty
    /// when `max <= min`.
    pub fn from_range(min: i32, max: i32) -> (r: Self)
        ensures
            r.items@.len() == (if max > min { max - min } else { 0 }),
            forall|i: int| 0 <= i < r.items@.len() ==> #[trigger] r.items@[i] == min + i,
            r.max_sims == DEFAULT_MAX_SIMS,
    {
        let mut items: Vec<i32> = Vec::new();
        let mut v: i32 = min;
        while v < max
            invariant
                min <= v,
                v <= (if max > min { max } else { min }),
                items@.len() == v - min,
                forall|i: int| 0 <= i < items@.len() ==> #[trigger] items@[i] == min + i,
            decreases max - v,
        {
            items.push(v);
            v = v + 1;
        }
        Bag { items, max_sims: DEFAULT_MAX_SIMS }
    }
}

impl<T: Clone> Bag<T> {
    /// A bag holding `v` as it is: same items, same order, duplicates kept.
    pub fn from_vec(v: Vec<T>) -> (r: Self)
        ensures
            r.items@ == v@,
            r.max_sims == DEFAULT_MAX_SIMS,
    {
        Bag { items: v, max_sims: DEFAULT_MAX_SIMS }
    }

    /// Sets the number of simulated draws that later estimates perform.
    pub fn set_max_sims(&mut self, max_sims: u32)
        requires
            max_sims > 0,
        ensures
            final(self).max_sims == max_sims,
            final(self).items@ == old(self).items@,
    {
        self.max_sims = max_sims;
    }

    /// Counts the positions of `draws` whose item `f` accepts.
    pub fn count_accepted<F: Fn(&T) -> bool>(&self, draws: &Vec<usize>, f: &F) -> (r: u32)
        requires
            pure_item_predicate(*f),
            in_population(draws@, self.items@.len()),
            draws@.len() <= u32::MAX,
        ensures
            r == count_item_hits(*f, self.items@, draws@),
    {
        let mut hits: u32 = 0;
        let mut i: usize = 0;
        while i < draws.len()
            invariant
                pure_item_predicate(*f),
                in_population(draws@, self.items@.len()),
                draws@.len() <= u32::MAX,
                i <= draws@.len(),
                hits <= i,
                hits == count_item_hits(*f, self.items@, draws@.subrange(0, i as int)),
            decreases draws.len() - i,
        {
            let idx = draws[i];
            let hit = f(&self.items[idx]);
            proof {
                assert(draws@.subrange(0, i + 1).drop_last() =~= draws@.subrange(0, i as int));
            }
            if hit {
                hits = hits + 1;
            }
            i = i + 1;
        }
        proof {
            assert(draws@.subrange(0, draws@.len() as int) =~= draws@);
        }
        hits
    }

    /// Whether `f` accepts the items at the positions of `draw`, handed to it
    /// in the order of `draw`.
    pub fn draw_accepted<F: Fn(Vec<&T>) -> bool>(&self, draw: &Vec<usize>, f: &F) -> (r: bool)
        requires
            pure_subset_predicate(*f),
            in_population(draw@, self.items@.len()),
        ensures
            r == accepts_draw(*f, self.items@, draw@),
            always_accepts(*f) ==> r,
    {
        let mut picked: Vec<&T> = Vec::new();
        let mut i: usize = 0;
        while i < draw.len()
            invariant
                in_population(draw@, self.items@.len()),
                i <= draw@.len(),
                is_picked(picked@, self.items@, draw@.subrange(0, i as int)),
            decreases draw.len() - i,
        {
            picked.push(&self.items[draw[i]]);
            i = i + 1;
        }
        proof {
            assert(draw@.subrange(0, draw@.len() as int) =~= draw@);
        }
        let ghost handed = picked;
        let r = f(picked);
        proof {
            if !r {
                if accepts_draw(*f, self.items@, draw@) {
                    let v = choose|v: Vec<&T>| is_picked(v@, self.items@, draw@) && #[trigger] f.ensures((v,), true);
                    assert(v@ =~= handed@);
                    assert(f.ensures((handed,), false));
                }
            }
        }
        r
    }

    /// Estimates the probability that `f` holds of one item drawn uniformly
    /// at random: `max_sims` independent draws with replacement, and the
    /// number of them whose item `f` accepts.
    pub fn one<F: Fn(&T) -> bool>(&self, f: F) -> (r: Result<Estimate, BagError>)
        requires
            pure_item_predicate(f),
            self.max_sims > 0,
        ensures
            self.items@.len() == 0 <==> r == Err::<Estimate, BagError>(BagError::EmptyPopulation),
            self.items@.len() > 0 ==> r is Ok,
            r matches Ok(e) ==> {
                &&& e.trials == self.max_sims
                &&& e.hits <= e.trials
                &&& exists|draws: Seq<usize>|
                    #![trigger count_item_hits(f, self.items@, draws)]
                    draws.len() == self.max_sims && in_population(draws, self.items@.len())
                        && e.hits == count_item_hits(f, self.items@, draws)
                &&& self.items@.len() == 1 ==> e.hits == (if accepts_item(f, &self.items@[0]) {
                    e.trials
                } else {
                    0
                })
            },
    {
        let n = self.items.len();
        if n == 0 {
            return Err(BagError::EmptyPopulation);
        }
        let mut draws: Vec<usize> = Vec::new();
        let mut i: u32 = 0;
        while i < self.max_sims
            invariant
                n == self.items@.len(),
                n > 0,
                i <= self.max_sims,
                draws@.len() == i,
                in_population(draws@, n as nat),
            decreases self.max_sims - i,
        {
            draws.push(random_index(n));
            i = i + 1;
        }
        let hits = self.count_accepted(&draws, &f);
        proof {
            lemma_item_hits_bounded(f, self.items@, draws@);
            if n == 1 {
                lemma_single_item_all_or_none(f, self.items@, draws@);
            }
        }
        Ok(Estimate { hits, trials: self.max_sims })
    }

    /// Estimates the probability that `f` holds of `sample_size` distinct
    /// items drawn uniformly at random: `max_sims` independent selections
    /// without replacement, each from the whole population, and the number of
    /// them that `f` accepts.
    pub fn sample<F: Fn(Vec<&T>) -> bool>(&self, sample_size: usize, f: F) -> (r: Result<
        Estimate,
        BagError,
    >)
        requires
            pure_subset_predicate(f),
            self.max_sims > 0,
        ensures
            self.items@.len() == 0 ==> r == Err::<Estimate, BagError>(BagError::EmptyPopulation),
            self.items@.len() > 0 && (sample_size == 0 || sample_size > self.items@.len()) ==> r
                == Err::<Estimate, BagError>(BagError::InvalidSampleSize),
            0 < sample_size <= self.items@.len() ==> r is Ok,
            r matches Ok(e) ==> {
                &&& e.trials == self.max_sims
                &&& e.hits <= e.trials
                &&& exists|draws: Seq<Seq<usize>>|
                    #![trigger count_draw_hits(f, self.items@, draws)]
                    draws.len() == self.max_sims && (forall|i: int|
                        0 <= i < draws.len() ==> is_subset_draw(
                            #[trigger] draws[i],
                            self.items@.len(),
                            sample_size as nat,
                        )) && e.hits == count_draw_hits(f, self.items@, draws)
                &&& always_accepts(f) ==> e.hits == e.trials
            },
    {
        let n = self.items.len();
        if n == 0 {
            return Err(BagError::EmptyPopulation);
        }
        if sample_size == 0 || sample_size > n {
            return Err(BagError::InvalidSampleSize);
        }
        let ghost mut draws: Seq<Seq<usize>> = Seq::empty();
        let mut hits: u32 = 0;
        let mut i: u32 = 0;
        while i < self.max_sims
            invariant
                pure_subset_predicate(f),
                n == self.items@.len(),
                0 < sample_size <= n,
                i <= self.max_sims,
                hits <= i,
                draws.len() == i,
                forall|j: int|
                    0 <= j < draws.len() ==> is_subset_draw(
                        #[trigger] draws[j],
                        n as nat,
                        sample_size as nat,
                    ),
                hits == count_draw_hits(f, self.items@, draws),
                always_accepts(f) ==> hits == i,
            decreases self.max_sims - i,
        {
            let draw = random_distinct_indices(n, sample_size);
            let hit = self.draw_accepted(&draw, &f);
            proof {
                let next = draws.push(draw@);
                assert(next.drop_last() =~= draws);
                draws = next;
            }
            if hit {
                hits = hits + 1;
            }
            i = i + 1;
        }
        Ok(Estimate { hits, trials: self.max_sims })
    }
}

} // verus!
