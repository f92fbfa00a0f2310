//! Discrete probability laws and the binomial coefficient they share.
use crate::combinatorics;
use crate::scalar;
use crate::scalar::Scalar;
use vstd::prelude::*;

verus! {

/// The recurrence for `C(n, k)` can be run in `u32`: `k` is at most `n` and
/// the largest product it forms, `k * C(n, k)`, fits.
pub open spec fn coefficient_fits(n: u32, k: u32) -> bool {
    k <= n && k * combinatorics::binomial(n as nat, k as nat) <= u32::MAX
}

/// The binomial coefficient `C(n, k)`, by the multiplicative recurrence:
/// the running value is multiplied by `n - k + i` and then divided by `i`, for
/// `i` from 1 to `k`.
pub fn binomial_coefficient(n: u32, k: u32) -> (r: u32)
    requires
        coefficient_fits(n, k),
    ensures
        r == combinatorics::binomial(n as nat, k as nat),
{
    let base: u32 = n - k;
    let mut result: u32 = 1;
    let mut done: u32 = 0;
    while done < k
        invariant
            done <= k <= n,
            base == n - k,
            k * combinatorics::binomial(n as nat, k as nat) <= u32::MAX,
            result == combinatorics::binomial((base + done) as nat, done as nat),
        decreases k - done,
    {
        let i: u32 = done + 1;
        proof {
            combinatorics::lemma_recurrence_step(n as nat, k as nat, i as nat);
        }
        result = result * (base + i);
        result = result / i;
        done = i;
    }
    result
}

/// The binomial coefficient where the recurrence stays within `u32`, and
/// nothing where it does not or where `k` exceeds `n`.
pub fn checked_binomial_coefficient(n: u32, k: u32) -> (r: Option<u32>)
    ensures
        r == if coefficient_fits(n, k) {
            Some(combinatorics::binomial(n as nat, k as nat) as u32)
        } else {
            None
        },
{
    if k > n {
        return None;
    }
    let base: u32 = n - k;
    let mut result: u32 = 1;
    let mut done: u32 = 0;
    while done < k
        invariant
            done <= k <= n,
            base == n - k,
            result == combinatorics::binomial((base + done) as nat, done as nat),
            done * combinatorics::binomial((base + done) as nat, done as nat) <= u32::MAX,
        decreases k - done,
    {
        let i: u32 = done + 1;
        proof {
            combinatorics::lemma_recurrence_step(n as nat, k as nat, i as nat);
        }
        assert(result * (base + i) <= u64::MAX) by (nonlinear_arith)
            requires
                result <= u32::MAX,
                base + i <= u32::MAX,
        ;
        let product: u64 = (result as u64) * ((base + i) as u64);
        if product > u32::MAX as u64 {
            return None;
        }
        result = (product / (i as u64)) as u32;
        done = i;
    }
    Some(result)
}

/// The test `0 <= p && p <= 1` can answer `answer`.
pub open spec fn unit_interval_test<S: Scalar>(p: S, answer: bool) -> bool {
    exists|zero: S, one: S, low: bool, high: bool|
        #![trigger scalar::is_at_most(zero, p, low), scalar::is_at_most(p, one, high)]
        {
            &&& scalar::is_zero(zero)
            &&& scalar::is_one(one)
            &&& scalar::is_at_most(zero, p, low)
            &&& scalar::is_at_most(p, one, high)
            &&& answer == (low && high)
        }
}

/// `p` can serve as a probability: it passes the test `0 <= p && p <= 1`.
pub open spec fn is_probability<S: Scalar>(p: S) -> bool {
    unit_interval_test(p, true)
}

/// `q` is the complement `1 - p`.
pub open spec fn is_complement<S: Scalar>(p: S, q: S) -> bool {
    exists|one: S| #[trigger] scalar::is_one(one) && scalar::is_difference(one, p, q)
}

/// Runs the test `0 <= p && p <= 1`.
pub fn in_unit_interval<S: Scalar>(p: S) -> (answer: bool)
    ensures
        unit_interval_test(p, answer),
{
    let zero = S::zero();
    let one = S::one();
    let low = zero.at_most(p);
    let high = p.at_most(one);
    proof {
        assert(scalar::is_at_most(zero, p, low));
        assert(scalar::is_at_most(p, one, high));
    }
    low && high
}

/// The complement `1 - p`.
fn complement<S: Scalar>(p: S) -> (q: S)
    ensures
        is_complement(p, q),
{
    let one = S::one();
    let q = one.minus(p);
    proof {
        assert(scalar::is_one(one));
    }
    q
}

/// The law of one trial that succeeds with probability `p`.
pub struct Bernoulli<S> {
    pub p: S,
}

impl<S: Scalar> Bernoulli<S> {
    /// The parameter is a probability.
    pub open spec fn wf(&self) -> bool {
        is_probability(self.p)
    }

    /// `r` is the variance `p * (1 - p)`.
    pub open spec fn is_variance(&self, r: S) -> bool {
        exists|q: S| #[trigger] is_complement(self.p, q) && scalar::is_product(self.p, q, r)
    }

    /// `r` is the skewness `((1 - p) - p) / sqrt(p * (1 - p))`.
    pub open spec fn is_skewness(&self, r: S) -> bool {
        exists|q: S, top: S, spread: S, deviation: S|
            #![trigger scalar::is_difference(q, self.p, top), scalar::is_root(spread, deviation)]
            {
                &&& is_complement(self.p, q)
                &&& scalar::is_difference(q, self.p, top)
                &&& self.is_variance(spread)
                &&& scalar::is_root(spread, deviation)
                &&& scalar::is_quotient(top, deviation, r)
            }
    }

    pub fn new(p: S) -> (r: Bernoulli<S>)
        requires
            is_probability(p),
        ensures
            r.wf(),
            r.p == p,
    {
        Bernoulli { p }
    }

    /// The probability of the outcome `k`: `1 - p` for 0, `p` for 1, zero beyond.
    pub fn pmf(&self, k: u32) -> (r: S)
        ensures
            k == 0 ==> is_complement(self.p, r),
            k == 1 ==> r == self.p,
            k >= 2 ==> scalar::is_zero(r),
    {
        if k == 0 {
            complement(self.p)
        } else if k == 1 {
            self.p
        } else {
            S::zero()
        }
    }

    /// The probability of an outcome of at most `k`: `1 - p` for 0, one from 1 on.
    pub fn cdf(&self, k: u32) -> (r: S)
        ensures
            k == 0 ==> is_complement(self.p, r),
            k >= 1 ==> scalar::is_one(r),
    {
        if k < 1 {
            complement(self.p)
        } else {
            S::one()
        }
    }

    pub fn mean(&self) -> (r: S)
        ensures
            r == self.p,
    {
        self.p
    }

    pub fn variance(&self) -> (r: S)
        ensures
            self.is_variance(r),
    {
        let q = complement(self.p);
        let r = self.p.times(q);
        proof {
            assert(scalar::is_product(self.p, q, r));
        }
        r
    }

    pub fn skewness(&self) -> (r: S)
        ensures
            self.is_skewness(r),
    {
        let q = complement(self.p);
        let top = q.minus(self.p);
        let spread = self.variance();
        let deviation = spread.root();
        let r = top.over(deviation);
        proof {
            assert(scalar::is_difference(q, self.p, top));
            assert(scalar::is_root(spread, deviation));
        }
        r
    }
}

/// The law of the number of successes in `n` trials that each succeed with
/// probability `p`.
pub struct Binomial<S> {
    pub n: u32,
    pub p: S,
}

impl<S: Scalar> Binomial<S> {
    /// The parameter `p` is a probability.
    pub open spec fn wf(&self) -> bool {
        is_probability(self.p)
    }

    /// `r` is the probability of exactly `k` successes: zero beyond `n`, else
    /// `(C(n, k) * p^k) * (1 - p)^(n - k)`.
    pub open spec fn is_mass(&self, k: u32, r: S) -> bool {
        if k > self.n {
            scalar::is_zero(r)
        } else {
            let ways_count = combinatorics::binomial(self.n as nat, k as nat) as u32;
            let rest = (self.n - k) as u32;
            exists|ways: S, hits: S, left: S, q: S, misses: S|
                #![trigger scalar::is_product(ways, hits, left), scalar::is_power(q, rest, misses)]
                {
                    &&& scalar::is_count(ways_count, ways)
                    &&& scalar::is_power(self.p, k, hits)
                    &&& scalar::is_product(ways, hits, left)
                    &&& is_complement(self.p, q)
                    &&& scalar::is_power(q, rest, misses)
                    &&& scalar::is_product(left, misses, r)
                }
        }
    }

    /// `r` is the running sum of the masses of 0 up to and including `k`:
    /// starting from a zero, each mass is added in turn.
    pub open spec fn is_cumulative(&self, k: u32, r: S) -> bool
        decreases k,
    {
        exists|before: S, mass: S|
            #![trigger scalar::is_sum(before, mass, r)]
            {
                &&& if k == 0 {
                    scalar::is_zero(before)
                } else {
                    self.is_cumulative((k - 1) as u32, before)
                }
                &&& self.is_mass(k, mass)
                &&& scalar::is_sum(before, mass, r)
            }
    }

    /// `r` is the mean `n * p`.
    pub open spec fn is_mean(&self, r: S) -> bool {
        exists|trials: S|
            #[trigger] scalar::is_count(self.n, trials) && scalar::is_product(trials, self.p, r)
    }

    /// `r` is the variance `(n * p) * (1 - p)`.
    pub open spec fn is_variance(&self, r: S) -> bool {
        exists|mean: S, q: S|
            #![trigger self.is_mean(mean), is_complement(self.p, q)]
            self.is_mean(mean) && is_complement(self.p, q) && scalar::is_product(mean, q, r)
    }

    /// `r` is the skewness `((1 - p) - p) / sqrt(n * p * (1 - p))`.
    pub open spec fn is_skewness(&self, r: S) -> bool {
        exists|q: S, top: S, spread: S, deviation: S|
            #![trigger scalar::is_difference(q, self.p, top), scalar::is_root(spread, deviation)]
            {
                &&& is_complement(self.p, q)
                &&& scalar::is_difference(q, self.p, top)
                &&& self.is_variance(spread)
                &&& scalar::is_root(spread, deviation)
                &&& scalar::is_quotient(top, deviation, r)
            }
    }

    pub fn new(n: u32, p: S) -> (r: Binomial<S>)
        requires
            is_probability(p),
        ensures
            r.wf(),
            r.n == n,
            r.p == p,
    {
        Binomial { n, p }
    }

    /// The probability of exactly `k` successes.
    pub fn pmf(&self, k: u32) -> (r: S)
        requires
            k <= self.n ==> coefficient_fits(self.n, k),
        ensures
            self.is_mass(k, r),
    {
        if k > self.n {
            S::zero()
        } else {
            let ways = S::from_count(binomial_coefficient(self.n, k));
            let hits = self.p.power(k);
            let left = ways.times(hits);
            let q = complement(self.p);
            let misses = q.power(self.n - k);
            let r = left.times(misses);
            proof {
                assert(scalar::is_product(ways, hits, left));
                assert(scalar::is_power(q, (self.n - k) as u32, misses));
            }
            r
        }
    }

    /// The probability of at most `k` successes: below `n` the running sum of
    /// the masses of 0 to `k`, and one from `n` on.
    pub fn cdf(&self, k: u32) -> (r: S)
        requires
            k < self.n ==> forall|i: u32| i <= k ==> #[trigger] coefficient_fits(self.n, i),
        ensures
            k < self.n ==> self.is_cumulative(k, r),
            k >= self.n ==> scalar::is_one(r),
    {
        if k < self.n {
            let mut result = S::zero();
            let mut i: u32 = 0;
            while i <= k
                invariant
                    k < self.n,
                    i <= k + 1,
                    forall|j: u32| j <= k ==> #[trigger] coefficient_fits(self.n, j),
                    i == 0 ==> scalar::is_zero(result),
                    i > 0 ==> self.is_cumulative((i - 1) as u32, result),
                decreases k + 1 - i,
            {
                assert(coefficient_fits(self.n, i));
                let mass = self.pmf(i);
                let next = result.plus(mass);
                proof {
                    assert(scalar::is_sum(result, mass, next));
                    assert(self.is_cumulative(i, next));
                }
                result = next;
                i += 1;
            }
            result
        } else {
            S::one()
        }
    }

    pub fn mean(&self) -> (r: S)
        ensures
            self.is_mean(r),
    {
        let trials = S::from_count(self.n);
        let r = trials.times(self.p);
        proof {
            assert(scalar::is_count(self.n, trials));
        }
        r
    }

    pub fn variance(&self) -> (r: S)
        ensures
            self.is_variance(r),
    {
        let mean = self.mean();
        let q = complement(self.p);
        mean.times(q)
    }

    pub fn skewness(&self) -> (r: S)
        ensures
            self.is_skewness(r),
    {
        let q = complement(self.p);
        let top = q.minus(self.p);
        let spread = self.variance();
        let deviation = spread.root();
        let r = top.over(deviation);
        proof {
            assert(scalar::is_difference(q, self.p, top));
            assert(scalar::is_root(spread, deviation));
        }
        r
    }
}

/// The uniform law on the integers from `a` to `b`, both included.
pub struct DiscreteUniform {
    pub a: u32,
    pub b: u32,
}

impl DiscreteUniform {
    /// The bounds are in order.
    pub open spec fn wf(&self) -> bool {
        self.a <= self.b
    }

    /// `r` is the mass of a point of the support: `1 / (b - a + 1)`.
    pub open spec fn is_point_mass<S: Scalar>(&self, r: S) -> bool {
        exists|one: S, width: S|
            #![trigger scalar::is_quotient(one, width, r)]
            {
                &&& scalar::is_one(one)
                &&& scalar::is_count((self.b - self.a + 1) as u32, width)
                &&& scalar::is_quotient(one, width, r)
            }
    }

    /// `r` is the share `(k - a) / (b - a)` of the support that lies below `k`.
    pub open spec fn is_share_below<S: Scalar>(&self, k: u32, r: S) -> bool {
        exists|below: S, span: S|
            #![trigger scalar::is_quotient(below, span, r)]
            {
                &&& scalar::is_count((k - self.a) as u32, below)
                &&& scalar::is_count((self.b - self.a) as u32, span)
                &&& scalar::is_quotient(below, span, r)
            }
    }

    /// `r` is the mean `(a + b) / 2`.
    pub open spec fn is_mean<S: Scalar>(&self, r: S) -> bool {
        exists|total: S, two: S|
            #![trigger scalar::is_quotient(total, two, r)]
            {
                &&& scalar::is_count((self.a + self.b) as u32, total)
                &&& scalar::is_count(2, two)
                &&& scalar::is_quotient(total, two, r)
            }
    }

    /// `r` is the variance `((b - a + 1)^2 - 1) / 12`.
    pub open spec fn is_variance<S: Scalar>(&self, r: S) -> bool {
        let points = self.b - self.a + 1;
        exists|top: S, twelve: S|
            #![trigger scalar::is_quotient(top, twelve, r)]
            {
                &&& scalar::is_count((points * points - 1) as u32, top)
                &&& scalar::is_count(12, twelve)
                &&& scalar::is_quotient(top, twelve, r)
            }
    }

    pub fn new(a: u32, b: u32) -> (r: DiscreteUniform)
        requires
            a <= b,
        ensures
            r.wf(),
            r.a == a,
            r.b == b,
    {
        DiscreteUniform { a, b }
    }

    /// The probability of the outcome `k`: zero outside the support, and
    /// `1 / (b - a + 1)` on it. The number of points has to fit in `u32`.
    pub fn pmf<S: Scalar>(&self, k: u32) -> (r: S)
        requires
            self.a <= k <= self.b ==> self.b - self.a < u32::MAX,
        ensures
            k < self.a || k > self.b ==> scalar::is_zero(r),
            self.a <= k <= self.b ==> self.is_point_mass(r),
    {
        if k < self.a || k > self.b {
            S::zero()
        } else {
            let one = S::one();
            let width = S::from_count(self.b - self.a + 1);
            let r = one.over(width);
            proof {
                assert(scalar::is_quotient(one, width, r));
            }
            r
        }
    }

    /// The probability of an outcome of at most `k`: zero below the support,
    /// `(k - a) / (b - a)` on it, one above it.
    pub fn cdf<S: Scalar>(&self, k: u32) -> (r: S)
        ensures
            k < self.a ==> scalar::is_zero(r),
            self.a <= k <= self.b ==> self.is_share_below(k, r),
            k >= self.a && k > self.b ==> scalar::is_one(r),
    {
        if k < self.a {
            S::zero()
        } else if k <= self.b {
            let below = S::from_count(k - self.a);
            let span = S::from_count(self.b - self.a);
            let r = below.over(span);
            proof {
                assert(scalar::is_quotient(below, span, r));
            }
            r
        } else {
            S::one()
        }
    }

    /// The mean `(a + b) / 2`. The sum of the bounds has to fit in `u32`.
    pub fn mean<S: Scalar>(&self) -> (r: S)
        requires
            self.a + self.b <= u32::MAX,
        ensures
            self.is_mean(r),
    {
        let total = S::from_count(self.a + self.b);
        let two = S::from_count(2);
        let r = total.over(two);
        proof {
            assert(scalar::is_quotient(total, two, r));
        }
        r
    }

    /// The variance `(n * n - 1) / 12` for `n = b - a + 1` points. The square
    /// has to fit in `u32`.
    pub fn variance<S: Scalar>(&self) -> (r: S)
        requires
            self.wf(),
            (self.b - self.a + 1) * (self.b - self.a + 1) <= u32::MAX,
        ensures
            self.is_variance(r),
    {
        assert(self.b - self.a + 1 <= u32::MAX) by (nonlinear_arith)
            requires
                (self.b - self.a + 1) * (self.b - self.a + 1) <= u32::MAX,
                self.b - self.a >= 0,
        ;
        let n: u32 = self.b - self.a + 1;
        assert(n * n >= 1) by (nonlinear_arith)
            requires
                n >= 1,
        ;
        let top = S::from_count(n * n - 1);
        let twelve = S::from_count(12);
        let r = top.over(twelve);
        proof {
            assert(scalar::is_quotient(top, twelve, r));
        }
        r
    }

    /// The skewness, which is zero: the law is symmetric.
    pub fn skewness<S: Scalar>(&self) -> (r: S)
        ensures
            scalar::is_zero(r),
    {
        S::zero()
    }
}

/// The law of the number of failures before the first success, in trials that
/// each succeed with probability `p`.
pub struct Geometric<S> {
    pub p: S,
}

impl<S: Scalar> Geometric<S> {
    /// The parameter is a probability.
    pub open spec fn wf(&self) -> bool {
        is_probability(self.p)
    }

    /// `r` is the probability `p * (1 - p)^k` of exactly `k` failures.
    pub open spec fn is_mass(&self, k: u32, r: S) -> bool {
        exists|q: S, tail: S|
            #![trigger scalar::is_power(q, k, tail)]
            {
                &&& is_complement(self.p, q)
                &&& scalar::is_power(q, k, tail)
                &&& scalar::is_product(self.p, tail, r)
            }
    }

    /// `r` is the probability `1 - (1 - p)^(k + 1)` of at most `k` failures.
    pub open spec fn is_cumulative(&self, k: u32, r: S) -> bool {
        exists|one: S, q: S, tail: S|
            #![trigger scalar::is_power(q, (k + 1) as u32, tail), scalar::is_one(one)]
            {
                &&& scalar::is_one(one)
                &&& is_complement(self.p, q)
                &&& scalar::is_power(q, (k + 1) as u32, tail)
                &&& scalar::is_difference(one, tail, r)
            }
    }

    /// `r` is the mean `1 / p`.
    pub open spec fn is_mean(&self, r: S) -> bool {
        exists|one: S| #[trigger] scalar::is_one(one) && scalar::is_quotient(one, self.p, r)
    }

    /// `r` is the variance `(1 - p) / (p * p)`.
    pub open spec fn is_variance(&self, r: S) -> bool {
        exists|q: S, square: S|
            #![trigger scalar::is_quotient(q, square, r)]
            {
                &&& is_complement(self.p, q)
                &&& scalar::is_product(self.p, self.p, square)
                &&& scalar::is_quotient(q, square, r)
            }
    }

    /// `r` is the skewness `(2 - p) / sqrt(1 - p)`.
    pub open spec fn is_skewness(&self, r: S) -> bool {
        exists|two: S, top: S, q: S, deviation: S|
            #![trigger scalar::is_difference(two, self.p, top), scalar::is_root(q, deviation)]
            {
                &&& scalar::is_count(2, two)
                &&& scalar::is_difference(two, self.p, top)
                &&& is_complement(self.p, q)
                &&& scalar::is_root(q, deviation)
                &&& scalar::is_quotient(top, deviation, r)
            }
    }

    pub fn new(p: S) -> (r: Geometric<S>)
        requires
            is_probability(p),
        ensures
            r.wf(),
            r.p == p,
    {
        Geometric { p }
    }

    /// The probability of exactly `k` failures before the first success.
    pub fn pmf(&self, k: u32) -> (r: S)
        ensures
            self.is_mass(k, r),
    {
        let q = complement(self.p);
        let tail = q.power(k);
        let r = self.p.times(tail);
        proof {
            assert(scalar::is_power(q, k, tail));
        }
        r
    }

    /// The probability of at most `k` failures before the first success. The
    /// exponent `k + 1` has to fit in `u32`.
    pub fn cdf(&self, k: u32) -> (r: S)
        requires
            k < u32::MAX,
        ensures
            self.is_cumulative(k, r),
    {
        let one = S::one();
        let q = complement(self.p);
        let tail = q.power(k + 1);
        let r = one.minus(tail);
        proof {
            assert(scalar::is_power(q, (k + 1) as u32, tail));
            assert(scalar::is_one(one));
        }
        r
    }

    pub fn mean(self) -> (r: S)
        ensures
            self.is_mean(r),
    {
        let one = S::one();
        let r = one.over(self.p);
        proof {
            assert(scalar::is_one(one));
        }
        r
    }

    pub fn variance(self) -> (r: S)
        ensures
            self.is_variance(r),
    {
        let q = complement(self.p);
        let square = self.p.times(self.p);
        let r = q.over(square);
        proof {
            assert(scalar::is_quotient(q, square, r));
        }
        r
    }

    pub fn skewness(self) -> (r: S)
        ensures
            self.is_skewness(r),
    {
        let two = S::from_count(2);
        let top = two.minus(self.p);
        let q = complement(self.p);
        let deviation = q.root();
        let r = top.over(deviation);
        proof {
            assert(scalar::is_difference(two, self.p, top));
            assert(scalar::is_root(q, deviation));
        }
        r
    }
}

/// The law of the successes among `n` draws without replacement from a
/// population of `N` that holds `K` successes.
#[allow(non_snake_case)]
pub struct HyperGeometric {
    pub N: u32,
    pub K: u32,
    pub n: u32,
}

impl HyperGeometric {
    /// Neither the successes nor the draws exceed the population.
    pub open spec fn wf(&self) -> bool {
        self.K <= self.N && self.n <= self.N
    }

    #[allow(non_snake_case)]
    pub fn new(N: u32, K: u32, n: u32) -> (r: HyperGeometric)
        requires
            K <= N,
            n <= N,
        ensures
            r.wf(),
            r.N == N,
            r.K == K,
            r.n == n,
    {
        HyperGeometric { N, K, n }
    }
}

/// The parameters of a negative binomial law: `r` successes awaited, each trial
/// succeeding with probability `p`. A record only.
pub struct NegativeBinomial<S> {
    pub r: u32,
    pub p: S,
}

/// The parameters of a negative hypergeometric law. A record only.
pub struct NegativeHyperGeometric {
    pub n: u32,
    pub k: u32,
    pub r: u32,
}

/// The rate of a Poisson law. A record only.
pub struct Poisson<S> {
    pub lambda: S,
}

/// The bounds of a continuous uniform law. A record only.
pub struct ContinuousUniform<S> {
    pub a: S,
    pub b: S,
}

/// The mean and the standard deviation of a normal law. A record only.
pub struct Normal<S> {
    pub mu: S,
    pub sigma: S,
}

/// The rate of an exponential law. A record only.
pub struct Exponential<S> {
    pub lambda: S,
}

/// The two shape parameters of a beta law. A record only.
pub struct Beta<S> {
    pub alpha: S,
    pub beta: S,
}

/// The degrees of freedom of a chi-squared law. A record only.
pub struct ChiSquared<S> {
    pub k: S,
}

/// The two degrees of freedom of an F law. A record only.
pub struct F<S> {
    pub d1: S,
    pub d2: S,
}

/// The shape `alpha` and the rate `beta` of a gamma law. A record only.
pub struct Gamma<S> {
    pub alpha: S,
    pub beta: S,
}

/// The location and the scale of a Laplace law. A record only.
pub struct Laplace<S> {
    pub mu: S,
    pub b: S,
}

/// The degrees of freedom of Student's t law. A record only.
pub struct T<S> {
    pub nu: S,
}

} // verus!
