//! Binomial coefficients as numbers, and the facts about them that the
//! multiplicative recurrence rests on.
use vstd::prelude::*;

verus! {

/// The number of ways to pick `k` out of `n`, by Pascal's rule.
pub open spec fn binomial(n: nat, k: nat) -> nat
    decreases n,
{
    if k == 0 {
        1
    } else if n == 0 {
        0
    } else {
        binomial((n - 1) as nat, (k - 1) as nat) + binomial((n - 1) as nat, k)
    }
}

/// Absorption: `k * C(n, k) == n * C(n - 1, k - 1)`.
pub proof fn lemma_binomial_absorb(n: nat, k: nat)
    requires
        1 <= n,
        1 <= k,
    ensures
        k * binomial(n, k) == n * binomial((n - 1) as nat, (k - 1) as nat),
    decreases n,
{
    let up = binomial((n - 1) as nat, (k - 1) as nat);
    let side = binomial((n - 1) as nat, k);
    assert(binomial(n, k) == up + side);
    if n == 1 {
        assert(side == 0);
        assert(up == if k == 1 { 1nat } else { 0nat });
        assert(k * (up + side) == n * up) by (nonlinear_arith)
            requires
                n == 1,
                side == 0,
                up == if k == 1 { 1nat } else { 0nat },
        ;
    } else {
        let m = (n - 1) as nat;
        let corner = binomial((m - 1) as nat, (k - 1) as nat);
        lemma_binomial_absorb(m, k);
        assert(k * side == m * corner);
        if k == 1 {
            assert(up == 1);
            assert(corner == 1);
            assert(k * (up + side) == n * up) by (nonlinear_arith)
                requires
                    k == 1,
                    up == 1,
                    k * side == m * corner,
                    corner == 1,
                    n == m + 1,
            ;
        } else {
            let far = binomial((m - 1) as nat, (k - 2) as nat);
            lemma_binomial_absorb(m, (k - 1) as nat);
            assert((k - 1) * up == m * far);
            assert(up == far + corner);
            assert(k * (up + side) == n * up) by (nonlinear_arith)
                requires
                    (k - 1) * up == m * far,
                    k * side == m * corner,
                    up == far + corner,
                    n == m + 1,
            ;
        }
    }
}

/// Along a diagonal the coefficients do not fall: `C(n, k) <= C(n + 1, k + 1)`.
pub proof fn lemma_binomial_diagonal(n: nat, k: nat)
    ensures
        binomial(n, k) <= binomial(n + 1, k + 1),
{
    assert(binomial(n + 1, k + 1) == binomial(n, k) + binomial(n, k + 1));
}

/// The weighted coefficients `i * C(n - k + i, i)` grow with `i` up to `k * C(n, k)`.
pub proof fn lemma_weighted_diagonal(n: nat, k: nat, i: nat)
    requires
        i <= k <= n,
    ensures
        i * binomial((n - k + i) as nat, i) <= k * binomial(n, k),
    decreases k - i,
{
    if i < k {
        let here = binomial((n - k + i) as nat, i);
        let next = binomial((n - k + i + 1) as nat, i + 1);
        lemma_binomial_diagonal((n - k + i) as nat, i);
        lemma_weighted_diagonal(n, k, i + 1);
        assert(i * here <= (i + 1) * next) by (nonlinear_arith)
            requires
                here <= next,
        ;
    }
}

/// Step `i` of the multiplicative recurrence for `C(n, k)`: the running value
/// `C(n - k + i - 1, i - 1)` times `n - k + i` is `i * C(n - k + i, i)`, which
/// `i` divides without remainder and which is no more than `k * C(n, k)`.
pub proof fn lemma_recurrence_step(n: nat, k: nat, i: nat)
    requires
        1 <= i <= k <= n,
    ensures
        binomial((n - k + i - 1) as nat, (i - 1) as nat) * (n - k + i) == i * binomial(
            (n - k + i) as nat,
            i,
        ),
        (i * binomial((n - k + i) as nat, i)) / i == binomial((n - k + i) as nat, i),
        i * binomial((n - k + i) as nat, i) <= k * binomial(n, k),
{
    let before = binomial((n - k + i - 1) as nat, (i - 1) as nat);
    let after = binomial((n - k + i) as nat, i);
    lemma_binomial_absorb((n - k + i) as nat, i);
    lemma_weighted_diagonal(n, k, i);
    assert(before * (n - k + i) == i * after) by (nonlinear_arith)
        requires
            i * after == (n - k + i) * before,
    ;
    assert((i * after) / i == after) by (nonlinear_arith)
        requires
            i > 0,
    ;
}

} // verus!
