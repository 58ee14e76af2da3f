//! Sizing of shuffles: the Bayer-Groth shuffle argument arranges a deck
//! of `N = m * n` cards as an `m` by `n` matrix, padding the deck up to
//! the next number that factors.
use vstd::prelude::*;

use crate::group::{random_point, Point};

verus! {

/// `d` is a divisor of `p` with `2 <= d` and `d * d <= p`.
pub open spec fn is_small_divisor(d: int, p: int) -> bool {
    2 <= d && d * d <= p && p % d == 0
}

/// `p` has a divisor `d` with `2 <= d <= sqrt(p)`, that is, `p` is
/// composite (neither prime, nor 0, nor 1).
pub open spec fn splits(p: int) -> bool {
    exists|d: int| #[trigger] is_small_divisor(d, p)
}

/// `j` is the largest divisor of `p` that is at most `sqrt(p)`, and it
/// is at least 2.
pub open spec fn is_largest_small_divisor(j: int, p: int) -> bool {
    &&& is_small_divisor(j, p)
    &&& forall|d: int| j < d ==> !#[trigger] is_small_divisor(d, p)
}

/// The result of `mid_factor(k)`: `p = k + padding` is the least
/// composite number at or above `k`, `m` the largest divisor of `p` at
/// most its square root, and `n = p / m`.
pub open spec fn is_mid_factor(k: int, m: int, n: int, padding: int) -> bool {
    let p = k + padding;
    &&& 0 <= padding
    &&& splits(p)
    &&& forall|q: int| k <= q < p ==> !splits(q)
    &&& is_largest_small_divisor(m, p)
    &&& n == p / m
    &&& m * n == p
}

proof fn lemma_div_bound(i: int, p: int)
    requires
        1 <= i,
        0 <= p,
    ensures
        i <= p / i <==> i * i <= p,
        p / i < i <==> p < i * i,
{
    assert(i * (p / i) <= p && p < i * (p / i) + i) by (nonlinear_arith)
        requires
            1 <= i,
            0 <= p,
    ;
    if i <= p / i {
        assert(i * i <= i * (p / i)) by (nonlinear_arith)
            requires
                1 <= i,
                i <= p / i,
        ;
    }
    if i * i <= p {
        assert(i <= p / i) by (nonlinear_arith)
            requires
                1 <= i,
                i * i <= p,
                p < i * (p / i) + i,
        ;
    }
}

proof fn lemma_square_monotone(a: int, b: int)
    requires
        0 <= a <= b,
    ensures
        a * a <= b * b,
{
    assert(a * a <= b * b) by (nonlinear_arith)
        requires
            0 <= a <= b,
    ;
}

/// An even number of at least 4 is composite.
proof fn lemma_even_splits(p: int)
    requires
        4 <= p,
        p % 2 == 0,
    ensures
        splits(p),
{
    assert(is_small_divisor(2, p));
}

/// Searches the divisors `2 <= d <= sqrt(p)` of `p` and returns the
/// largest, or 1 where there is none.
fn largest_small_divisor(p: usize) -> (j: usize)
    ensures
        j == 1 ==> !splits(p as int),
        j != 1 ==> is_largest_small_divisor(j as int, p as int),
{
    let mut j: usize = 1;
    let mut i: usize = 2;
    while i <= p / i
        invariant
            2 <= i,
            i <= p + 2,
            j == 1 || (is_small_divisor(j as int, p as int) && j < i),
            forall|d: int| 2 <= d < i && j < d ==> !#[trigger] is_small_divisor(d, p as int),
            forall|d: int| 2 <= d < i && j == 1 ==> !#[trigger] is_small_divisor(d, p as int),
        decreases p + 2 - i,
    {
        proof {
            lemma_div_bound(i as int, p as int);
        }
        if p % i == 0 {
            j = i;
        }
        proof {
            assert(i <= p / 2) by (nonlinear_arith)
                requires
                    2 <= i,
                    i <= p / i,
            ;
        }
        i = i + 1;
    }
    proof {
        lemma_div_bound(i as int, p as int);
        assert forall|d: int| i <= d implies !#[trigger] is_small_divisor(d, p as int) by {
            lemma_square_monotone(i as int, d);
        }
        if j == 1 {
            assert forall|d: int| !#[trigger] is_small_divisor(d, p as int) by {
                if 2 <= d && d < i {
                } else if i <= d {
                }
            }
        }
    }
    j
}

/// Returns first the largest integer divisor below the square root,
/// as well as the quotient of k by this integer.
///
/// Precisely: for `p` the least composite number at or above `k`, it
/// returns `(m, p / m, p - k)` where `m` is the largest divisor of `p`
/// at most `sqrt(p)`.
pub fn mid_factor(k: usize) -> (r: (usize, usize, usize))
    requires
        k < usize::MAX,
    ensures
        is_mid_factor(k as int, r.0 as int, r.1 as int, r.2 as int),
{
    let ghost target: int = if k <= 4 {
        4
    } else if k % 2 == 0 {
        k as int
    } else {
        k + 1
    };
    let mut p: usize = k;
    let mut j: usize = largest_small_divisor(p);
    while j == 1
        invariant
            k <= p <= target,
            target <= usize::MAX,
            target == 4 || (k <= target <= k + 1),
            target % 2 == 0,
            4 <= target,
            forall|q: int| k <= q < p ==> !splits(q),
            j == 1 ==> !splits(p as int),
            j != 1 ==> is_largest_small_divisor(j as int, p as int),
        decreases target - p,
    {
        proof {
            if p == target {
                lemma_even_splits(target);
            }
        }
        p = p + 1;
        j = largest_small_divisor(p);
    }
    proof {
        assert(splits(p as int));
        assert(p as int % j as int == 0);
        assert(j * (p / j) == p) by (nonlinear_arith)
            requires
                j >= 2,
                p % j == 0,
        ;
    }
    (j, p / j, p - k)
}

/// `mid_factor` has exactly one result for each `k`.
pub proof fn lemma_mid_factor_unique(
    k: int,
    m1: int,
    n1: int,
    pad1: int,
    m2: int,
    n2: int,
    pad2: int,
)
    requires
        is_mid_factor(k, m1, n1, pad1),
        is_mid_factor(k, m2, n2, pad2),
    ensures
        m1 == m2,
        n1 == n2,
        pad1 == pad2,
{
    let p1 = k + pad1;
    let p2 = k + pad2;
    if p1 < p2 {
        assert(!splits(p1));
    }
    if p2 < p1 {
        assert(!splits(p2));
    }
    assert(p1 == p2);
    if m1 < m2 {
        assert(!is_small_divisor(m2, p1));
    }
    if m2 < m1 {
        assert(!is_small_divisor(m1, p2));
    }
}

/// The result of `mid_factor(k)`, as a spec function.
pub open spec fn spec_mid_factor(k: int) -> (int, int, int) {
    choose|m: int, n: int, padding: int| is_mid_factor(k, m, n, padding)
}

/// The public parameters of a game: the ElGamal generator, the Pedersen
/// commitment key of the shuffle argument (one point per column of the
/// largest shuffle), and the generator of the shuffle argument.
#[derive(Clone, Debug)]
pub struct Parameters {
    pub enc_generator: Point,
    pub commit_key: Vec<Point>,
    pub generator: Point,
}

impl Parameters {
    /// Samples fresh parameters for shuffles of up to `size` columns.
    pub fn setup(size: usize) -> (p: Parameters)
        ensures
            p.commit_key@.len() == size,
            p.enc_generator != Point::spec_zero(),
            p.generator != Point::spec_zero(),
            forall|i: int| 0 <= i < size ==> #[trigger] p.commit_key@[i] != Point::spec_zero(),
    {
        let enc_generator = random_point();
        let mut commit_key: Vec<Point> = Vec::new();
        let mut i: usize = 0;
        while i < size
            invariant
                i <= size,
                commit_key@.len() == i,
                forall|t: int| 0 <= t < i ==> #[trigger] commit_key@[t] != Point::spec_zero(),
            decreases size - i,
        {
            commit_key.push(random_point());
            i = i + 1;
        }
        let generator = random_point();
        Parameters { enc_generator, commit_key, generator }
    }

    /// The number of columns a shuffle may have.
    pub fn parameters_size(&self) -> (n: usize)
        ensures
            n == self.commit_key@.len(),
    {
        self.commit_key.len()
    }

    /// Whether a deck of `size` cards can be shuffled with these
    /// parameters: the number of columns `mid_factor` gives fits.
    pub fn check_deck_size(&self, size: usize) -> (b: bool)
        requires
            size < usize::MAX,
        ensures
            b == (spec_mid_factor(size as int).1 <= self.commit_key@.len()),
    {
        let (m, n, padding) = mid_factor(size);
        proof {
            let r = spec_mid_factor(size as int);
            assert(is_mid_factor(size as int, m as int, n as int, padding as int));
            lemma_mid_factor_unique(size as int, m as int, n as int, padding as int, r.0, r.1, r.2);
        }
        n <= self.parameters_size()
    }
}

} // verus!
