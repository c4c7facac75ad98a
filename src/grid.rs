use vstd::prelude::*;
use vstd::arithmetic::div_mod::lemma_fundamental_div_mod_converse;

verus! {

/// One point of the hyperparameter grid of a squared-exponential kernel.
///
/// Both values are fixed-point numbers in millionths: `1_000_000` stands for
/// one.
#[derive(Clone, Copy, Debug, PartialEq, Eq, Structural)]
pub struct HyperparamConfig {
    /// The kernel's length scale, in millionths.
    pub lscale_micros: i64,
    /// The kernel's signal amplitude, in millionths.
    pub sigma_micros: i64,
}

/// Why a grid of hyperparameters cannot be searched.
#[derive(Clone, Copy, Debug, PartialEq, Eq, Structural)]
pub enum ConfigError {
    /// A candidate length scale is zero or negative.
    NonPositiveLengthScale,
    /// A candidate signal amplitude is zero or negative.
    NonPositiveSignalVariance,
    /// The grid has more cells than a `usize` can count.
    GridTooLarge,
}

/// Every value of the axis is strictly positive.
pub open spec fn all_positive(axis: Seq<i64>) -> bool {
    forall|i: int| 0 <= i < axis.len() ==> #[trigger] axis[i] > 0
}

/// Where the pair of the `i`-th outer and `j`-th inner value stands in the
/// enumeration, when the inner axis has `n_inner` values.
pub open spec fn grid_index(i: int, j: int, n_inner: int) -> int {
    i * n_inner + j
}

/// The Cartesian product of the two axes, the first axis varying slowest.
pub open spec fn grid_spec(lscales: Seq<i64>, sigmas: Seq<i64>) -> Seq<HyperparamConfig> {
    Seq::new(
        (lscales.len() * sigmas.len()) as nat,
        |k: int|
            HyperparamConfig {
                lscale_micros: lscales[k / sigmas.len() as int],
                sigma_micros: sigmas[k % sigmas.len() as int],
            },
    )
}

/// Cell `k` of the grid pairs outer value `k / n` with inner value `k % n`,
/// where `n` is the number of inner values.
pub open spec fn cell_holds_pair_of_index(lscales: Seq<i64>, sigmas: Seq<i64>, k: int) -> bool {
    let n = sigmas.len() as int;
    let i = k / n;
    let j = k % n;
    &&& 0 <= i < lscales.len()
    &&& 0 <= j < n
    &&& grid_index(i, j, n) == k
    &&& grid_spec(lscales, sigmas)[k] == (HyperparamConfig {
        lscale_micros: lscales[i],
        sigma_micros: sigmas[j],
    })
}

/// The grid has exactly one cell for each pair of an outer and an inner
/// value, and its cells come in the order of the axes: outer value first,
/// then inner value.
pub proof fn lemma_grid_enumeration(lscales: Seq<i64>, sigmas: Seq<i64>)
    ensures
        grid_spec(lscales, sigmas).len() == lscales.len() * sigmas.len(),
        forall|i: int, j: int|
            0 <= i < lscales.len() && 0 <= j < sigmas.len() ==> {
                let k = #[trigger] grid_index(i, j, sigmas.len() as int);
                &&& 0 <= k < grid_spec(lscales, sigmas).len()
                &&& grid_spec(lscales, sigmas)[k] == (HyperparamConfig {
                    lscale_micros: lscales[i],
                    sigma_micros: sigmas[j],
                })
            },
        forall|k: int|
            0 <= k < grid_spec(lscales, sigmas).len() ==> #[trigger] cell_holds_pair_of_index(
                lscales,
                sigmas,
                k,
            ),
        forall|i1: int, j1: int, i2: int, j2: int|
            0 <= i1 < lscales.len() && 0 <= j1 < sigmas.len() && 0 <= i2 < lscales.len() && 0
                <= j2 < sigmas.len() ==> (#[trigger] grid_index(i1, j1, sigmas.len() as int)
                < #[trigger] grid_index(i2, j2, sigmas.len() as int) <==> (i1 < i2 || (i1 == i2
                && j1 < j2))),
{
    let m = lscales.len() as int;
    let n = sigmas.len() as int;
    assert forall|i: int, j: int| 0 <= i < m && 0 <= j < n implies {
        let k = #[trigger] grid_index(i, j, n);
        &&& 0 <= k < grid_spec(lscales, sigmas).len()
        &&& grid_spec(lscales, sigmas)[k] == (HyperparamConfig {
            lscale_micros: lscales[i],
            sigma_micros: sigmas[j],
        })
    } by {
        lemma_index_in_grid(i, j, m, n);
        lemma_fundamental_div_mod_converse(i * n + j, n, i, j);
    }
    assert forall|k: int| 0 <= k < grid_spec(lscales, sigmas).len() implies #[trigger]
        cell_holds_pair_of_index(lscales, sigmas, k) by {
        lemma_cell_of_index(k, m, n);
    }
    assert forall|i1: int, j1: int, i2: int, j2: int|
        0 <= i1 < m && 0 <= j1 < n && 0 <= i2 < m && 0 <= j2 < n implies (#[trigger] grid_index(
        i1,
        j1,
        n,
    ) < #[trigger] grid_index(i2, j2, n) <==> (i1 < i2 || (i1 == i2 && j1 < j2))) by {
        lemma_index_order(i1, j1, i2, j2, n);
    }
}

proof fn lemma_index_in_grid(i: int, j: int, m: int, n: int)
    requires
        0 <= i < m,
        0 <= j < n,
    ensures
        0 <= i * n + j < m * n,
{
    assert(0 <= i * n + j < m * n) by (nonlinear_arith)
        requires
            0 <= i < m,
            0 <= j < n,
    ;
}

proof fn lemma_cell_of_index(k: int, m: int, n: int)
    requires
        0 <= k < m * n,
        m >= 0,
        n >= 0,
    ensures
        n > 0,
        0 <= k / n < m,
        0 <= k % n < n,
        grid_index(k / n, k % n, n) == k,
{
    assert(n > 0) by (nonlinear_arith)
        requires
            0 <= k < m * n,
            m >= 0,
            n >= 0,
    ;
    vstd::arithmetic::div_mod::lemma_fundamental_div_mod(k, n);
    assert(0 <= k % n < n);
    assert(0 <= k / n < m) by (nonlinear_arith)
        requires
            0 <= k < m * n,
            n > 0,
            k == n * (k / n) + k % n,
            0 <= k % n < n,
    ;
    assert(grid_index(k / n, k % n, n) == k) by (nonlinear_arith)
        requires
            k == n * (k / n) + k % n,
    ;
}

proof fn lemma_index_order(i1: int, j1: int, i2: int, j2: int, n: int)
    requires
        0 <= i1,
        0 <= i2,
        0 <= j1 < n,
        0 <= j2 < n,
    ensures
        i1 * n + j1 < i2 * n + j2 <==> (i1 < i2 || (i1 == i2 && j1 < j2)),
{
    if i1 < i2 {
        assert(i1 * n + n <= i2 * n) by (nonlinear_arith)
            requires
                i1 < i2,
                n > 0,
        ;
    } else if i1 > i2 {
        assert(i2 * n + n <= i1 * n) by (nonlinear_arith)
            requires
                i2 < i1,
                n > 0,
        ;
    }
}

/// Checks both axes and lists every combination of their values, the length
/// scale varying slowest.
pub fn grid_configs(lscales: &Vec<i64>, sigmas: &Vec<i64>) -> (r: Result<
    Vec<HyperparamConfig>,
    ConfigError,
>)
    ensures
        !all_positive(lscales@) <==> r == Err::<Vec<HyperparamConfig>, ConfigError>(
            ConfigError::NonPositiveLengthScale,
        ),
        (all_positive(lscales@) && !all_positive(sigmas@)) <==> r == Err::<
            Vec<HyperparamConfig>,
            ConfigError,
        >(ConfigError::NonPositiveSignalVariance),
        (all_positive(lscales@) && all_positive(sigmas@) && lscales@.len() * sigmas@.len()
            > usize::MAX) <==> r == Err::<Vec<HyperparamConfig>, ConfigError>(
            ConfigError::GridTooLarge,
        ),
        r is Ok ==> r->Ok_0@ == grid_spec(lscales@, sigmas@),
{
    let mut i: usize = 0;
    while i < lscales.len()
        invariant
            0 <= i <= lscales@.len(),
            all_positive(lscales@.take(i as int)),
        decreases lscales@.len() - i,
    {
        if lscales[i] <= 0 {
            return Err(ConfigError::NonPositiveLengthScale);
        }
        i = i + 1;
        assert(lscales@.take(i as int).drop_last() =~= lscales@.take(i - 1));
    }
    assert(lscales@.take(i as int) =~= lscales@);
    let mut j: usize = 0;
    while j < sigmas.len()
        invariant
            0 <= j <= sigmas@.len(),
            all_positive(lscales@),
            all_positive(sigmas@.take(j as int)),
        decreases sigmas@.len() - j,
    {
        if sigmas[j] <= 0 {
            return Err(ConfigError::NonPositiveSignalVariance);
        }
        j = j + 1;
        assert(sigmas@.take(j as int).drop_last() =~= sigmas@.take(j - 1));
    }
    assert(sigmas@.take(j as int) =~= sigmas@);
    let m = lscales.len();
    let n = sigmas.len();
    if n > 0 && m > usize::MAX / n {
        assert(m * n > usize::MAX) by (nonlinear_arith)
            requires
                n > 0,
                m > usize::MAX / n,
        ;
        return Err(ConfigError::GridTooLarge);
    }
    assert(m * n <= usize::MAX) by (nonlinear_arith)
        requires
            n == 0 || m <= usize::MAX / n,
    ;
    let ghost spec_grid = grid_spec(lscales@, sigmas@);
    let mut out: Vec<HyperparamConfig> = Vec::new();
    let mut a: usize = 0;
    while a < m
        invariant
            m == lscales@.len(),
            n == sigmas@.len(),
            m * n <= usize::MAX,
            spec_grid == grid_spec(lscales@, sigmas@),
            0 <= a <= m,
            out@.len() == a * n,
            forall|k: int| 0 <= k < out@.len() ==> #[trigger] out@[k] == spec_grid[k],
        decreases m - a,
    {
        let mut b: usize = 0;
        while b < n
            invariant
                m == lscales@.len(),
                n == sigmas@.len(),
                m * n <= usize::MAX,
                spec_grid == grid_spec(lscales@, sigmas@),
                0 <= a < m,
                0 <= b <= n,
                out@.len() == a * n + b,
                forall|k: int| 0 <= k < out@.len() ==> #[trigger] out@[k] == spec_grid[k],
            decreases n - b,
        {
            proof {
                lemma_index_in_grid(a as int, b as int, m as int, n as int);
                lemma_fundamental_div_mod_converse(a * n + b, n as int, a as int, b as int);
            }
            out.push(HyperparamConfig { lscale_micros: lscales[a], sigma_micros: sigmas[b] });
            b = b + 1;
        }
        assert(a * n + n == (a + 1) * n) by (nonlinear_arith);
        a = a + 1;
    }
    assert(out@ =~= spec_grid);
    Ok(out)
}

} // verus!
