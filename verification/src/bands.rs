//! Log-spaced band layout of the built-in band-energy embedder.
//!
//! Band `b` (1-based) ends at the bin nearest to `m^(b/24)`, where `m` is the
//! top bin index (at least 2), clamped so that every band is at least one bin
//! wide and none reaches past the spectrum.

use vstd::prelude::*;
use vstd::arithmetic::power::{pow, lemma_pow_distributes};
use crate::bignum::{limbs_value, less_than, mul_small, pow_big};
use crate::amgm::{lemma_mean_bound, lemma_pow_nonneg};

verus! {

/// Number of log-spaced bands in the built-in descriptor.
pub const BANDS: usize = 24;

/// The number whose 24th root scale the band edges follow: the top bin
/// index `n_bins - 1`, but never below 2.
pub open spec fn root_base(n_bins: nat) -> nat {
    if n_bins >= 3 {
        (n_bins - 1) as nat
    } else {
        2
    }
}

/// `r` is the integer nearest to `m^(b/24)` (halves round up):
/// `r - 1/2 <= m^(b/24) < r + 1/2`, raised to the 24th power.
pub open spec fn is_nearest_root(r: nat, m: nat, b: nat) -> bool {
    &&& r >= 1
    &&& pow(2 * r - 1, 24) <= pow(2, 24) * pow(m as int, b)
    &&& pow(2, 24) * pow(m as int, b) < pow((2 * r + 1) as int, 24)
}

/// The integer nearest to `m^(b/24)`.
pub open spec fn nearest_root(m: nat, b: nat) -> nat {
    choose|r: nat| is_nearest_root(r, m, b)
}

/// `x` limited to `lo..=hi` (for `lo <= hi`).
pub open spec fn clamp(x: nat, lo: nat, hi: nat) -> nat {
    if x < lo {
        lo
    } else if x > hi {
        hi
    } else {
        x
    }
}

/// The exclusive end bin of band `b` (band 0 stands for the DC bin, so the
/// first band starts at bin 1).
pub open spec fn band_end(n_bins: nat, b: nat) -> nat
    decreases b,
{
    if b == 0 {
        1
    } else {
        clamp(
            nearest_root(root_base(n_bins), b),
            band_end(n_bins, (b - 1) as nat) + 1,
            n_bins,
        )
    }
}

/// Every band can be given at least one bin: the clamp range of each band is
/// not empty.
pub open spec fn layout_defined(n_bins: nat) -> bool {
    forall|b: nat| 1 <= b <= 24 ==> #[trigger] band_end(n_bins, (b - 1) as nat) + 1 <= n_bins
}

/// The `[start, end)` bin range of each of the 24 bands.
pub open spec fn band_layout(n_bins: nat) -> Seq<(usize, usize)> {
    Seq::new(
        24,
        |i: int| (band_end(n_bins, i as nat) as usize, band_end(n_bins, (i + 1) as nat) as usize),
    )
}

proof fn lemma_pow_base_le(a: nat, c: nat, e: nat)
    requires
        a <= c,
    ensures
        0 <= pow(a as int, e) <= pow(c as int, e),
    decreases e,
{
    reveal(pow);
    if e > 0 {
        lemma_pow_base_le(a, c, (e - 1) as nat);
        let pa = pow(a as int, (e - 1) as nat);
        let pc = pow(c as int, (e - 1) as nat);
        assert(0 <= a * pa <= c * pc) by (nonlinear_arith)
            requires
                0 <= pa <= pc,
                a <= c,
        ;
    }
}

proof fn lemma_pow_base_lt(a: nat, c: nat, e: nat)
    requires
        a < c,
        e >= 1,
    ensures
        pow(a as int, e) < pow(c as int, e),
    decreases e,
{
    reveal(pow);
    if e == 1 {
        vstd::arithmetic::power::lemma_pow1(a as int);
        vstd::arithmetic::power::lemma_pow1(c as int);
    } else {
        lemma_pow_base_lt(a, c, (e - 1) as nat);
        lemma_pow_base_le(a, c, (e - 1) as nat);
        let pa = pow(a as int, (e - 1) as nat);
        let pc = pow(c as int, (e - 1) as nat);
        assert(a * pa < c * pc) by (nonlinear_arith)
            requires
                0 <= pa < pc,
                a < c,
        ;
    }
}

/// There is only one nearest root.
pub proof fn lemma_nearest_root_unique(r1: nat, r2: nat, m: nat, b: nat)
    requires
        is_nearest_root(r1, m, b),
        is_nearest_root(r2, m, b),
    ensures
        r1 == r2,
{
    if r1 < r2 {
        lemma_pow_base_le((2 * r1 + 1) as nat, (2 * r2 - 1) as nat, 24);
    } else if r2 < r1 {
        lemma_pow_base_le((2 * r2 + 1) as nat, (2 * r1 - 1) as nat, 24);
    }
}

proof fn lemma_nearest_root_is(r: nat, m: nat, b: nat)
    requires
        is_nearest_root(r, m, b),
    ensures
        nearest_root(m, b) == r,
{
    let c = nearest_root(m, b);
    assert(is_nearest_root(c, m, b));
    lemma_nearest_root_unique(r, c, m, b);
}

/// `2^24 * m^b < (2m + 1)^24` for `1 <= b <= 24`.
proof fn lemma_root_below_top(m: nat, b: nat)
    requires
        m >= 1,
        1 <= b <= 24,
    ensures
        pow(2, 24) * pow(m as int, b) < pow((2 * m + 1) as int, 24),
{
    vstd::arithmetic::power::lemma_pow_increases(m, b, 24);
    vstd::arithmetic::power::lemma_pow_distributes(2, m as int, 24);
    vstd::arithmetic::power::lemma_pow_positive(2, 24);
    lemma_pow_base_lt(2 * m, 2 * m + 1, 24);
    let p2 = pow(2, 24);
    let pb = pow(m as int, b);
    let p24 = pow(m as int, 24);
    assert(p2 * pb <= p2 * p24) by (nonlinear_arith)
        requires
            p2 > 0,
            pb <= p24,
    ;
}

/// Some integer is nearest to `m^(b/24)`: the last `r` whose lower bound
/// still holds.
proof fn lemma_root_search(m: nat, b: nat, r: nat)
    requires
        r >= 1,
        pow(2 * r - 1, 24) <= pow(2, 24) * pow(m as int, b),
    ensures
        exists|r2: nat| #[trigger] is_nearest_root(r2, m, b),
    decreases pow(2, 24) * pow(m as int, b) - r,
{
    let x = pow(2, 24) * pow(m as int, b);
    if x < pow((2 * r + 1) as int, 24) {
        assert(is_nearest_root(r, m, b));
    } else {
        vstd::arithmetic::power::lemma_pow_increases((2 * r + 1) as nat, 1, 24);
        vstd::arithmetic::power::lemma_pow1((2 * r + 1) as int);
        assert(2 * (r + 1) - 1 == 2 * r + 1);
        lemma_root_search(m, b, r + 1);
    }
}

proof fn lemma_nearest_root_exists(m: nat, b: nat)
    requires
        m >= 1,
    ensures
        is_nearest_root(nearest_root(m, b), m, b),
{
    let x = pow(2, 24) * pow(m as int, b);
    vstd::arithmetic::power::lemma_pow_positive(2, 24);
    vstd::arithmetic::power::lemma_pow_positive(m as int, b);
    vstd::arithmetic::power::lemma1_pow(24);
    assert(x >= 1) by (nonlinear_arith)
        requires
            x == pow(2, 24) * pow(m as int, b),
            pow(2, 24) >= 1,
            pow(m as int, b) >= 1,
    ;
    assert(2 * 1 - 1 == 1);
    lemma_root_search(m, b, 1);
}

/// For `m >= 24` the `b`-th root (`1 <= b <= 23`) leaves room for the
/// remaining bands: `m^(b/24) < m - 22.5 + b`, by the mean inequality
/// `m^(b/24) <= (b m + 24 - b) / 24`.
proof fn lemma_root_leaves_room(m: nat, b: nat)
    requires
        m >= 24,
        1 <= b <= 23,
    ensures
        nearest_root(m, b) + 23 <= m + b,
{
    let k: int = 2 * m - 45 + 2 * b;
    let a: int = b * m + 24 - b;
    lemma_mean_bound(m as int, b, 24);
    assert(a < 12 * k && a >= 0) by (nonlinear_arith)
        requires
            m >= 24,
            1 <= b <= 23,
            k == 2 * m - 45 + 2 * b,
            a == b * m + 24 - b,
    ;
    lemma_pow_base_lt(a as nat, (12 * k) as nat, 24);
    lemma_pow_distributes(12, k, 24);
    lemma_pow_distributes(12, 2, 24);
    assert(12 * 2 == 24);
    vstd::arithmetic::power::lemma_pow_positive(12, 24);
    let p12 = pow(12, 24);
    let x = pow(2, 24) * pow(m as int, b);
    assert(x < pow(k, 24)) by (nonlinear_arith)
        requires
            pow(24, 24) * pow(m as int, b) <= pow(a, 24),
            pow(a, 24) < pow(12 * k, 24),
            pow(12 * k, 24) == p12 * pow(k, 24),
            pow(24, 24) == p12 * pow(2, 24),
            x == pow(2, 24) * pow(m as int, b),
            p12 > 0,
    ;
    lemma_nearest_root_exists(m, b);
    let r = nearest_root(m, b);
    if r + 23 > m + b {
        lemma_pow_base_le(k as nat, (2 * r - 1) as nat, 24);
    }
}

/// If the layout is defined, band `b` ends at least `b + 1` bins up.
proof fn lemma_band_end_grows(n_bins: nat, b: nat)
    requires
        layout_defined(n_bins),
        b <= 23,
    ensures
        band_end(n_bins, b) >= b + 1,
    decreases b,
{
    if b > 0 {
        lemma_band_end_grows(n_bins, (b - 1) as nat);
        assert(band_end(n_bins, ((b + 1) - 1) as nat) + 1 <= n_bins);
    }
}

/// With at least 25 bins, band `b` ends at most `n_bins - 24 + b`.
proof fn lemma_band_end_room(n_bins: nat, b: nat)
    requires
        n_bins >= 25,
        b <= 23,
    ensures
        band_end(n_bins, b) + 24 <= n_bins + b,
    decreases b,
{
    if b > 0 {
        lemma_band_end_room(n_bins, (b - 1) as nat);
        lemma_root_leaves_room((n_bins - 1) as nat, b);
    }
}

/// The layout is defined exactly when there are at least 25 bins: 24 bands
/// of at least one bin each above the DC bin.
pub proof fn lemma_layout_defined_iff(n_bins: nat)
    ensures
        layout_defined(n_bins) <==> n_bins >= 25,
{
    if layout_defined(n_bins) {
        lemma_band_end_grows(n_bins, 23);
        assert(band_end(n_bins, (24 - 1) as nat) + 1 <= n_bins);
    }
    if n_bins >= 25 {
        assert forall|b: nat| 1 <= b <= 24 implies #[trigger] band_end(n_bins, (b - 1) as nat) + 1
            <= n_bins by {
            lemma_band_end_room(n_bins, (b - 1) as nat);
        }
    }
}

/// The integer nearest to `m^(b/24)`, found by bisection on exact powers.
fn nearest_root_exec(m: usize, b: u32) -> (r: usize)
    requires
        m >= 2,
        1 <= b <= 24,
    ensures
        is_nearest_root(r as nat, m as nat, b as nat),
{
    let scaled = mul_small(&pow_big(m as u128, b), 16777216);
    let ghost x = pow(2, 24) * pow(m as int, b as nat);
    proof {
        assert(pow(2, 24) == 16777216) by {
            reveal_with_fuel(pow, 25);
        }
        assert(limbs_value(scaled@) == x) by (nonlinear_arith)
            requires
                limbs_value(scaled@) == pow(m as int, b as nat) * 16777216,
                pow(2, 24) == 16777216,
                x == pow(2, 24) * pow(m as int, b as nat),
        ;
        vstd::arithmetic::power::lemma_pow_positive(m as int, b as nat);
        vstd::arithmetic::power::lemma1_pow(24);
        lemma_root_below_top(m as nat, b as nat);
    }
    let mut lo: usize = 0;
    let mut hi: usize = m;
    while hi - lo > 1
        invariant
            lo < hi <= m,
            limbs_value(scaled@) == x,
            x == pow(2, 24) * pow(m as int, b as nat),
            pow(2 * lo + 1, 24) <= x,
            x < pow(2 * hi + 1, 24),
        decreases hi - lo,
    {
        let mid = lo + (hi - lo) / 2;
        let y = pow_big((mid as u128) * 2 + 1, 24);
        if less_than(&scaled, &y) {
            hi = mid;
        } else {
            lo = mid;
        }
    }
    hi
}

/// Built-in band-energy embedder: the precomputed `[start, end)` bin range
/// of each band.
pub struct BandEmbedder {
    bands: Vec<(usize, usize)>,
}

impl View for BandEmbedder {
    type V = Seq<(usize, usize)>;

    closed spec fn view(&self) -> Seq<(usize, usize)> {
        self.bands@
    }
}

impl BandEmbedder {
    /// Builds the log-spaced band layout over `n_bins` (= FFT_SIZE/2+1), or
    /// `None` when some band could not be given a bin of its own, which is
    /// when there are fewer than 25 bins.
    pub fn try_new(n_bins: usize) -> (e: Option<BandEmbedder>)
        ensures
            e is Some <==> n_bins >= 25,
            e is Some <==> layout_defined(n_bins as nat),
            e matches Some(e) ==> e@ == band_layout(n_bins as nat),
    {
        proof {
            lemma_layout_defined_iff(n_bins as nat);
        }
        let m: usize = if n_bins >= 3 { n_bins - 1 } else { 2 };
        let mut bands: Vec<(usize, usize)> = Vec::new();
        let mut prev: usize = 1;
        let mut b: u32 = 1;
        while b <= 24
            invariant
                1 <= b <= 25,
                layout_defined(n_bins as nat) <==> n_bins >= 25,
                m as nat == root_base(n_bins as nat),
                prev as nat == band_end(n_bins as nat, (b - 1) as nat),
                bands@ == band_layout(n_bins as nat).take((b - 1) as int),
                forall|c: nat| 1 <= c < b ==> #[trigger] band_end(n_bins as nat, (c - 1) as nat) + 1
                    <= n_bins,
            decreases 25 - b,
        {
            if prev >= n_bins {
                proof {
                    assert(band_end(n_bins as nat, ((b as nat) - 1) as nat) + 1 > n_bins);
                }
                return None;
            }
            let r = nearest_root_exec(m, b);
            proof {
                lemma_nearest_root_is(r as nat, m as nat, b as nat);
            }
            let end = if r < prev + 1 {
                prev + 1
            } else if r > n_bins {
                n_bins
            } else {
                r
            };
            proof {
                assert(end as nat == band_end(n_bins as nat, b as nat));
            }
            bands.push((prev, end));
            proof {
                assert(bands@ =~= band_layout(n_bins as nat).take(b as int));
            }
            prev = end;
            b = b + 1;
        }
        proof {
            assert(band_layout(n_bins as nat).take(24) =~= band_layout(n_bins as nat));
        }
        Some(BandEmbedder { bands })
    }

    /// Builds the log-spaced band layout over `n_bins` (= FFT_SIZE/2+1).
    pub fn new(n_bins: usize) -> (e: BandEmbedder)
        requires
            n_bins >= 25,
        ensures
            e@ == band_layout(n_bins as nat),
    {
        BandEmbedder::try_new(n_bins).unwrap()
    }

    /// Embedding dimensionality: one value per band.
    pub fn dim(&self) -> (d: usize)
        ensures
            d == BANDS,
    {
        BANDS
    }

    /// The `[start, end)` bin ranges of the bands, lowest first.
    pub fn bands(&self) -> (b: &Vec<(usize, usize)>)
        ensures
            b@ == self@,
    {
        &self.bands
    }
}

/// The layout tiles the spectrum above DC: the first band starts at bin 1,
/// each band starts where the previous one ended, every band holds at least
/// one bin, and none reaches past `n_bins`.
pub proof fn lemma_band_layout_tiles(n_bins: nat)
    requires
        layout_defined(n_bins),
        n_bins <= usize::MAX,
    ensures
        band_layout(n_bins).len() == 24,
        band_layout(n_bins)[0].0 == 1,
        forall|i: int| 0 <= i < 23 ==> #[trigger] band_layout(n_bins)[i + 1].0 == band_layout(n_bins)[i].1,
        forall|i: int|
            0 <= i < 24 ==> #[trigger] band_layout(n_bins)[i].0 < band_layout(n_bins)[i].1 <= n_bins,
{
    assert forall|i: int| 0 <= i < 24 implies #[trigger] band_layout(n_bins)[i].0 < band_layout(n_bins)[i].1 <= n_bins by {
        let b = (i + 1) as nat;
        assert(band_end(n_bins, (b - 1) as nat) + 1 <= n_bins);
        assert(band_end(n_bins, b) == clamp(
            nearest_root(root_base(n_bins), b),
            band_end(n_bins, (b - 1) as nat) + 1,
            n_bins,
        ));
        lemma_band_end_bound(n_bins, i as nat);
        assert(band_end(n_bins, i as nat) < band_end(n_bins, b));
        assert(band_end(n_bins, b) <= n_bins);
        assert(band_layout(n_bins)[i].0 == band_end(n_bins, i as nat));
        assert(band_layout(n_bins)[i].1 == band_end(n_bins, b));
    }
}

proof fn lemma_band_end_bound(n_bins: nat, b: nat)
    requires
        layout_defined(n_bins),
        b < 24,
    ensures
        band_end(n_bins, b) < n_bins,
{
    assert(band_end(n_bins, ((b + 1) - 1) as nat) + 1 <= n_bins);
}

} // verus!
