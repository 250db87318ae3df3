//! The inequality of arithmetic and geometric means, over integers, by way
//! of Bernoulli's inequality. It bounds the integer roots of the band layout.

use vstd::prelude::*;
use vstd::arithmetic::power::{pow, lemma_pow_distributes};

verus! {

/// The sum of a sequence.
pub open spec fn seq_sum(s: Seq<int>) -> int
    decreases s.len(),
{
    if s.len() == 0 {
        0
    } else {
        seq_sum(s.drop_last()) + s.last()
    }
}

/// The product of a sequence.
pub open spec fn seq_prod(s: Seq<int>) -> int
    decreases s.len(),
{
    if s.len() == 0 {
        1
    } else {
        seq_prod(s.drop_last()) * s.last()
    }
}

/// `c` copies of `m` followed by `n - c` ones.
pub open spec fn mix(m: int, c: nat, n: nat) -> Seq<int> {
    Seq::new(n, |i: int| if i < c { m } else { 1 })
}

pub proof fn lemma_pow_succ(b: int, e: nat)
    ensures
        pow(b, e + 1) == b * pow(b, e),
{
    reveal(pow);
}

pub proof fn lemma_pow_nonneg(b: int, e: nat)
    requires
        b >= 0,
    ensures
        pow(b, e) >= 0,
    decreases e,
{
    reveal(pow);
    if e > 0 {
        lemma_pow_nonneg(b, (e - 1) as nat);
        let p = pow(b, (e - 1) as nat);
        assert(b * p >= 0) by (nonlinear_arith)
            requires
                b >= 0,
                p >= 0,
        ;
    }
}

/// Bernoulli: `(b + d)^n >= b^(n-1) (b + n d)` for `b >= 0`, `b + d >= 0`.
proof fn lemma_bernoulli(b: int, d: int, n: nat)
    requires
        b >= 0,
        b + d >= 0,
        n >= 1,
    ensures
        pow(b + d, n) >= pow(b, (n - 1) as nat) * (b + n * d),
    decreases n,
{
    if n == 1 {
        lemma_pow_succ(b + d, 0);
        reveal(pow);
    } else {
        let k = (n - 1) as nat;
        lemma_bernoulli(b, d, k);
        let p = pow(b, (k - 1) as nat);
        let q = pow(b + d, k);
        lemma_pow_succ(b + d, k);
        lemma_pow_succ(b, (k - 1) as nat);
        lemma_pow_nonneg(b, (k - 1) as nat);
        assert((b + d) * q >= (b + d) * (p * (b + k * d))) by (nonlinear_arith)
            requires
                b + d >= 0,
                q >= p * (b + k * d),
        ;
        assert((b + d) * (p * (b + k * d)) >= (b * p) * (b + n * d)) by (nonlinear_arith)
            requires
                p >= 0,
                n == k + 1,
        ;
    }
}

/// For non-negative terms, `n^n * product <= sum^n` (`n` the length).
pub proof fn lemma_am_gm(s: Seq<int>)
    requires
        forall|i: int| 0 <= i < s.len() ==> s[i] >= 0,
    ensures
        seq_sum(s) >= 0,
        seq_prod(s) >= 0,
        pow(s.len() as int, s.len()) * seq_prod(s) <= pow(seq_sum(s), s.len()),
    decreases s.len(),
{
    reveal(pow);
    if s.len() > 0 {
        let t = s.drop_last();
        let a = s.last();
        let n = t.len();
        assert forall|i: int| 0 <= i < t.len() implies t[i] >= 0 by {
            assert(t[i] == s[i]);
        }
        lemma_am_gm(t);
        let tt = seq_sum(t);
        let pp = seq_prod(t);
        assert(a >= 0) by {
            assert(s[s.len() - 1] >= 0);
        }
        assert(pp * a >= 0) by (nonlinear_arith)
            requires
                pp >= 0,
                a >= 0,
        ;
        if n == 0 {
            lemma_pow_succ(1, 0);
            lemma_pow_succ(tt + a, 0);
        } else {
            let nn = n as int;
            let n1: int = nn + 1;
            assert(n1 * tt + n1 * (nn * a - tt) == n1 * (nn * a)) by (nonlinear_arith);
            assert(n1 * tt + (nn * a - tt) == nn * (tt + a)) by (nonlinear_arith)
                requires
                    n1 == nn + 1,
            ;
            assert(n1 * tt >= 0 && nn * (tt + a) >= 0) by (nonlinear_arith)
                requires
                    n1 > 0,
                    nn > 0,
                    tt >= 0,
                    a >= 0,
            ;
            lemma_bernoulli(n1 * tt, nn * a - tt, n + 1);
            lemma_pow_distributes(nn, tt + a, n + 1);
            lemma_pow_distributes(nn + 1, tt, n);
            lemma_pow_succ(nn, n);
            lemma_pow_succ(nn + 1, n);
            let x = pow(nn, n);
            let y = pow(nn + 1, n);
            let u = pow(tt, n);
            let v = pow(tt + a, n + 1);
            vstd::arithmetic::power::lemma_pow_positive(nn, n);
            vstd::arithmetic::power::lemma_pow_positive(nn + 1, n);
            // n * x * v >= y * u * (n + 1) * n * a
            assert(nn * x * v >= y * u * ((nn + 1) * (nn * a))) by (nonlinear_arith)
                requires
                    pow(nn * (tt + a), n + 1) >= pow((nn + 1) * tt, n) * ((nn + 1) * (nn * a)),
                    pow(nn * (tt + a), n + 1) == pow(nn, n + 1) * v,
                    pow((nn + 1) * tt, n) == y * u,
                    pow(nn, n + 1) == nn * x,
            ;
            assert(x * v >= (nn + 1) * y * u * a) by (nonlinear_arith)
                requires
                    nn * x * v >= y * u * ((nn + 1) * (nn * a)),
                    nn > 0,
            ;
            assert(x * ((nn + 1) * y * (pp * a)) <= x * v) by (nonlinear_arith)
                requires
                    x * pp <= u,
                    x * v >= (nn + 1) * y * u * a,
                    a >= 0,
                    y > 0,
                    nn >= 0,
            ;
            assert((nn + 1) * y * (pp * a) <= v) by (nonlinear_arith)
                requires
                    x * ((nn + 1) * y * (pp * a)) <= x * v,
                    x > 0,
            ;
            assert(s.len() == nn + 1);
        }
    }
}

proof fn lemma_mix_prefix(m: int, c: nat, n: nat, k: nat)
    requires
        c <= n,
        k <= n,
    ensures
        seq_sum(mix(m, c, n).take(k as int)) == if k <= c {
            k * m
        } else {
            c * m + k - c
        },
        seq_prod(mix(m, c, n).take(k as int)) == pow(m, if k <= c { k } else { c }),
    decreases k,
{
    reveal(pow);
    if k > 0 {
        let s = mix(m, c, n);
        lemma_mix_prefix(m, c, n, (k - 1) as nat);
        assert(s.take(k as int).drop_last() =~= s.take(k - 1));
        assert(s.take(k as int).last() == s[k - 1]);
        if k <= c {
            lemma_pow_succ(m, (k - 1) as nat);
            assert(pow(m, (k - 1) as nat) * m == m * pow(m, (k - 1) as nat)) by (nonlinear_arith);
            assert((k - 1) * m + m == k * m) by (nonlinear_arith);
        }
    }
}

/// `n^n * m^c <= (c m + n - c)^n` for `m >= 0`, `c <= n`.
pub proof fn lemma_mean_bound(m: int, c: nat, n: nat)
    requires
        m >= 0,
        c <= n,
    ensures
        pow(n as int, n) * pow(m, c) <= pow(c * m + n - c, n),
{
    let s = mix(m, c, n);
    assert(s.take(n as int) =~= s);
    lemma_mix_prefix(m, c, n, n);
    lemma_am_gm(s);
}

} // verus!
