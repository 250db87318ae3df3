//! Arbitrary-precision naturals (little-endian 32-bit limbs), just enough
//! to compare exact integer powers.

use vstd::prelude::*;
use vstd::arithmetic::power::pow;

verus! {

/// 2^(32 i): the weight of limb `i`.
pub open spec fn base_pow(i: nat) -> nat
    decreases i,
{
    if i == 0 {
        1
    } else {
        4294967296 * base_pow((i - 1) as nat)
    }
}

/// Limb `i`, or zero past the end.
pub open spec fn limb_at(s: Seq<u32>, i: int) -> nat {
    if 0 <= i < s.len() {
        s[i] as nat
    } else {
        0
    }
}

/// The value of the lowest `i` limbs (limbs past the end read as zero).
pub open spec fn prefix_value(s: Seq<u32>, i: nat) -> nat
    decreases i,
{
    if i == 0 {
        0
    } else {
        prefix_value(s, (i - 1) as nat) + limb_at(s, i - 1) * base_pow((i - 1) as nat)
    }
}

/// The natural number a limb sequence stands for.
pub open spec fn limbs_value(s: Seq<u32>) -> nat {
    prefix_value(s, s.len())
}

proof fn lemma_prefix_past_end(s: Seq<u32>, i: nat)
    requires
        i >= s.len(),
    ensures
        prefix_value(s, i) == limbs_value(s),
    decreases i,
{
    if i > s.len() {
        lemma_prefix_past_end(s, (i - 1) as nat);
    }
}

proof fn lemma_prefix_push(s: Seq<u32>, x: u32, i: nat)
    requires
        i <= s.len(),
    ensures
        prefix_value(s.push(x), i) == prefix_value(s, i),
    decreases i,
{
    if i > 0 {
        lemma_prefix_push(s, x, (i - 1) as nat);
    }
}

proof fn lemma_value_push(s: Seq<u32>, x: u32)
    ensures
        limbs_value(s.push(x)) == limbs_value(s) + x * base_pow(s.len()),
{
    lemma_prefix_push(s, x, s.len());
}

/// `a * k`, for a factor below 2^80.
pub fn mul_small(a: &Vec<u32>, k: u128) -> (r: Vec<u32>)
    requires
        k < 0x1_0000_0000_0000_0000_0000,
    ensures
        limbs_value(r@) == limbs_value(a@) * k,
{
    let mut r: Vec<u32> = Vec::new();
    let mut carry: u128 = 0;
    let len = a.len();
    let mut i: usize = 0;
    assert(limbs_value(r@) == 0);
    assert(prefix_value(a@, 0) == 0);
    assert(base_pow(0) == 1);
    while i < len
        invariant
            len == a@.len(),
            i <= len,
            r@.len() == i,
            carry <= k,
            k < 0x1_0000_0000_0000_0000_0000,
            limbs_value(r@) + carry * base_pow(i as nat) == prefix_value(a@, i as nat) * k,
        decreases len - i,
    {
        let x = a[i];
        proof {
            assert(x * k <= 4294967295 * k) by (nonlinear_arith)
                requires
                    x <= 4294967295,
            ;
        }
        let t: u128 = (x as u128) * k + carry;
        let lo = (t % 4294967296) as u32;
        let hi = t / 4294967296;
        proof {
            let p = base_pow(i as nat);
            let v = prefix_value(a@, i as nat);
            lemma_value_push(r@, lo);
            assert(base_pow((i + 1) as nat) == 4294967296 * p);
            assert(prefix_value(a@, (i + 1) as nat) == v + x * p);
            assert(t == hi * 4294967296 + lo);
            assert(hi <= k) by (nonlinear_arith)
                requires
                    t <= 4294967296 * k,
                    hi == t / 4294967296,
            ;
            assert(limbs_value(r@) + lo * p + hi * (4294967296 * p) == (v + x * p) * k)
                by (nonlinear_arith)
                requires
                    limbs_value(r@) + carry * p == v * k,
                    t == x * k + carry,
                    t == hi * 4294967296 + lo,
            ;
        }
        r.push(lo);
        carry = hi;
        i = i + 1;
    }
    proof {
        lemma_prefix_past_end(a@, len as nat);
    }
    while carry > 0
        invariant
            limbs_value(r@) + carry * base_pow(r@.len()) == limbs_value(a@) * k,
        decreases carry,
    {
        let lo = (carry % 4294967296) as u32;
        let hi = carry / 4294967296;
        proof {
            let p = base_pow(r@.len());
            lemma_value_push(r@, lo);
            assert(lo * p + hi * (4294967296 * p) == carry * p) by (nonlinear_arith)
                requires
                    carry == hi * 4294967296 + lo,
            ;
        }
        r.push(lo);
        carry = hi;
    }
    r
}

/// Whether `value(a) < value(b)`.
pub fn less_than(a: &Vec<u32>, b: &Vec<u32>) -> (lt: bool)
    ensures
        lt == (limbs_value(a@) < limbs_value(b@)),
{
    let n = if a.len() > b.len() { a.len() } else { b.len() };
    let mut borrow: u64 = 0;
    let ghost mut diff: int = 0;
    let mut i: usize = 0;
    assert(prefix_value(a@, 0) == 0 && prefix_value(b@, 0) == 0 && base_pow(0) == 1);
    while i < n
        invariant
            n >= a@.len(),
            n >= b@.len(),
            i <= n,
            borrow <= 1,
            0 <= diff < base_pow(i as nat),
            diff - borrow * base_pow(i as nat) == prefix_value(a@, i as nat) - prefix_value(
                b@,
                i as nat,
            ),
        decreases n - i,
    {
        let x: u64 = if i < a.len() { a[i] as u64 } else { 0 };
        let y: u64 = if i < b.len() { b[i] as u64 } else { 0 };
        let ghost p = base_pow(i as nat);
        proof {
            assert(base_pow((i + 1) as nat) == 4294967296 * p);
            assert(prefix_value(a@, (i + 1) as nat) == prefix_value(a@, i as nat) + x * p);
            assert(prefix_value(b@, (i + 1) as nat) == prefix_value(b@, i as nat) + y * p);
        }
        let ghost old_diff = diff;
        let ghost old_borrow = borrow;
        let d: u64;
        if x >= y + borrow {
            d = x - y - borrow;
            borrow = 0;
        } else {
            d = x + 4294967296 - y - borrow;
            borrow = 1;
        }
        proof {
            assert(d < 4294967296);
            assert(d == x - y - old_borrow + borrow * 4294967296);
            diff = old_diff + d * p;
            assert(diff - borrow * (4294967296 * p) == old_diff - old_borrow * p + x * p - y * p)
                by (nonlinear_arith)
                requires
                    diff == old_diff + d * p,
                    d == x - y - old_borrow + borrow * 4294967296,
            ;
            assert(old_diff + d * p < 4294967296 * p) by (nonlinear_arith)
                requires
                    old_diff < p,
                    d <= 4294967295,
            ;
            assert(old_diff - old_borrow * p == prefix_value(a@, i as nat) - prefix_value(b@, i as nat));
            assert(diff - borrow * (4294967296 * p) == prefix_value(a@, (i + 1) as nat) - prefix_value(b@, (i + 1) as nat));
        }
        i = i + 1;
    }
    proof {
        lemma_prefix_past_end(a@, n as nat);
        lemma_prefix_past_end(b@, n as nat);
    }
    borrow == 1
}

/// `base^e` as a limb sequence, for a base below 2^80.
pub fn pow_big(base: u128, e: u32) -> (r: Vec<u32>)
    requires
        base < 0x1_0000_0000_0000_0000_0000,
    ensures
        limbs_value(r@) == pow(base as int, e as nat),
{
    let mut r: Vec<u32> = Vec::new();
    r.push(1);
    assert(limbs_value(r@) == 1) by {
        assert(r@.len() == 1 && r@[0] == 1);
        assert(prefix_value(r@, 0) == 0);
        assert(base_pow(0) == 1);
        assert(prefix_value(r@, 1) == prefix_value(r@, 0) + limb_at(r@, 0) * base_pow(0));
    }
    assert(pow(base as int, 0) == 1) by {
        reveal(pow);
    }
    let mut j: u32 = 0;
    while j < e
        invariant
            j <= e,
            base < 0x1_0000_0000_0000_0000_0000,
            limbs_value(r@) == pow(base as int, j as nat),
        decreases e - j,
    {
        r = mul_small(&r, base);
        proof {
            assert(pow(base as int, (j + 1) as nat) == base * pow(base as int, j as nat)) by {
                reveal(pow);
            }
            assert(limbs_value(r@) == pow(base as int, (j + 1) as nat)) by (nonlinear_arith)
                requires
                    limbs_value(r@) == pow(base as int, j as nat) * base,
                    pow(base as int, (j + 1) as nat) == base * pow(base as int, j as nat),
            ;
        }
        j = j + 1;
    }
    r
}

} // verus!
