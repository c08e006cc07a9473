//! Exact scaling of a delay by a power of a multiplier given in thousandths:
//! `d × (m / 1000)^k`, rounded down once, computed on base-1000 limbs.

use vstd::prelude::*;
use vstd::arithmetic::div_mod::{
    lemma_basic_div, lemma_div_by_multiple, lemma_div_denominator, lemma_div_is_ordered,
    lemma_div_multiples_vanish_fancy,
};
use vstd::arithmetic::power::{lemma_pow_increases, lemma_pow_positive, pow};

verus! {

/// `d × (m / 1000)^k`, rounded down.
pub open spec fn scaled(d: nat, m: nat, k: nat) -> nat {
    (d * pow(m as int, k) / pow(1000, k)) as nat
}

pub open spec fn min_of(a: nat, b: nat) -> nat {
    if a <= b { a } else { b }
}

/// Value of base-1000 limbs, least significant first.
pub open spec fn limbs_value(s: Seq<u64>) -> nat
    decreases s.len(),
{
    if s.len() == 0 {
        0
    } else {
        s[0] as nat + 1000 * limbs_value(s.drop_first())
    }
}

pub open spec fn limbs_ok(s: Seq<u64>) -> bool {
    forall|i: int| 0 <= i < s.len() ==> #[trigger] s[i] < 1000
}

/// Value of the limbs from position `j` up.
pub open spec fn upper_value(s: Seq<u64>, j: nat) -> nat {
    if j <= s.len() { limbs_value(s.subrange(j as int, s.len() as int)) } else { 0 }
}

proof fn lemma_value_push(s: Seq<u64>, x: u64)
    ensures
        limbs_value(s.push(x)) == limbs_value(s) + pow(1000, s.len()) * x,
    decreases s.len(),
{
    reveal(pow);
    if s.len() == 0 {
        assert(s.push(x).drop_first() =~= Seq::<u64>::empty());
        assert(s.push(x)[0] == x);
        assert(limbs_value(Seq::<u64>::empty()) == 0);
        assert(limbs_value(s.push(x)) == x + 1000 * limbs_value(s.push(x).drop_first()));
        assert(pow(1000, 0) == 1);
    } else {
        assert(s.push(x).drop_first() =~= s.drop_first().push(x));
        assert(s.push(x)[0] == s[0]);
        lemma_value_push(s.drop_first(), x);
        let a = limbs_value(s.drop_first());
        let p = pow(1000, (s.len() - 1) as nat);
        assert(pow(1000, s.len()) == 1000 * p);
        assert(1000 * (a + p * x) == 1000 * a + (1000 * p) * x) by (nonlinear_arith);
    }
}

proof fn lemma_value_bound(s: Seq<u64>)
    requires
        limbs_ok(s),
    ensures
        limbs_value(s) < pow(1000, s.len()),
    decreases s.len(),
{
    reveal(pow);
    if s.len() > 0 {
        let t = s.drop_first();
        assert(limbs_ok(t)) by {
            assert forall|i: int| 0 <= i < t.len() implies #[trigger] t[i] < 1000 by {
                assert(t[i] == s[i + 1]);
            }
        }
        lemma_value_bound(t);
        let a = limbs_value(t);
        let p = pow(1000, t.len());
        assert(s[0] < 1000);
        assert(pow(1000, s.len()) == 1000 * p);
        assert(s[0] + 1000 * a < 1000 * p) by (nonlinear_arith)
            requires
                s[0] < 1000,
                a < p,
        ;
    } else {
        assert(pow(1000, 0) == 1);
    }
}

proof fn lemma_value_split(s: Seq<u64>, k: nat)
    requires
        k <= s.len(),
    ensures
        limbs_value(s) == limbs_value(s.subrange(0, k as int)) + pow(1000, k) * limbs_value(
            s.subrange(k as int, s.len() as int),
        ),
    decreases k,
{
    reveal(pow);
    if k == 0 {
        assert(s.subrange(0, 0) =~= Seq::<u64>::empty());
        assert(s.subrange(0, s.len() as int) =~= s);
        assert(pow(1000, 0) == 1);
    } else {
        let j = (k - 1) as nat;
        lemma_value_split(s, j);
        assert(s.subrange(0, k as int) =~= s.subrange(0, j as int).push(s[j as int]));
        lemma_value_push(s.subrange(0, j as int), s[j as int]);
        let hi = s.subrange(j as int, s.len() as int);
        assert(hi.drop_first() =~= s.subrange(k as int, s.len() as int));
        let b = limbs_value(s.subrange(k as int, s.len() as int));
        let p = pow(1000, j);
        assert(pow(1000, k) == 1000 * p);
        assert(p * (s[j as int] + 1000 * b) == p * s[j as int] + (1000 * p) * b) by (nonlinear_arith);
    }
}

/// The value of the limbs divided by `1000^j`, rounded down.
proof fn lemma_upper_is_quotient(s: Seq<u64>, j: nat)
    requires
        limbs_ok(s),
    ensures
        limbs_value(s) as int / pow(1000, j) == upper_value(s, j) as int,
{
    reveal(pow);
    lemma_pow_positive(1000, j);
    if j <= s.len() {
        lemma_value_split(s, j);
        let lo = s.subrange(0, j as int);
        assert(limbs_ok(lo)) by {
            assert forall|i: int| 0 <= i < lo.len() implies #[trigger] lo[i] < 1000 by {
                assert(lo[i] == s[i]);
            }
        }
        lemma_value_bound(lo);
        lemma_div_multiples_vanish_fancy(
            upper_value(s, j) as int,
            limbs_value(lo) as int,
            pow(1000, j),
        );
    } else {
        lemma_value_bound(s);
        lemma_pow_increases(1000, s.len(), j);
        lemma_basic_div(limbs_value(s) as int, pow(1000, j));
    }
}

/// The limbs of `value(s) × m + c`.
fn mul_add(s: &Vec<u64>, m: u64, c: u64) -> (r: Vec<u64>)
    requires
        limbs_ok(s@),
    ensures
        limbs_ok(r@),
        limbs_value(r@) == limbs_value(s@) * m + c,
{
    let bound: u128 = if m >= c { m as u128 } else { c as u128 };
    let mut out: Vec<u64> = Vec::new();
    let mut carry: u128 = c as u128;
    let mut i: usize = 0;
    proof {
        reveal(pow);
        assert(s@.subrange(0, s@.len() as int) =~= s@);
        assert(pow(1000, 0) == 1);
    }
    while i < s.len()
        invariant
            limbs_ok(s@),
            limbs_ok(out@),
            out@.len() == i,
            i <= s.len(),
            carry <= bound,
            bound <= u64::MAX,
            bound >= m,
            limbs_value(out@) + pow(1000, i as nat) * (limbs_value(s@.subrange(i as int, s@.len() as int))
                * m + carry) == limbs_value(s@) * m + c,
        decreases s.len() - i,
    {
        let x = s[i];
        assert(x < 1000);
        assert(x * m + carry <= 999 * bound + bound) by (nonlinear_arith)
            requires
                x < 1000,
                m <= bound,
                carry <= bound,
        ;
        let t: u128 = (x as u128) * (m as u128) + carry;
        let digit: u64 = (t % 1000) as u64;
        let next: u128 = t / 1000;
        proof {
            let rest = s@.subrange(i as int, s@.len() as int);
            let rest2 = s@.subrange(i + 1, s@.len() as int);
            assert(rest.drop_first() =~= rest2);
            assert(rest[0] == x);
            reveal(pow);
            lemma_value_push(out@, digit);
            let v2 = limbs_value(rest2);
            let p = pow(1000, i as nat);
            assert(pow(1000, (i + 1) as nat) == 1000 * p);
            assert(t == digit + 1000 * next);
            assert((x + 1000 * v2) * m + carry == t + 1000 * (v2 * m)) by (nonlinear_arith)
                requires
                    t == x * m + carry,
            ;
            assert(p * (digit + 1000 * (v2 * m + next)) == p * digit + (1000 * p) * (v2 * m + next))
                by (nonlinear_arith);
        }
        out.push(digit);
        carry = next;
        i = i + 1;
    }
    proof {
        let rest = s@.subrange(s@.len() as int, s@.len() as int);
        assert(rest =~= Seq::<u64>::empty());
        assert(limbs_value(rest) == 0);
        assert(i == s@.len());
        assert(limbs_value(rest) * m + carry == carry);
        assert(out@.len() == i as nat);
    }
    while carry > 0
        invariant
            limbs_ok(out@),
            carry <= u64::MAX,
            limbs_value(out@) + pow(1000, out@.len()) * carry == limbs_value(s@) * m + c,
        decreases carry,
    {
        let digit: u64 = (carry % 1000) as u64;
        let next: u128 = carry / 1000;
        proof {
            reveal(pow);
            lemma_value_push(out@, digit);
            let p = pow(1000, out@.len());
            assert(pow(1000, out@.len() + 1) == 1000 * p);
            assert(p * (digit + 1000 * next) == p * digit + (1000 * p) * next) by (nonlinear_arith);
        }
        out.push(digit);
        carry = next;
    }
    proof {
        let rest = s@.subrange(s@.len() as int, s@.len() as int);
        assert(rest =~= Seq::<u64>::empty());
    }
    out
}

/// `min(value(s[j..]), cap + 1)`.
fn upper_capped(s: &Vec<u64>, j: usize, cap: u64) -> (r: u128)
    requires
        limbs_ok(s@),
    ensures
        r as nat == min_of(upper_value(s@, j as nat), cap as nat + 1),
{
    let top: u128 = cap as u128 + 1;
    if j > s.len() {
        return 0;
    }
    let mut acc: u128 = 0;
    let mut i: usize = s.len();
    assert(s@.subrange(i as int, s@.len() as int) =~= Seq::<u64>::empty());
    while i > j
        invariant
            limbs_ok(s@),
            j <= i <= s@.len(),
            top == cap as u128 + 1,
            acc as nat == min_of(limbs_value(s@.subrange(i as int, s@.len() as int)), top as nat),
        decreases i - j,
    {
        i = i - 1;
        let x = s[i];
        assert(x < 1000);
        let v: u128 = x as u128 + 1000 * acc;
        acc = if v < top { v } else { top };
        proof {
            let rest = s@.subrange(i as int, s@.len() as int);
            assert(rest.drop_first() =~= s@.subrange(i + 1, s@.len() as int));
            assert(rest[0] == x);
        }
    }
    acc
}

proof fn lemma_scaled_step(d: nat, m: nat, j: nat)
    ensures
        m >= 1000 ==> scaled(d, m, j + 1) >= scaled(d, m, j),
        m <= 1000 ==> scaled(d, m, j + 1) <= scaled(d, m, j),
{
    reveal(pow);
    lemma_pow_positive(1000, j);
    let pm = pow(m as int, j);
    let pd = pow(1000, j);
    assert(pm >= 0) by {
        if m > 0 {
            lemma_pow_positive(m as int, j);
        } else {
            lemma_pow_zero(j);
        }
    }
    let n = d * pm;
    assert(n >= 0) by (nonlinear_arith)
        requires
            pm >= 0,
            d >= 0,
            n == d * pm,
    ;
    assert(pow(m as int, j + 1) == m * pm);
    assert(pow(1000, j + 1) == 1000 * pd);
    assert(d * (m * pm) == n * m) by (nonlinear_arith)
        requires
            n == d * pm,
    ;
    lemma_div_denominator(n * m, 1000, pd);
    lemma_div_by_multiple(n, 1000);
    lemma_div_denominator(n * 1000, 1000, pd);
    assert(1000 * pd == pd * 1000) by (nonlinear_arith);
    lemma_div_by_multiple(n, pd);
    if m >= 1000 {
        assert(n * 1000 <= n * m) by (nonlinear_arith)
            requires
                n >= 0,
                m >= 1000,
        ;
        lemma_div_is_ordered(n * 1000, n * m, 1000);
        lemma_div_is_ordered(n, (n * m) / 1000, pd);
    }
    if m <= 1000 {
        assert(n * m <= n * 1000) by (nonlinear_arith)
            requires
                n >= 0,
                m <= 1000,
        ;
        lemma_div_is_ordered(n * m, n * 1000, 1000);
        lemma_div_is_ordered((n * m) / 1000, n, pd);
    }
}

proof fn lemma_pow_zero(j: nat)
    ensures
        pow(0, j) >= 0,
    decreases j,
{
    reveal(pow);
    if j > 0 {
        lemma_pow_zero((j - 1) as nat);
    }
}

/// With a multiplier of at least one the scaled value never falls as the
/// power grows; with one of at most one it never rises.
pub proof fn lemma_scaled_monotone(d: nat, m: nat, j: nat, k: nat)
    requires
        j <= k,
    ensures
        m >= 1000 ==> scaled(d, m, k) >= scaled(d, m, j),
        m <= 1000 ==> scaled(d, m, k) <= scaled(d, m, j),
    decreases k - j,
{
    reveal(pow);
    if j < k {
        lemma_scaled_step(d, m, j);
        lemma_scaled_monotone(d, m, j + 1, k);
    }
}

/// `min(d × (m / 1000)^k rounded down, cap)`.
pub fn scaled_capped(d: u64, m: u64, k: u32, cap: u64) -> (r: u64)
    ensures
        r == min_of(scaled(d as nat, m as nat, k as nat), cap as nat),
{
    if m == 1000 {
        proof {
            lemma_pow_positive(1000, k as nat);
            lemma_div_by_multiple(d as int, pow(1000, k as nat));
        }
        return if d <= cap { d } else { cap };
    }
    let empty: Vec<u64> = Vec::new();
    let mut n = mul_add(&empty, 1, d);
    let mut j: u32 = 0;
    proof {
        reveal(pow);
        assert(pow(m as int, 0) == 1);
    }
    while j < k
        invariant
            limbs_ok(n@),
            j <= k,
            limbs_value(n@) == d * pow(m as int, j as nat),
        decreases k - j,
    {
        let x = upper_capped(&n, j as usize, cap);
        proof {
            lemma_upper_is_quotient(n@, j as nat);
        }
        if m > 1000 && x >= cap as u128 {
            proof {
                lemma_scaled_monotone(d as nat, m as nat, j as nat, k as nat);
            }
            return cap;
        }
        if m < 1000 && x == 0 {
            proof {
                lemma_scaled_monotone(d as nat, m as nat, j as nat, k as nat);
            }
            return 0;
        }
        n = mul_add(&n, m, 0);
        proof {
            reveal(pow);
            let pm = pow(m as int, j as nat);
            assert(pow(m as int, (j + 1) as nat) == m * pm);
            assert((d * pm) * m == d * (m * pm)) by (nonlinear_arith);
        }
        j = j + 1;
    }
    let x = upper_capped(&n, k as usize, cap);
    proof {
        lemma_upper_is_quotient(n@, k as nat);
    }
    if x > cap as u128 {
        cap
    } else {
        x as u64
    }
}

} // verus!
