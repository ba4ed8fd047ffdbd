//! Soundness of the known-bits reduction transfer: the wrapping sum of
//! any number of values that one fact admits.

use vstd::prelude::*;
use vstd::arithmetic::power2::{pow2, lemma_pow2_pos, lemma_pow2_adds, lemma2_to64};
use vstd::arithmetic::div_mod::{lemma_add_mod_noop, lemma_small_mod, lemma_mod_multiples_vanish};
use vstd::std_specs::bits::{u32_leading_zeros, axiom_u32_leading_zeros};
use crate::ap_int::{seq_add, seq_mul, lemma_nat_of_splat_false};
use crate::bitseq::{
    nat_of, from_nat, splat, range_mask, leading, lemma_nat_of_split, lemma_nat_of_zero_iff,
    lemma_nat_of_all_false, lemma_nat_of_from_nat, lemma_leading_props, lemma_leading_char,
    lemma_nat_of_injective, lemma_nat_of_bound,
};
use crate::known_bits::{
    KnownBitsModel, admits, reduce_add_model, log2_ceil_u32, log2_floor_u32, is_constant_model,
    non_negative_model, negative_model, sat_sub, set_high, constant_model,
};
use crate::known_bits_laws::{
    lemma_admits_at, lemma_constant_admits_only, lemma_top_one_above, law_constant_admits_exactly,
};
use crate::known_bits_signed_laws::lemma_high_mask_value;

verus! {

/// The wrapping sum of width-`w` values.
pub open spec fn wrapping_sum(w: nat, xs: Seq<Seq<bool>>) -> Seq<bool>
    decreases xs.len(),
{
    if xs.len() == 0 {
        splat(w, false)
    } else {
        seq_add(wrapping_sum(w, xs.drop_last()), xs.last())
    }
}

/// The sum of the unsigned values of `xs`.
pub open spec fn value_sum(xs: Seq<Seq<bool>>) -> nat
    decreases xs.len(),
{
    if xs.len() == 0 {
        0
    } else {
        value_sum(xs.drop_last()) + nat_of(xs.last())
    }
}

/// The wrapping sum has the width and the value of the sum modulo `2^w`.
proof fn lemma_wrapping_sum_value(w: nat, xs: Seq<Seq<bool>>)
    ensures
        wrapping_sum(w, xs).len() == w,
        nat_of(wrapping_sum(w, xs)) == value_sum(xs) % pow2(w),
    decreases xs.len(),
{
    lemma_pow2_pos(w);
    if xs.len() == 0 {
        lemma_nat_of_splat_false(w);
        lemma_small_mod(0, pow2(w));
    } else {
        let rest = xs.drop_last();
        lemma_wrapping_sum_value(w, rest);
        let s = wrapping_sum(w, rest);
        let v = value_sum(rest) as int;
        let n = nat_of(xs.last()) as int;
        let p = pow2(w) as int;
        lemma_nat_of_from_nat(w, nat_of(s) + nat_of(xs.last()));
        assert(nat_of(wrapping_sum(w, xs)) == (v % p + n) % p);
        lemma_add_mod_noop(v, n, p);
        lemma_add_mod_noop(v % p, n, p);
        vstd::arithmetic::div_mod::lemma_mod_twice(v, p);
        assert((v % p + n) % p == (v + n) % p);
    }
}

/// `2` to the rounded-up base-2 logarithm of a positive count covers the
/// count.
proof fn lemma_log2_ceil_covers(n: u32)
    requires
        n >= 1,
    ensures
        n <= pow2(log2_ceil_u32(n)),
        log2_ceil_u32(n) <= 32,
{
    lemma2_to64();
    if n > 1 {
        let u = (n - 1) as u32;
        axiom_u32_leading_zeros(u);
        let lz = u32_leading_zeros(u);
        let k = (32 - lz) as u32;
        assert(log2_ceil_u32(n) == k);
        if lz > 0 {
            assert(u >> k == 0u32);
            vstd::bits::lemma_u32_shr_is_div(u, k);
            lemma_pow2_pos(k as nat);
            vstd::arithmetic::div_mod::lemma_fundamental_div_mod(u as int, pow2(k as nat) as int);
            vstd::arithmetic::div_mod::lemma_mod_pos_bound(u as int, pow2(k as nat) as int);
        }
    }
}

/// A value below `2^m` has every bit from `m` up clear.
pub proof fn lemma_small_high_clear(s: Seq<bool>, m: nat)
    requires
        m <= s.len(),
        nat_of(s) < pow2(m),
    ensures
        forall|j: int| m <= j < s.len() ==> !#[trigger] s[j],
{
    lemma_nat_of_split(s, m as int);
    lemma_pow2_pos(m);
    let hi = nat_of(s.skip(m as int));
    assert(hi == 0) by (nonlinear_arith)
        requires
            nat_of(s) == nat_of(s.take(m as int)) + pow2(m) * hi,
            nat_of(s) < pow2(m),
            pow2(m) > 0,
    ;
    lemma_nat_of_zero_iff(s.skip(m as int));
    assert forall|j: int| m <= j < s.len() implies !#[trigger] s[j] by {
        assert(s[j] == s.skip(m as int)[j - m]);
    }
}

/// A value whose bits from `m` up are clear is below `2^m`.
pub proof fn lemma_high_clear_small(s: Seq<bool>, m: nat)
    requires
        m <= s.len(),
        forall|j: int| m <= j < s.len() ==> !#[trigger] s[j],
    ensures
        nat_of(s) < pow2(m),
{
    lemma_nat_of_split(s, m as int);
    assert forall|j: int| 0 <= j < s.skip(m as int).len() implies !s.skip(m as int)[j] by {
        assert(s.skip(m as int)[j] == s[m + j]);
    }
    lemma_nat_of_all_false(s.skip(m as int));
    lemma_nat_of_bound(s.take(m as int));
    assert(pow2(m) * 0 == 0);
}

/// A value whose bits from `m` up are set is at least `2^w - 2^m`.
pub proof fn lemma_high_set_large(s: Seq<bool>, m: nat)
    requires
        m <= s.len(),
        forall|j: int| m <= j < s.len() ==> #[trigger] s[j],
    ensures
        nat_of(s) + pow2(m) >= pow2(s.len() as nat),
{
    let w = s.len() as nat;
    lemma_nat_of_split(s, m as int);
    assert(s.skip(m as int) =~= splat((w - m) as nat, true));
    crate::ap_int::lemma_nat_of_all_ones((w - m) as nat);
    lemma_pow2_adds(m, (w - m) as nat);
    assert(pow2(m) * (pow2((w - m) as nat) - 1) == pow2(m) * pow2((w - m) as nat) - pow2(m)) by (nonlinear_arith);
}

/// The sum of values that are all `c`.
proof fn lemma_sum_equal(xs: Seq<Seq<bool>>, c: Seq<bool>)
    requires
        forall|i: int| 0 <= i < xs.len() ==> #[trigger] xs[i] == c,
    ensures
        value_sum(xs) == xs.len() * nat_of(c),
    decreases xs.len(),
{
    if xs.len() > 0 {
        let rest = xs.drop_last();
        assert forall|i: int| 0 <= i < rest.len() implies #[trigger] rest[i] == c by {
            assert(rest[i] == xs[i]);
        }
        lemma_sum_equal(rest, c);
        assert(xs.last() == c);
        assert(rest.len() * nat_of(c) + nat_of(c) == xs.len() * nat_of(c)) by (nonlinear_arith)
            requires
                xs.len() == rest.len() + 1,
        ;
    }
}

/// Bounds on a sum of values that each lie in `[lo, hi]`.
proof fn lemma_sum_bounds(xs: Seq<Seq<bool>>, lo: nat, hi: nat)
    requires
        forall|i: int| 0 <= i < xs.len() ==> lo <= nat_of(#[trigger] xs[i]) <= hi,
    ensures
        xs.len() * lo <= value_sum(xs) <= xs.len() * hi,
    decreases xs.len(),
{
    if xs.len() > 0 {
        let rest = xs.drop_last();
        assert forall|i: int| 0 <= i < rest.len() implies lo <= nat_of(#[trigger] rest[i]) <= hi by {
            assert(rest[i] == xs[i]);
        }
        lemma_sum_bounds(rest, lo, hi);
        assert(lo <= nat_of(xs[xs.len() - 1]) <= hi);
        assert(rest.len() * lo + lo == xs.len() * lo && rest.len() * hi + hi == xs.len() * hi) by (nonlinear_arith)
            requires
                xs.len() == rest.len() + 1,
        ;
    }
}

/// The reduction transfer admits the wrapping sum of any `num_elts`
/// values the fact admits.
pub proof fn law_reduce_add_sound(v: KnownBitsModel, xs: Seq<Seq<bool>>, num_elts: u32)
    requires
        v.0.len() == v.1.len(),
        xs.len() == num_elts,
        forall|i: int| 0 <= i < xs.len() ==> admits(v, #[trigger] xs[i]),
    ensures
        admits(reduce_add_model(v, num_elts), wrapping_sum(v.0.len() as nat, xs)),
{
    let w = v.0.len() as nat;
    let n = num_elts as nat;
    let z = wrapping_sum(w, xs);
    let k = reduce_add_model(v, num_elts);
    let p = pow2(w);
    lemma_wrapping_sum_value(w, xs);
    lemma_pow2_pos(w);
    if num_elts == 0 {
    } else if is_constant_model(v) {
        assert forall|i: int| 0 <= i < xs.len() implies #[trigger] xs[i] == v.1 by {
            lemma_constant_admits_only(v, xs[i]);
        }
        lemma_sum_equal(xs, v.1);
        let prod = seq_mul(v.1, from_nat(w, n));
        lemma_nat_of_from_nat(w, n);
        lemma_nat_of_from_nat(w, nat_of(v.1) * nat_of(from_nat(w, n)));
        vstd::arithmetic::div_mod::lemma_mul_mod_noop_right(nat_of(v.1) as int, n as int, p as int);
        assert(n * nat_of(v.1) == nat_of(v.1) * n) by (nonlinear_arith);
        lemma_nat_of_injective(z, prod);
        law_constant_admits_exactly(prod, z);
    } else {
        let lost = log2_ceil_u32(num_elts);
        lemma_log2_ceil_covers(num_elts);
        if non_negative_model(v) {
            let lz = leading(v.0, true);
            let d = sat_sub(lz as int, lost as int);
            if d > 0 {
                lemma_leading_props(v.0, true);
                let m = (w - lz) as nat;
                assert forall|i: int| 0 <= i < xs.len() implies 0 <= nat_of(#[trigger] xs[i]) <= pow2(m) - 1 by {
                    assert forall|j: int| m <= j < xs[i].len() implies !#[trigger] xs[i][j] by {
                        lemma_admits_at(v, xs[i], j);
                    }
                    lemma_high_clear_small(xs[i], m);
                }
                lemma_sum_bounds(xs, 0, (pow2(m) - 1) as nat);
                lemma_pow2_adds(lost, m);
                lemma_pow2_pos(m);
                let top = (w - d) as nat;
                assert(lost + m == top);
                assert(value_sum(xs) < pow2(top)) by (nonlinear_arith)
                    requires
                        value_sum(xs) <= n * (pow2(m) - 1),
                        n <= pow2(lost),
                        pow2(top) == pow2(lost) * pow2(m),
                        pow2(m) > 0,
                        n >= 1,
                ;
                if top < w {
                    vstd::arithmetic::power2::lemma_pow2_strictly_increases(top, w);
                }
                lemma_small_mod(value_sum(xs), p);
                lemma_small_high_clear(z, top);
            }
            assert forall|i: int| 0 <= i < z.len() implies (k.0[i] ==> !z[i]) && (k.1[i] ==> z[i]) by {
            }
        } else if negative_model(v) {
            let lo = leading(v.1, true);
            let d = sat_sub(lo as int, lost as int);
            if d > 0 {
                lemma_leading_props(v.1, true);
                let m = (w - lo) as nat;
                let dm = pow2(m);
                lemma_pow2_pos(m);
                if m < w {
                    vstd::arithmetic::power2::lemma_pow2_strictly_increases(m, w);
                }
                assert forall|i: int| 0 <= i < xs.len() implies (p - dm) as nat <= nat_of(#[trigger] xs[i]) <= (p - 1) as nat by {
                    assert forall|j: int| m <= j < xs[i].len() implies #[trigger] xs[i][j] by {
                        lemma_admits_at(v, xs[i], j);
                    }
                    lemma_high_set_large(xs[i], m);
                    lemma_nat_of_bound(xs[i]);
                }
                lemma_pow2_pos(m);
                if m < w {
                    vstd::arithmetic::power2::lemma_pow2_strictly_increases(m, w);
                }
                lemma_sum_bounds(xs, (p - dm) as nat, (p - 1) as nat);
                let top = (w - d) as nat;
                lemma_pow2_adds(lost, m);
                assert(lost + m == top);
                vstd::arithmetic::power2::lemma_pow2_strictly_increases(top, w);
                let vs = value_sum(xs) as int;
                let delta = n * p - vs;
                assert(n <= delta <= pow2(top)) by (nonlinear_arith)
                    requires
                        n * (p - dm) <= vs <= n * (p - 1),
                        delta == n * p - vs,
                        n <= pow2(lost),
                        pow2(top) == pow2(lost) * dm,
                        dm > 0,
                ;
                assert(vs == p * (n - 1) + (p - delta)) by (nonlinear_arith)
                    requires
                        delta == n * p - vs,
                ;
                lemma_mod_multiples_vanish((n - 1) as int, p - delta, p as int);
                lemma_small_mod((p - delta) as nat, p);
                let mm = range_mask(w, top as int, w as int);
                lemma_high_mask_value(w, top);
                lemma_leading_char(mm, true, d);
                lemma_top_one_above(z, mm);
            }
            assert forall|i: int| 0 <= i < z.len() implies (k.0[i] ==> !z[i]) && (k.1[i] ==> z[i]) by {
            }
        }
    }
}

} // verus!
