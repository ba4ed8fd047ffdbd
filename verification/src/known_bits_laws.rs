//! Soundness of the known-bits transfer functions: whenever the inputs of
//! an operation are admitted by their facts, the result of the operation
//! is admitted by the fact the transfer function computes.

use vstd::prelude::*;
use vstd::arithmetic::power2::{pow2, lemma_pow2_strictly_increases, lemma_pow2_pos};
use vstd::arithmetic::div_mod::lemma_basic_div;
use crate::ap_int::{lemma_from_int_of_value, seq_shl, seq_ashr, seq_uadd_sat, seq_usub_sat, seq_resize, seq_sext, seq_add, seq_sub, seq_reverse, seq_byte_swap, seq_extract, seq_insert, seq_flip_msb, lemma_flip_msb};
use crate::bitseq::{lemma_leading_char, lemma_nat_of_split, lemma_nat_of_zero_iff, lemma_nat_of_all_false, from_nat, lemma_nat_of_take, lemma_leading_props, lemma_nat_of_injective, leading, int_of, lemma_nat_of_bound, lemma_from_nat_of_value, lemma_nat_of_from_nat, lemma_from_nat_mod, lemma_nat_of_not, all_false, nat_of, bit_val, seq_not, seq_and, seq_or, seq_xor, seq_intersects, splat, range_mask, bit_at, popcount, trailing, lemma_trailing_props, lemma_nat_of_bit, lemma_from_nat_small, from_int, all_true};
use crate::known_bits::{
    KnownBitsModel, admits, unknown_model, constant_model, intersect_model, union_model,
    trunc_model, zext_model, sext_model, is_constant_model, add_carry_model, add_sub_model, one_at,
    anyext_model, make_ge_model, umax_model, swap_model, flip_sign_model, smin_flip_model, abdu_model,
    eq_model, ugt_model, sgt_model, signed_min_model, signed_max_model, min_nat, sat_add_u32, set_range, set_low,
    avg_u_model, sat_add_sub_model, udiv_model, urem_model, rem_low_bits_model, const_pow2_divisor,
    abds_model,
};

verus! {

/// Every bit set in `a` is set in `b`.
pub open spec fn bits_below(a: Seq<bool>, b: Seq<bool>) -> bool {
    a.len() == b.len() && forall|i: int| #![trigger a[i]] 0 <= i < a.len() ==> (a[i] ==> b[i])
}

/// What an admitted value's bit `i` is forced to be.
pub proof fn lemma_admits_at(k: KnownBitsModel, x: Seq<bool>, i: int)
    requires
        k.0.len() == k.1.len(),
        admits(k, x),
        0 <= i < x.len(),
    ensures
        k.0[i] ==> !x[i],
        k.1[i] ==> x[i],
{
    assert(k.0[i] ==> !x[i]);
    assert(k.1[i] ==> x[i]);
}

/// The fact with nothing known admits every value of its width.
pub proof fn law_unknown_admits_all(w: nat, x: Seq<bool>)
    requires
        x.len() == w,
    ensures
        admits(unknown_model(w), x),
{
}

/// The fact of a constant admits that constant and nothing else.
pub proof fn law_constant_admits_exactly(v: Seq<bool>, x: Seq<bool>)
    ensures
        admits(constant_model(v), x) <==> x == v,
{
    if admits(constant_model(v), x) {
        assert forall|i: int| 0 <= i < x.len() implies x[i] == v[i] by {
            assert(constant_model(v).0[i] ==> !x[i]);
            assert(constant_model(v).1[i] ==> x[i]);
        }
        assert(x =~= v);
    }
}

/// A fact that admits some value has no bit known both zero and one.
pub proof fn law_admitted_has_no_conflict(k: KnownBitsModel, x: Seq<bool>)
    requires
        k.0.len() == k.1.len(),
        admits(k, x),
    ensures
        !seq_intersects(k.0, k.1),
{
    if seq_intersects(k.0, k.1) {
        let i = choose|i: int| 0 <= i < k.0.len() && #[trigger] k.0[i] && bit_at(k.1, i);
        assert(k.0[i] ==> !x[i]);
    }
}

/// A fact with every bit known and no conflict admits only its known ones.
pub proof fn law_constant_fact_admits_only_its_value(k: KnownBitsModel, x: Seq<bool>)
    requires
        k.0.len() == k.1.len(),
        admits(k, x),
        forall|i: int| 0 <= i < k.0.len() ==> #[trigger] k.0[i] || k.1[i],
    ensures
        x == k.1,
{
    assert forall|i: int| 0 <= i < x.len() implies x[i] == k.1[i] by {
        lemma_admits_at(k, x, i);
    }
    assert(x =~= k.1);
}

/// Complementing the value swaps the known zeros and ones.
pub proof fn law_not_sound(k: KnownBitsModel, x: Seq<bool>)
    requires
        k.0.len() == k.1.len(),
        admits(k, x),
    ensures
        admits((k.1, k.0), seq_not(x)),
{
    assert forall|i: int| 0 <= i < seq_not(x).len() implies (k.1[i] ==> !seq_not(x)[i]) && (k.0[i] ==> seq_not(x)[i]) by {
        lemma_admits_at(k, x, i);
    }
}

/// The AND transfer admits the AND of any two admitted values.
pub proof fn law_and_sound(a: KnownBitsModel, b: KnownBitsModel, x: Seq<bool>, y: Seq<bool>)
    requires
        a.0.len() == a.1.len(),
        b.0.len() == b.1.len(),
        a.0.len() == b.0.len(),
        admits(a, x),
        admits(b, y),
    ensures
        admits((seq_or(a.0, b.0), seq_and(a.1, b.1)), seq_and(x, y)),
{
    let r = (seq_or(a.0, b.0), seq_and(a.1, b.1));
    let z = seq_and(x, y);
    assert forall|i: int| 0 <= i < z.len() implies (r.0[i] ==> !z[i]) && (r.1[i] ==> z[i]) by {
        lemma_admits_at(a, x, i);
        lemma_admits_at(b, y, i);
    }
}

/// The OR transfer admits the OR of any two admitted values.
pub proof fn law_or_sound(a: KnownBitsModel, b: KnownBitsModel, x: Seq<bool>, y: Seq<bool>)
    requires
        a.0.len() == a.1.len(),
        b.0.len() == b.1.len(),
        a.0.len() == b.0.len(),
        admits(a, x),
        admits(b, y),
    ensures
        admits((seq_and(a.0, b.0), seq_or(a.1, b.1)), seq_or(x, y)),
{
    let r = (seq_and(a.0, b.0), seq_or(a.1, b.1));
    let z = seq_or(x, y);
    assert forall|i: int| 0 <= i < z.len() implies (r.0[i] ==> !z[i]) && (r.1[i] ==> z[i]) by {
        lemma_admits_at(a, x, i);
        lemma_admits_at(b, y, i);
    }
}

/// The XOR transfer admits the XOR of any two admitted values.
pub proof fn law_xor_sound(a: KnownBitsModel, b: KnownBitsModel, x: Seq<bool>, y: Seq<bool>)
    requires
        a.0.len() == a.1.len(),
        b.0.len() == b.1.len(),
        a.0.len() == b.0.len(),
        admits(a, x),
        admits(b, y),
    ensures
        admits((seq_or(seq_and(a.0, b.0), seq_and(a.1, b.1)), seq_or(seq_and(a.0, b.1), seq_and(a.1, b.0))), seq_xor(x, y)),
{
    let r = (seq_or(seq_and(a.0, b.0), seq_and(a.1, b.1)), seq_or(seq_and(a.0, b.1), seq_and(a.1, b.0)));
    let z = seq_xor(x, y);
    assert forall|i: int| 0 <= i < z.len() implies (r.0[i] ==> !z[i]) && (r.1[i] ==> z[i]) by {
        lemma_admits_at(a, x, i);
        lemma_admits_at(b, y, i);
    }
}

/// The common knowledge of two facts admits every value either admits.
pub proof fn law_intersect_sound(a: KnownBitsModel, b: KnownBitsModel, x: Seq<bool>)
    requires
        a.0.len() == a.1.len(),
        b.0.len() == b.1.len(),
        a.0.len() == b.0.len(),
        admits(a, x) || admits(b, x),
    ensures
        admits(intersect_model(a, b), x),
{
    let r = intersect_model(a, b);
    assert forall|i: int| 0 <= i < x.len() implies (r.0[i] ==> !x[i]) && (r.1[i] ==> x[i]) by {
        if admits(a, x) {
            lemma_admits_at(a, x, i);
        } else {
            lemma_admits_at(b, x, i);
        }
    }
}

/// The combined knowledge of two facts admits every value both admit.
pub proof fn law_union_sound(a: KnownBitsModel, b: KnownBitsModel, x: Seq<bool>)
    requires
        a.0.len() == a.1.len(),
        b.0.len() == b.1.len(),
        a.0.len() == b.0.len(),
        admits(a, x),
        admits(b, x),
    ensures
        admits(union_model(a, b), x),
{
    let r = union_model(a, b);
    assert forall|i: int| 0 <= i < x.len() implies (r.0[i] ==> !x[i]) && (r.1[i] ==> x[i]) by {
        lemma_admits_at(a, x, i);
        lemma_admits_at(b, x, i);
    }
}

/// Truncation keeps the facts of the kept bits.
pub proof fn law_trunc_sound(k: KnownBitsModel, x: Seq<bool>, w: nat)
    requires
        k.0.len() == k.1.len(),
        admits(k, x),
        w <= x.len(),
    ensures
        admits(trunc_model(k, w), x.take(w as int)),
{
    let r = trunc_model(k, w);
    let z = x.take(w as int);
    assert forall|i: int| 0 <= i < z.len() implies (r.0[i] ==> !z[i]) && (r.1[i] ==> z[i]) by {
        lemma_admits_at(k, x, i);
    }
}

/// Zero extension knows the new high bits are zero.
pub proof fn law_zext_sound(k: KnownBitsModel, x: Seq<bool>, w: nat)
    requires
        k.0.len() == k.1.len(),
        admits(k, x),
        w >= x.len(),
    ensures
        admits(zext_model(k, w), seq_resize(x, w)),
{
    let r = zext_model(k, w);
    let z = seq_resize(x, w);
    assert forall|i: int| 0 <= i < z.len() implies (r.0[i] ==> !z[i]) && (r.1[i] ==> z[i]) by {
        if i < x.len() {
            lemma_admits_at(k, x, i);
        }
    }
}

/// Sign extension copies the facts of the sign bit into the new bits.
pub proof fn law_sext_sound(k: KnownBitsModel, x: Seq<bool>, w: nat)
    requires
        k.0.len() == k.1.len(),
        admits(k, x),
        w > x.len(),
        x.len() > 0,
    ensures
        admits(sext_model(k, w), seq_sext(x, w)),
{
    let r = sext_model(k, w);
    let z = seq_sext(x, w);
    let s = x.len() - 1;
    assert(k.0[s] ==> !x[s]);
    assert(k.1[s] ==> x[s]);
    assert forall|i: int| 0 <= i < z.len() implies (r.0[i] ==> !z[i]) && (r.1[i] ==> z[i]) by {
        if i < x.len() {
            lemma_admits_at(k, x, i);
        }
    }
}

/// The unsigned value of a bit string is at most that of any bit string
/// that has every one of its bits set.
pub proof fn lemma_nat_of_monotone(a: Seq<bool>, b: Seq<bool>)
    requires
        bits_below(a, b),
    ensures
        nat_of(a) <= nat_of(b),
    decreases a.len(),
{
    if a.len() > 0 {
        let n = (a.len() - 1) as int;
        assert(bits_below(a.drop_last(), b.drop_last()));
        lemma_nat_of_monotone(a.drop_last(), b.drop_last());
        assert(a[n] ==> b[n]);
        assert(bit_val(a.last()) <= bit_val(b.last()));
        let p = pow2(n as nat);
        assert(bit_val(a.last()) * p <= bit_val(b.last()) * p) by (nonlinear_arith)
            requires
                bit_val(a.last()) <= bit_val(b.last()),
        ;
    }
}

/// Every admitted value lies between the fact's minimum (its known ones)
/// and maximum (everything but its known zeros) as unsigned numbers.
pub proof fn law_unsigned_bounds(k: KnownBitsModel, x: Seq<bool>)
    requires
        k.0.len() == k.1.len(),
        admits(k, x),
    ensures
        nat_of(k.1) <= nat_of(x),
        nat_of(x) <= nat_of(seq_not(k.0)),
{
    assert forall|i: int| 0 <= i < k.1.len() && k.1[i] implies x[i] by {
        lemma_admits_at(k, x, i);
    }
    lemma_nat_of_monotone(k.1, x);
    assert forall|i: int| 0 <= i < x.len() && x[i] implies seq_not(k.0)[i] by {
        assert(k.0[i] ==> !x[i]);
    }
    lemma_nat_of_monotone(x, seq_not(k.0));
}

/// Carry into bit `i` of `a + b + c0` computed bit by bit.
pub open spec fn carry_into(a: Seq<bool>, b: Seq<bool>, c0: bool, i: nat) -> bool
    decreases i,
{
    if i == 0 {
        c0
    } else {
        let j = i - 1;
        let c = carry_into(a, b, c0, (i - 1) as nat);
        (bit_at(a, j) && bit_at(b, j)) || (bit_at(a, j) && c) || (bit_at(b, j) && c)
    }
}

/// The bits of `a + b + c0` at the width of `a`, computed bit by bit.
pub open spec fn ripple_sum(a: Seq<bool>, b: Seq<bool>, c0: bool) -> Seq<bool> {
    Seq::new(a.len(), |i: int| bit_at(a, i) != (bit_at(b, i) != carry_into(a, b, c0, i as nat)))
}

/// The bit-by-bit sum is the arithmetic sum modulo `2^w`.
pub proof fn lemma_ripple_sum(a: Seq<bool>, b: Seq<bool>, c0: bool)
    requires
        a.len() == b.len(),
    ensures
        ripple_sum(a, b, c0) == from_nat(a.len(), nat_of(a) + nat_of(b) + bit_val(c0)),
{
    let w = a.len();
    let s = ripple_sum(a, b, c0);
    assert forall|i: nat| i <= w implies #[trigger] nat_of(s.take(i as int)) + bit_val(carry_into(a, b, c0, i)) * pow2(i)
        == nat_of(a.take(i as int)) + nat_of(b.take(i as int)) + bit_val(c0) by {
        lemma_ripple_prefix(a, b, c0, i);
    }
    assert(nat_of(s.take(w as int)) + bit_val(carry_into(a, b, c0, w)) * pow2(w)
        == nat_of(a.take(w as int)) + nat_of(b.take(w as int)) + bit_val(c0));
    assert(s.take(w as int) =~= s);
    assert(a.take(w as int) =~= a);
    assert(b.take(w as int) =~= b);
    let total = nat_of(a) + nat_of(b) + bit_val(c0);
    lemma_nat_of_bound(s);
    vstd::arithmetic::div_mod::lemma_fundamental_div_mod_converse_mod(
        total as int, pow2(w) as int, bit_val(carry_into(a, b, c0, w)) as int, nat_of(s) as int);
    lemma_from_nat_of_value(s, total);
}

pub proof fn lemma_ripple_prefix(a: Seq<bool>, b: Seq<bool>, c0: bool, i: nat)
    requires
        a.len() == b.len(),
        i <= a.len(),
    ensures
        nat_of(ripple_sum(a, b, c0).take(i as int)) + bit_val(carry_into(a, b, c0, i)) * pow2(i)
            == nat_of(a.take(i as int)) + nat_of(b.take(i as int)) + bit_val(c0),
    decreases i,
{
    let s = ripple_sum(a, b, c0);
    if i == 0 {
        assert(s.take(0) =~= Seq::<bool>::empty());
        assert(a.take(0) =~= Seq::<bool>::empty());
        assert(b.take(0) =~= Seq::<bool>::empty());
        vstd::arithmetic::power2::lemma2_to64();
    } else {
        let j = (i - 1) as int;
        lemma_ripple_prefix(a, b, c0, (i - 1) as nat);
        lemma_nat_of_take(s, j);
        lemma_nat_of_take(a, j);
        lemma_nat_of_take(b, j);
        vstd::arithmetic::power2::lemma_pow2_unfold(i);
        let c = carry_into(a, b, c0, (i - 1) as nat);
        crate::ap_int::lemma_full_adder(a[j], b[j], c, pow2(j as nat));
        assert(s[j] == (a[j] != (b[j] != c)));
    }
}

/// Carries only grow when the addends and the carry in do.
pub proof fn lemma_carry_monotone(a: Seq<bool>, b: Seq<bool>, c0: bool, a2: Seq<bool>, b2: Seq<bool>, c2: bool, i: nat)
    requires
        bits_below(a, a2),
        bits_below(b, b2),
        c0 ==> c2,
    ensures
        carry_into(a, b, c0, i) ==> carry_into(a2, b2, c2, i),
    decreases i,
{
    if i > 0 {
        let j = i - 1;
        lemma_carry_monotone(a, b, c0, a2, b2, c2, (i - 1) as nat);
        if 0 <= j < a.len() {
            assert(a[j] ==> a2[j]);
        }
        if 0 <= j < b.len() {
            assert(b[j] ==> b2[j]);
        }
    }
}

/// The carry-aware addition transfer admits `x + y + c` for every `x`
/// and `y` the two facts admit and every carry `c` the carry facts allow
/// (`carry_zero`: the carry is known zero; `carry_one`: known one).
pub proof fn law_add_carry_sound(l: KnownBitsModel, r: KnownBitsModel, carry_zero: bool, carry_one: bool,
    x: Seq<bool>, y: Seq<bool>, c: bool)
    requires
        l.0.len() == l.1.len(),
        r.0.len() == r.1.len(),
        l.0.len() == r.0.len(),
        admits(l, x),
        admits(r, y),
        carry_zero ==> !c,
        carry_one ==> c,
    ensures
        admits(add_carry_model(l, r, carry_zero, carry_one), from_nat(x.len(), nat_of(x) + nat_of(y) + bit_val(c))),
{
    let w = l.0.len();
    let sum = from_nat(w, nat_of(x) + nat_of(y) + bit_val(c));
    lemma_ripple_sum(x, y, c);
    let hi_l = seq_not(l.0);
    let hi_r = seq_not(r.0);
    let c_hi = !carry_zero;
    let c_lo = carry_one;
    // The largest and smallest sums the facts allow, bit by bit.
    let cz_add = if carry_zero { splat(w, false) } else { one_at(w) };
    let co_add = if carry_one { one_at(w) } else { splat(w, false) };
    lemma_sum3(hi_l, hi_r, c_hi, cz_add);
    lemma_sum3(l.1, r.1, c_lo, co_add);
    let psz = seq_add(seq_add(hi_l, hi_r), cz_add);
    let pso = seq_add(seq_add(l.1, r.1), co_add);
    assert(psz == ripple_sum(hi_l, hi_r, c_hi));
    assert(pso == ripple_sum(l.1, r.1, c_lo));
    assert(bits_below(x, hi_l)) by {
        assert forall|i: int| 0 <= i < x.len() && x[i] implies hi_l[i] by { lemma_admits_at(l, x, i); }
    }
    assert(bits_below(y, hi_r)) by {
        assert forall|i: int| 0 <= i < y.len() && y[i] implies hi_r[i] by { lemma_admits_at(r, y, i); }
    }
    assert(bits_below(l.1, x)) by {
        assert forall|i: int| 0 <= i < l.1.len() && l.1[i] implies x[i] by { lemma_admits_at(l, x, i); }
    }
    assert(bits_below(r.1, y)) by {
        assert forall|i: int| 0 <= i < r.1.len() && r.1[i] implies y[i] by { lemma_admits_at(r, y, i); }
    }
    let k = add_carry_model(l, r, carry_zero, carry_one);
    assert forall|i: int| 0 <= i < sum.len() implies (k.0[i] ==> !sum[i]) && (k.1[i] ==> sum[i]) by {
        lemma_admits_at(l, x, i);
        lemma_admits_at(r, y, i);
        let ii = i as nat;
        lemma_carry_monotone(x, y, c, hi_l, hi_r, c_hi, ii);
        lemma_carry_monotone(l.1, r.1, c_lo, x, y, c, ii);
        assert(sum[i] == (x[i] != (y[i] != carry_into(x, y, c, ii))));
        assert(psz[i] == (hi_l[i] != (hi_r[i] != carry_into(hi_l, hi_r, c_hi, ii))));
        assert(pso[i] == (l.1[i] != (r.1[i] != carry_into(l.1, r.1, c_lo, ii))));
    }
}

/// `a + b + (1 if c0)` written with two wrapping additions is the
/// bit-by-bit sum.
pub proof fn lemma_sum3(a: Seq<bool>, b: Seq<bool>, c0: bool, cadd: Seq<bool>)
    requires
        a.len() == b.len(),
        cadd == (if c0 { one_at(a.len()) } else { splat(a.len(), false) }),
    ensures
        seq_add(seq_add(a, b), cadd) == ripple_sum(a, b, c0),
{
    let w = a.len();
    let ab = seq_add(a, b);
    lemma_nat_of_from_nat(w, nat_of(a) + nat_of(b));
    assert(nat_of(cadd) == bit_val(c0) % pow2(w)) by {
        if c0 {
            lemma_nat_of_from_nat(w, 1);
        } else {
            crate::ap_int::lemma_nat_of_splat_false(w);
            vstd::arithmetic::power2::lemma_pow2_pos(w);
        }
    }
    lemma_ripple_sum(a, b, c0);
    vstd::arithmetic::power2::lemma_pow2_pos(w);
    let t = nat_of(a) + nat_of(b);
    let p = pow2(w) as int;
    assert((t % pow2(w) + bit_val(c0) % pow2(w)) % pow2(w) == (t + bit_val(c0)) % pow2(w)) by {
        vstd::arithmetic::div_mod::lemma_add_mod_noop(t as int, bit_val(c0) as int, p);
    }
    lemma_from_nat_mod(w, nat_of(ab) + nat_of(cadd));
    lemma_from_nat_mod(w, t + bit_val(c0));
}

/// The addition transfer admits `x + y` for every `x` and `y` the two
/// facts admit.
pub proof fn law_add_sound(l: KnownBitsModel, r: KnownBitsModel, x: Seq<bool>, y: Seq<bool>)
    requires
        l.0.len() == l.1.len(),
        r.0.len() == r.1.len(),
        l.0.len() == r.0.len(),
        admits(l, x),
        admits(r, y),
    ensures
        admits(add_sub_model(true, false, false, l, r), seq_add(x, y)),
{
    let w = l.0.len();
    assert(seq_add(x, y) == from_nat(x.len(), nat_of(x) + nat_of(y) + bit_val(false)));
    if !(all_false(l.0) && all_false(l.1)) && !(all_false(r.0) && all_false(r.1)) {
        law_add_carry_sound(l, r, true, false, x, y, false);
        let k0 = add_carry_model(l, r, true, false);
        if w > 0 {
            law_admitted_has_no_conflict(k0, seq_add(x, y));
        }
    } else {
        law_unknown_admits_all(w, seq_add(x, y));
        crate::bitseq::lemma_nat_of_from_nat(w, nat_of(x) + nat_of(y));
        if w > 0 {
            law_admitted_has_no_conflict(unknown_model(w), seq_add(x, y));
        }
    }
}

/// The subtraction transfer admits `x - y` for every `x` and `y` the two
/// facts admit.
pub proof fn law_sub_sound(l: KnownBitsModel, r: KnownBitsModel, x: Seq<bool>, y: Seq<bool>)
    requires
        l.0.len() == l.1.len(),
        r.0.len() == r.1.len(),
        l.0.len() == r.0.len(),
        admits(l, x),
        admits(r, y),
    ensures
        admits(add_sub_model(false, false, false, l, r), seq_sub(x, y)),
{
    let w = l.0.len();
    lemma_nat_of_not(y);
    assert(seq_sub(x, y) == from_nat(x.len(), nat_of(x) + nat_of(seq_not(y)) + bit_val(true)));
    if !(all_false(l.0) && all_false(l.1)) && !(all_false(r.0) && all_false(r.1)) {
        law_not_sound(r, y);
        law_add_carry_sound(l, (r.1, r.0), false, true, x, seq_not(y), true);
        let k0 = add_carry_model(l, (r.1, r.0), false, true);
        if w > 0 {
            law_admitted_has_no_conflict(k0, seq_sub(x, y));
        }
    } else {
        crate::bitseq::lemma_nat_of_from_nat(w, (nat_of(x) + pow2(w) - nat_of(y)) as nat);
        law_unknown_admits_all(w, seq_sub(x, y));
        if w > 0 {
            law_admitted_has_no_conflict(unknown_model(w), seq_sub(x, y));
        }
    }
}

/// Extending with unknown high bits is sound: the low bits of every
/// extension of an admitted value keep their facts and the new bits are
/// unconstrained.
pub proof fn law_anyext_sound(k: KnownBitsModel, x: Seq<bool>, y: Seq<bool>)
    requires
        k.0.len() == k.1.len(),
        admits(k, x),
        y.len() >= x.len(),
        y.take(x.len() as int) == x,
    ensures
        admits(anyext_model(k, y.len()), y),
{
    let r = anyext_model(k, y.len());
    assert forall|i: int| 0 <= i < y.len() implies (r.0[i] ==> !y[i]) && (r.1[i] ==> y[i]) by {
        if i < x.len() {
            assert(y[i] == y.take(x.len() as int)[i]);
            lemma_admits_at(k, x, i);
        }
    }
}

/// Reversing the bits is sound.
pub proof fn law_reverse_bits_sound(k: KnownBitsModel, x: Seq<bool>)
    requires
        k.0.len() == k.1.len(),
        admits(k, x),
    ensures
        admits((seq_reverse(k.0), seq_reverse(k.1)), seq_reverse(x)),
{
    let z = seq_reverse(x);
    assert forall|i: int| 0 <= i < z.len() implies (seq_reverse(k.0)[i] ==> !z[i]) && (seq_reverse(k.1)[i] ==> z[i]) by {
        lemma_admits_at(k, x, x.len() - 1 - i);
    }
}

/// Reversing the bytes is sound.
pub proof fn law_byte_swap_sound(k: KnownBitsModel, x: Seq<bool>)
    requires
        k.0.len() == k.1.len(),
        admits(k, x),
    ensures
        admits((seq_byte_swap(k.0), seq_byte_swap(k.1)), seq_byte_swap(x)),
{
    let z = seq_byte_swap(x);
    let n = x.len();
    if n % 8 == 0 {
        assert forall|i: int| 0 <= i < z.len() implies (seq_byte_swap(k.0)[i] ==> !z[i]) && (seq_byte_swap(k.1)[i] ==> z[i]) by {
            let j = (n as int / 8 - 1 - i / 8) * 8 + i % 8;
            assert(0 <= j < n) by (nonlinear_arith)
                requires
                    n % 8 == 0,
                    0 <= i < n,
                    j == (n as int / 8 - 1 - i / 8) * 8 + i % 8,
            ;
            lemma_admits_at(k, x, j);
        }
    }
}

/// Taking a run of bits is sound (bits beyond the width read as clear
/// and unknown).
pub proof fn law_extract_bits_sound(k: KnownBitsModel, x: Seq<bool>, num: nat, pos: nat)
    requires
        k.0.len() == k.1.len(),
        admits(k, x),
    ensures
        admits((seq_extract(k.0, num, pos), seq_extract(k.1, num, pos)), seq_extract(x, num, pos)),
{
    let z = seq_extract(x, num, pos);
    assert forall|i: int| 0 <= i < z.len() implies (seq_extract(k.0, num, pos)[i] ==> !z[i]) && (seq_extract(k.1, num, pos)[i] ==> z[i]) by {
        if pos + i < x.len() {
            lemma_admits_at(k, x, pos + i);
        }
    }
}

/// Putting two values side by side is sound: `lo` in the low bits and
/// `hi` above it.
pub proof fn law_concat_sound(hi: KnownBitsModel, lo: KnownBitsModel, xh: Seq<bool>, xl: Seq<bool>)
    requires
        hi.0.len() == hi.1.len(),
        lo.0.len() == lo.1.len(),
        admits(hi, xh),
        admits(lo, xl),
    ensures
        admits((lo.0 + hi.0, lo.1 + hi.1), xl + xh),
{
    let z = xl + xh;
    assert forall|i: int| 0 <= i < z.len() implies ((lo.0 + hi.0)[i] ==> !z[i]) && ((lo.1 + hi.1)[i] ==> z[i]) by {
        if i < xl.len() {
            lemma_admits_at(lo, xl, i);
        } else {
            lemma_admits_at(hi, xh, i - xl.len());
        }
    }
}

/// Writing the facts of a value into a run of bits is sound for the
/// value written there.
pub proof fn law_insert_bits_sound(k: KnownBitsModel, sub: KnownBitsModel, x: Seq<bool>, y: Seq<bool>, pos: nat)
    requires
        k.0.len() == k.1.len(),
        sub.0.len() == sub.1.len(),
        admits(k, x),
        admits(sub, y),
    ensures
        admits((seq_insert(k.0, sub.0, pos), seq_insert(k.1, sub.1, pos)), seq_insert(x, y, pos)),
{
    let z = seq_insert(x, y, pos);
    assert forall|i: int| 0 <= i < z.len() implies (seq_insert(k.0, sub.0, pos)[i] ==> !z[i]) && (seq_insert(k.1, sub.1, pos)[i] ==> z[i]) by {
        if pos <= i < pos + y.len() {
            lemma_admits_at(sub, y, i - pos);
        } else {
            lemma_admits_at(k, x, i);
        }
    }
}

/// Two bit strings that agree above bit `j`, where the first has a zero
/// and the second a one, compare as unsigned numbers: the first is less.
proof fn lemma_first_difference(a: Seq<bool>, b: Seq<bool>, j: int)
    requires
        a.len() == b.len(),
        0 <= j < a.len(),
        !a[j],
        b[j],
        forall|t: int| j < t < a.len() ==> a[t] == b[t],
    ensures
        nat_of(a) < nat_of(b),
    decreases a.len(),
{
    let n = (a.len() - 1) as nat;
    if j == n {
        lemma_nat_of_bound(a.drop_last());
        assert(bit_val(a.last()) == 0 && bit_val(b.last()) == 1);
        assert(bit_val(a.last()) * pow2(n) == 0);
        assert(bit_val(b.last()) * pow2(n) == pow2(n));
        assert(nat_of(a) == nat_of(a.drop_last()));
        assert(nat_of(b) == nat_of(b.drop_last()) + pow2(n));
    } else {
        assert(a.last() == b.last());
        assert forall|t: int| j < t < a.drop_last().len() implies a.drop_last()[t] == b.drop_last()[t] by {
            assert(a[t] == b[t]);
        }
        lemma_first_difference(a.drop_last(), b.drop_last(), j);
    }
}

/// A value at least `v` whose bits `t..` can only be set where `v` has
/// them set (a known zero or a bit of `v` at each) equals `v` there.
proof fn lemma_top_agree(k: KnownBitsModel, v: Seq<bool>, x: Seq<bool>, t: int)
    requires
        k.0.len() == k.1.len(),
        v.len() == k.0.len(),
        admits(k, x),
        nat_of(x) >= nat_of(v),
        0 <= t <= x.len(),
        forall|u: int| t <= u < x.len() ==> k.0[u] || v[u],
    ensures
        forall|u: int| t <= u < x.len() ==> x[u] == v[u],
    decreases x.len() - t,
{
    if t < x.len() {
        lemma_top_agree(k, v, x, t + 1);
        lemma_admits_at(k, x, t);
        if v[t] && !x[t] {
            lemma_first_difference(x, v, t);
        }
    }
}

/// Refining a fact by the lower bound `v` is sound for every admitted
/// value that is at least `v`.
pub proof fn law_make_ge_sound(k: KnownBitsModel, v: Seq<bool>, x: Seq<bool>)
    requires
        k.0.len() == k.1.len(),
        admits(k, x),
        nat_of(x) >= nat_of(v),
    ensures
        admits(make_ge_model(k, v), x),
{
    if v.len() == k.0.len() {
        let w = k.0.len();
        let o = seq_or(k.0, v);
        let n = leading(o, true);
        lemma_leading_props(o, true);
        assert forall|u: int| w - n <= u < x.len() implies k.0[u] || v[u] by {
            assert(o[u]);
        }
        lemma_top_agree(k, v, x, w - n);
        let r = make_ge_model(k, v);
        assert forall|i: int| 0 <= i < x.len() implies (r.0[i] ==> !x[i]) && (r.1[i] ==> x[i]) by {
            lemma_admits_at(k, x, i);
        }
    }
}

/// The unsigned maximum transfer admits the larger of two admitted values.
pub proof fn law_umax_sound(l: KnownBitsModel, r: KnownBitsModel, x: Seq<bool>, y: Seq<bool>)
    requires
        l.0.len() == l.1.len(),
        r.0.len() == r.1.len(),
        l.0.len() == r.0.len(),
        admits(l, x),
        admits(r, y),
    ensures
        admits(umax_model(l, r), if nat_of(x) >= nat_of(y) { x } else { y }),
{
    law_unsigned_bounds(l, x);
    law_unsigned_bounds(r, y);
    if nat_of(l.1) >= nat_of(seq_not(r.0)) {
    } else if nat_of(r.1) >= nat_of(seq_not(l.0)) {
        if nat_of(x) >= nat_of(y) {
            lemma_nat_of_injective(x, y);
        }
    } else {
        if nat_of(x) >= nat_of(y) {
            law_make_ge_sound(l, r.1, x);
            law_intersect_sound(make_ge_model(l, r.1), make_ge_model(r, l.1), x);
        } else {
            law_make_ge_sound(r, l.1, y);
            law_intersect_sound(make_ge_model(l, r.1), make_ge_model(r, l.1), y);
        }
    }
}

/// Exchanging the roles of zero and one admits the complements.
proof fn lemma_swap_admits(k: KnownBitsModel, x: Seq<bool>)
    requires
        k.0.len() == k.1.len(),
        admits(k, x),
    ensures
        admits(swap_model(k), seq_not(x)),
{
    let z = seq_not(x);
    assert forall|i: int| 0 <= i < z.len() implies (swap_model(k).0[i] ==> !z[i]) && (swap_model(k).1[i] ==> z[i]) by {
        lemma_admits_at(k, x, i);
    }
}

/// The unsigned minimum transfer admits the smaller of two admitted values.
pub proof fn law_umin_sound(l: KnownBitsModel, r: KnownBitsModel, x: Seq<bool>, y: Seq<bool>)
    requires
        l.0.len() == l.1.len(),
        r.0.len() == r.1.len(),
        l.0.len() == r.0.len(),
        admits(l, x),
        admits(r, y),
    ensures
        admits(swap_model(umax_model(swap_model(l), swap_model(r))), if nat_of(x) <= nat_of(y) { x } else { y }),
{
    lemma_swap_admits(l, x);
    lemma_swap_admits(r, y);
    law_umax_sound(swap_model(l), swap_model(r), seq_not(x), seq_not(y));
    lemma_nat_of_not(x);
    lemma_nat_of_not(y);
    let m = if nat_of(seq_not(x)) >= nat_of(seq_not(y)) { seq_not(x) } else { seq_not(y) };
    let u = umax_model(swap_model(l), swap_model(r));
    lemma_swap_admits(u, m);
    assert(seq_not(seq_not(x)) =~= x);
    assert(seq_not(seq_not(y)) =~= y);
}

/// Flipping the sign bit of a fact admits the flipped values.
pub proof fn lemma_flip_admits(k: KnownBitsModel, x: Seq<bool>)
    requires
        k.0.len() == k.1.len(),
        k.0.len() > 0,
        admits(k, x),
    ensures
        admits(flip_sign_model(k), seq_flip_msb(x)),
{
    let z = seq_flip_msb(x);
    let f = flip_sign_model(k);
    assert forall|i: int| 0 <= i < z.len() implies (f.0[i] ==> !z[i]) && (f.1[i] ==> z[i]) by {
        lemma_admits_at(k, x, i);
    }
}

/// The signed maximum transfer admits the larger (signed) of two
/// admitted values.
pub proof fn law_smax_sound(l: KnownBitsModel, r: KnownBitsModel, x: Seq<bool>, y: Seq<bool>)
    requires
        l.0.len() == l.1.len(),
        r.0.len() == r.1.len(),
        l.0.len() == r.0.len(),
        l.0.len() > 0,
        admits(l, x),
        admits(r, y),
    ensures
        admits(flip_sign_model(umax_model(flip_sign_model(l), flip_sign_model(r))), if int_of(x) >= int_of(y) { x } else { y }),
{
    lemma_flip_admits(l, x);
    lemma_flip_admits(r, y);
    law_umax_sound(flip_sign_model(l), flip_sign_model(r), seq_flip_msb(x), seq_flip_msb(y));
    lemma_flip_msb(x);
    lemma_flip_msb(y);
    let m = if nat_of(seq_flip_msb(x)) >= nat_of(seq_flip_msb(y)) { seq_flip_msb(x) } else { seq_flip_msb(y) };
    let u = umax_model(flip_sign_model(l), flip_sign_model(r));
    lemma_flip_admits(u, m);
    assert(seq_flip_msb(seq_flip_msb(x)) =~= x);
    assert(seq_flip_msb(seq_flip_msb(y)) =~= y);
}

/// The values a fact admits, complemented except for the sign bit.
pub open spec fn smin_flip_value(x: Seq<bool>) -> Seq<bool> {
    seq_not(seq_flip_msb(x))
}

/// The sign-keeping complement of a fact admits the sign-keeping
/// complements of its values.
proof fn lemma_smin_flip_admits(k: KnownBitsModel, x: Seq<bool>)
    requires
        k.0.len() == k.1.len(),
        k.0.len() > 0,
        admits(k, x),
    ensures
        admits(smin_flip_model(k), smin_flip_value(x)),
{
    let z = smin_flip_value(x);
    let f = smin_flip_model(k);
    assert forall|i: int| 0 <= i < z.len() implies (f.0[i] ==> !z[i]) && (f.1[i] ==> z[i]) by {
        lemma_admits_at(k, x, i);
    }
}

/// The signed minimum transfer admits the smaller (signed) of two
/// admitted values.
pub proof fn law_smin_sound(l: KnownBitsModel, r: KnownBitsModel, x: Seq<bool>, y: Seq<bool>)
    requires
        l.0.len() == l.1.len(),
        r.0.len() == r.1.len(),
        l.0.len() == r.0.len(),
        l.0.len() > 0,
        admits(l, x),
        admits(r, y),
    ensures
        admits(smin_flip_model(umax_model(smin_flip_model(l), smin_flip_model(r))), if int_of(x) <= int_of(y) { x } else { y }),
{
    lemma_smin_flip_admits(l, x);
    lemma_smin_flip_admits(r, y);
    law_umax_sound(smin_flip_model(l), smin_flip_model(r), smin_flip_value(x), smin_flip_value(y));
    lemma_flip_msb(x);
    lemma_flip_msb(y);
    lemma_nat_of_not(seq_flip_msb(x));
    lemma_nat_of_not(seq_flip_msb(y));
    let m = if nat_of(smin_flip_value(x)) >= nat_of(smin_flip_value(y)) { smin_flip_value(x) } else { smin_flip_value(y) };
    let u = umax_model(smin_flip_model(l), smin_flip_model(r));
    lemma_smin_flip_admits(u, m);
    assert(smin_flip_value(smin_flip_value(x)) =~= x);
    assert(smin_flip_value(smin_flip_value(y)) =~= y);
}

/// A value at most `m` has clear every high bit that is a leading zero
/// of `m`.
pub proof fn lemma_top_zero_below(z: Seq<bool>, m: Seq<bool>)
    requires
        z.len() == m.len(),
        nat_of(z) <= nat_of(m),
    ensures
        forall|i: int| z.len() - leading(m, false) <= i < z.len() ==> !z[i],
{
    let w = z.len();
    let n = leading(m, false);
    lemma_leading_props(m, false);
    let lo = w - n;
    lemma_nat_of_split(m, lo);
    assert forall|j: int| 0 <= j < m.skip(lo).len() implies !m.skip(lo)[j] by {
        assert(m.skip(lo)[j] == m[lo + j]);
    }
    lemma_nat_of_all_false(m.skip(lo));
    lemma_nat_of_bound(m.take(lo));
    lemma_nat_of_split(z, lo);
    let p = pow2(lo as nat);
    let hz = nat_of(z.skip(lo));
    assert(p * 0 == 0);
    assert(hz == 0) by (nonlinear_arith)
        requires
            nat_of(z) == nat_of(z.take(lo)) + p * hz,
            nat_of(z) < p,
    ;
    lemma_nat_of_zero_iff(z.skip(lo));
    assert forall|i: int| lo <= i < w implies !z[i] by {
        assert(z[i] == z.skip(lo)[i - lo]);
    }
}

/// The leading zeros of a complement are the leading ones of the original.
proof fn lemma_leading_not(m: Seq<bool>)
    ensures
        leading(seq_not(m), false) == leading(m, true),
{
    lemma_leading_props(m, true);
    lemma_leading_char(seq_not(m), false, leading(m, true));
}

/// A value at least `m` has set every high bit that is a leading one of `m`.
pub proof fn lemma_top_one_above(z: Seq<bool>, m: Seq<bool>)
    requires
        z.len() == m.len(),
        nat_of(z) >= nat_of(m),
    ensures
        forall|i: int| z.len() - leading(m, true) <= i < z.len() ==> z[i],
{
    lemma_nat_of_not(z);
    lemma_nat_of_not(m);
    lemma_top_zero_below(seq_not(z), seq_not(m));
    lemma_leading_not(m);
    lemma_leading_props(m, true);
    assert forall|i: int| z.len() - leading(m, true) <= i < z.len() implies z[i] by {
        assert(seq_not(z).len() - leading(seq_not(m), false) <= i < seq_not(z).len());
        assert(!seq_not(z)[i]);
    }
}

/// The difference of `a` and `b` when no wrap happens.
pub proof fn lemma_sub_no_wrap(a: Seq<bool>, b: Seq<bool>)
    requires
        a.len() == b.len(),
        nat_of(a) >= nat_of(b),
    ensures
        nat_of(seq_sub(a, b)) == nat_of(a) - nat_of(b),
        seq_sub(a, b).len() == a.len(),
{
    let w = a.len() as nat;
    lemma_nat_of_bound(a);
    lemma_nat_of_from_nat(w, (nat_of(a) + pow2(w) - nat_of(b)) as nat);
    vstd::arithmetic::div_mod::lemma_mod_add_multiples_vanish((nat_of(a) - nat_of(b)) as int, pow2(w) as int);
    vstd::arithmetic::div_mod::lemma_small_mod((nat_of(a) - nat_of(b)) as nat, pow2(w));
}

/// The sum of `a` and `b` when no wrap happens.
proof fn lemma_add_no_wrap(a: Seq<bool>, b: Seq<bool>)
    requires
        nat_of(a) + nat_of(b) < pow2(a.len() as nat),
    ensures
        nat_of(seq_add(a, b)) == nat_of(a) + nat_of(b),
        seq_add(a, b).len() == a.len(),
{
    lemma_nat_of_from_nat(a.len() as nat, nat_of(a) + nat_of(b));
    vstd::arithmetic::div_mod::lemma_small_mod(nat_of(a) + nat_of(b), pow2(a.len() as nat));
}

/// The subtraction transfer with the no-unsigned-wrap flag admits `x - y`
/// for every `x` and `y` the facts admit with `x` at least `y`.
pub proof fn law_sub_nuw_sound(l: KnownBitsModel, r: KnownBitsModel, x: Seq<bool>, y: Seq<bool>)
    requires
        l.0.len() == l.1.len(),
        r.0.len() == r.1.len(),
        l.0.len() == r.0.len(),
        admits(l, x),
        admits(r, y),
        nat_of(x) >= nat_of(y),
    ensures
        admits(add_sub_model(false, false, true, l, r), seq_sub(x, y)),
{
    let w = l.0.len();
    let z = seq_sub(x, y);
    lemma_nat_of_not(y);
    assert(z == from_nat(x.len(), nat_of(x) + nat_of(seq_not(y)) + bit_val(true)));
    let k0 = if !(all_false(l.0) && all_false(l.1)) && !(all_false(r.0) && all_false(r.1)) {
        add_carry_model(l, (r.1, r.0), false, true)
    } else {
        unknown_model(w)
    };
    if !(all_false(l.0) && all_false(l.1)) && !(all_false(r.0) && all_false(r.1)) {
        law_not_sound(r, y);
        law_add_carry_sound(l, (r.1, r.0), false, true, x, seq_not(y), true);
    } else {
        crate::bitseq::lemma_nat_of_from_nat(w, (nat_of(x) + pow2(w) - nat_of(y)) as nat);
        law_unknown_admits_all(w, z);
    }
    assert(admits(k0, z));
    if w > 0 {
        law_unsigned_bounds(l, x);
        law_unsigned_bounds(r, y);
        lemma_sub_no_wrap(x, y);
        lemma_sub_no_wrap(seq_not(l.0), r.1);
        let max_val = seq_usub_sat(seq_not(l.0), r.1);
        assert(max_val == seq_sub(seq_not(l.0), r.1));
        lemma_top_zero_below(z, max_val);
        let n = leading(max_val, false);
        let k1 = (crate::known_bits::set_high(k0.0, n), k0.1);
        assert forall|i: int| 0 <= i < z.len() implies (k1.0[i] ==> !z[i]) && (k1.1[i] ==> z[i]) by {
            lemma_admits_at(k0, z, i);
        }
        law_admitted_has_no_conflict(k1, z);
    }
}

/// The addition transfer with the no-unsigned-wrap flag admits `x + y`
/// for every `x` and `y` the facts admit whose sum does not wrap.
pub proof fn law_add_nuw_sound(l: KnownBitsModel, r: KnownBitsModel, x: Seq<bool>, y: Seq<bool>)
    requires
        l.0.len() == l.1.len(),
        r.0.len() == r.1.len(),
        l.0.len() == r.0.len(),
        admits(l, x),
        admits(r, y),
        nat_of(x) + nat_of(y) < pow2(x.len() as nat),
    ensures
        admits(add_sub_model(true, false, true, l, r), seq_add(x, y)),
{
    let w = l.0.len();
    let z = seq_add(x, y);
    assert(z == from_nat(x.len(), nat_of(x) + nat_of(y) + bit_val(false)));
    let k0 = if !(all_false(l.0) && all_false(l.1)) && !(all_false(r.0) && all_false(r.1)) {
        add_carry_model(l, r, true, false)
    } else {
        unknown_model(w)
    };
    if !(all_false(l.0) && all_false(l.1)) && !(all_false(r.0) && all_false(r.1)) {
        law_add_carry_sound(l, r, true, false, x, y, false);
    } else {
        law_unknown_admits_all(w, z);
        crate::bitseq::lemma_nat_of_from_nat(w, nat_of(x) + nat_of(y));
    }
    assert(admits(k0, z));
    if w > 0 {
        law_unsigned_bounds(l, x);
        law_unsigned_bounds(r, y);
        lemma_add_no_wrap(x, y);
        lemma_add_no_wrap(l.1, r.1);
        let min_val = seq_uadd_sat(l.1, r.1);
        assert(min_val == seq_add(l.1, r.1));
        lemma_top_one_above(z, min_val);
        let n = leading(min_val, true);
        let k1 = (k0.0, crate::known_bits::set_high(k0.1, n));
        assert forall|i: int| 0 <= i < z.len() implies (k1.0[i] ==> !z[i]) && (k1.1[i] ==> z[i]) by {
            lemma_admits_at(k0, z, i);
        }
        law_admitted_has_no_conflict(k1, z);
    }
}

/// The unsigned absolute difference transfer admits `|x - y|` for every
/// `x` and `y` the facts admit.
pub proof fn law_abdu_sound(l: KnownBitsModel, r: KnownBitsModel, x: Seq<bool>, y: Seq<bool>)
    requires
        l.0.len() == l.1.len(),
        r.0.len() == r.1.len(),
        l.0.len() == r.0.len(),
        admits(l, x),
        admits(r, y),
    ensures
        admits(abdu_model(l, r), if nat_of(x) >= nat_of(y) { seq_sub(x, y) } else { seq_sub(y, x) }),
{
    law_unsigned_bounds(l, x);
    law_unsigned_bounds(r, y);
    if nat_of(l.1) >= nat_of(seq_not(r.0)) {
        law_sub_sound(l, r, x, y);
    } else if nat_of(r.1) >= nat_of(seq_not(l.0)) {
        law_sub_sound(r, l, y, x);
        if nat_of(x) >= nat_of(y) {
            lemma_nat_of_injective(x, y);
        }
    } else if nat_of(x) >= nat_of(y) {
        law_sub_nuw_sound(l, r, x, y);
        law_intersect_sound(add_sub_model(false, false, true, l, r), add_sub_model(false, false, true, r, l), seq_sub(x, y));
    } else {
        law_sub_nuw_sound(r, l, y, x);
        law_intersect_sound(add_sub_model(false, false, true, l, r), add_sub_model(false, false, true, r, l), seq_sub(y, x));
    }
}

/// Two disjoint bit strings of one width have at most that many set bits
/// between them, and fewer when some bit is set in neither.
proof fn lemma_popcount_disjoint(a: Seq<bool>, b: Seq<bool>, j: int)
    requires
        a.len() == b.len(),
        forall|i: int| #![trigger a[i]] 0 <= i < a.len() ==> !(a[i] && b[i]),
    ensures
        popcount(a) + popcount(b) <= a.len(),
        0 <= j < a.len() && !a[j] && !b[j] ==> popcount(a) + popcount(b) < a.len(),
    decreases a.len(),
{
    if a.len() > 0 {
        let n = a.len() - 1;
        let a1 = a.drop_last();
        let b1 = b.drop_last();
        assert forall|i: int| #![trigger a1[i]] 0 <= i < a1.len() implies !(a1[i] && b1[i]) by {
            assert(a[i] == a1[i]);
        }
        assert(!(a[n] && b[n]));
        lemma_popcount_disjoint(a1, b1, j);
    }
}

/// A fact that knows every bit (by its counts) admits only its known ones.
pub proof fn lemma_constant_admits_only(k: KnownBitsModel, x: Seq<bool>)
    requires
        k.0.len() == k.1.len(),
        admits(k, x),
        is_constant_model(k),
    ensures
        x == k.1,
{
    law_admitted_has_no_conflict(k, x);
    assert forall|i: int| #![trigger k.0[i]] 0 <= i < k.0.len() implies !(k.0[i] && k.1[i]) by {
        if k.0[i] && k.1[i] {
            assert(bit_at(k.1, i));
        }
    }
    assert forall|j: int| 0 <= j < k.0.len() implies #[trigger] k.0[j] || k.1[j] by {
        lemma_popcount_disjoint(k.0, k.1, j);
        lemma_popcount_disjoint(k.0, k.1, 0);
    }
    law_constant_fact_admits_only_its_value(k, x);
}

/// When the equality transfer decides `lhs == rhs`, its answer is right for
/// every pair of admitted values.
pub proof fn law_eq_sound(l: KnownBitsModel, r: KnownBitsModel, x: Seq<bool>, y: Seq<bool>)
    requires
        l.0.len() == l.1.len(),
        r.0.len() == r.1.len(),
        l.0.len() == r.0.len(),
        admits(l, x),
        admits(r, y),
    ensures
        eq_model(l, r) matches Some(b) ==> (x == y) == b,
{
    if is_constant_model(l) && is_constant_model(r) {
        lemma_constant_admits_only(l, x);
        lemma_constant_admits_only(r, y);
    } else if seq_intersects(l.1, r.0) {
        let i = choose|i: int| 0 <= i < l.1.len() && #[trigger] l.1[i] && bit_at(r.0, i);
        lemma_admits_at(l, x, i);
        lemma_admits_at(r, y, i);
    } else if seq_intersects(r.1, l.0) {
        let i = choose|i: int| 0 <= i < r.1.len() && #[trigger] r.1[i] && bit_at(l.0, i);
        lemma_admits_at(l, x, i);
        lemma_admits_at(r, y, i);
    }
}

/// When the unsigned comparison transfer decides `lhs > rhs`, its answer
/// is right for every pair of admitted values.
pub proof fn law_ugt_sound(l: KnownBitsModel, r: KnownBitsModel, x: Seq<bool>, y: Seq<bool>)
    requires
        l.0.len() == l.1.len(),
        r.0.len() == r.1.len(),
        admits(l, x),
        admits(r, y),
    ensures
        ugt_model(l, r) matches Some(b) ==> (nat_of(x) > nat_of(y)) == b,
{
    law_unsigned_bounds(l, x);
    law_unsigned_bounds(r, y);
}

/// Every admitted value lies between the fact's smallest and largest
/// signed values.
pub proof fn law_signed_bounds(k: KnownBitsModel, x: Seq<bool>)
    requires
        k.0.len() == k.1.len(),
        k.0.len() > 0,
        admits(k, x),
    ensures
        int_of(signed_min_model(k)) <= int_of(x),
        int_of(x) <= int_of(signed_max_model(k)),
{
    let w = k.0.len();
    let s = w - 1;
    let f = flip_sign_model(k);
    let mask = range_mask(w as nat, s, w as int);
    law_admitted_has_no_conflict(k, x);
    lemma_admits_at(k, x, s);
    if k.0[s] {
        assert(k.0[s] && bit_at(mask, s));
        assert(!k.1[s]);
    }
    if k.1[s] {
        assert(k.1[s] && bit_at(mask, s));
        assert(!k.0[s]);
    }
    if seq_intersects(k.0, mask) {
        let i = choose|i: int| 0 <= i < k.0.len() && #[trigger] k.0[i] && bit_at(mask, i);
        assert(i == s);
    }
    if seq_intersects(k.1, mask) {
        let i = choose|i: int| 0 <= i < k.1.len() && #[trigger] k.1[i] && bit_at(mask, i);
        assert(i == s);
    }
    let mn = signed_min_model(k);
    let mx = signed_max_model(k);
    assert(seq_flip_msb(mn) =~= f.1);
    assert(seq_flip_msb(mx) =~= seq_not(f.0));
    lemma_flip_admits(k, x);
    law_unsigned_bounds(f, seq_flip_msb(x));
    lemma_flip_msb(mn);
    lemma_flip_msb(mx);
    lemma_flip_msb(x);
}

/// When the signed comparison transfer decides `lhs > rhs`, its answer is
/// right for every pair of admitted values.
pub proof fn law_sgt_sound(l: KnownBitsModel, r: KnownBitsModel, x: Seq<bool>, y: Seq<bool>)
    requires
        l.0.len() == l.1.len(),
        r.0.len() == r.1.len(),
        admits(l, x),
        admits(r, y),
    ensures
        sgt_model(l, r) matches Some(b) ==> (int_of(x) > int_of(y)) == b,
{
    if l.0.len() > 0 {
        law_signed_bounds(l, x);
    }
    if r.0.len() > 0 {
        law_signed_bounds(r, y);
    }
}

/// Sign-extending the low `src` bits of a value in place keeps what the
/// facts know of those bits and copies the facts of bit `src - 1` upward.
pub proof fn law_sext_in_reg_sound(k: KnownBitsModel, x: Seq<bool>, src: nat)
    requires
        k.0.len() == k.1.len(),
        admits(k, x),
        0 < src < x.len(),
    ensures
        ({
            let ext = (x.len() - src) as nat;
            admits((seq_ashr(seq_shl(k.0, ext), ext), seq_ashr(seq_shl(k.1, ext), ext)), seq_ashr(seq_shl(x, ext), ext))
        }),
{
    let ext = (x.len() - src) as nat;
    let z = seq_ashr(seq_shl(x, ext), ext);
    let r = (seq_ashr(seq_shl(k.0, ext), ext), seq_ashr(seq_shl(k.1, ext), ext));
    lemma_admits_at(k, x, src - 1);
    assert forall|i: int| 0 <= i < z.len() implies (r.0[i] ==> !z[i]) && (r.1[i] ==> z[i]) by {
        if i + ext < x.len() {
            lemma_admits_at(k, x, i);
        }
    }
}

/// The value whose only set bit is the lowest set bit of `x` (`x & -x`;
/// zero for zero).
pub open spec fn lowest_set_bit(x: Seq<bool>) -> Seq<bool> {
    Seq::new(x.len(), |i: int| x[i] && trailing(x, false) == i)
}

/// The value with every bit up to and including the lowest set bit of `x`
/// set (`x ^ (x - 1)`; all ones for zero).
pub open spec fn mask_through_lowest(x: Seq<bool>) -> Seq<bool> {
    Seq::new(x.len(), |i: int| i <= trailing(x, false))
}

/// The lowest set bit of an admitted value lies between the fact's fewest
/// and most possible trailing zeros.
pub proof fn lemma_trailing_between(k: KnownBitsModel, x: Seq<bool>)
    requires
        k.0.len() == k.1.len(),
        admits(k, x),
    ensures
        trailing(k.0, true) <= trailing(x, false),
        trailing(x, false) <= trailing(k.1, false),
{
    lemma_trailing_props(k.0, true);
    lemma_trailing_props(k.1, false);
    lemma_trailing_props(x, false);
    let t = trailing(x, false);
    if t < trailing(k.0, true) {
        lemma_admits_at(k, x, t as int);
    }
    let m = trailing(k.1, false);
    if m < t {
        lemma_admits_at(k, x, m as int);
    }
}

/// The isolate-lowest-bit transfer admits the lowest set bit of every
/// admitted value.
pub proof fn law_blsi_sound(k: KnownBitsModel, x: Seq<bool>)
    requires
        k.0.len() == k.1.len(),
        k.0.len() <= u32::MAX,
        admits(k, x),
    ensures
        ({
            let w = k.0.len();
            let max = trailing(k.1, false);
            let min = trailing(k.0, true);
            let from = min_nat(sat_add_u32(max, 1), w);
            admits((
                seq_or(k.0, range_mask(w, from as int, w as int)),
                if max == min && max < w { set_range(splat(w, false), max as int, max as int + 1) } else { splat(w, false) },
            ), lowest_set_bit(x))
        }),
{
    let w = k.0.len();
    let max = trailing(k.1, false);
    let min = trailing(k.0, true);
    lemma_trailing_between(k, x);
    lemma_trailing_props(k.1, false);
    if max < w {
        lemma_admits_at(k, x, max as int);
    }
    let z = lowest_set_bit(x);
    let from = min_nat(sat_add_u32(max, 1), w);
    let r = (
        seq_or(k.0, range_mask(w, from as int, w as int)),
        if max == min && max < w { set_range(splat(w, false), max as int, max as int + 1) } else { splat(w, false) },
    );
    assert forall|i: int| 0 <= i < z.len() implies (r.0[i] ==> !z[i]) && (r.1[i] ==> z[i]) by {
        lemma_admits_at(k, x, i);
    }
}

/// The mask-through-lowest-bit transfer admits that mask of every admitted
/// value.
pub proof fn law_blsmsk_sound(k: KnownBitsModel, x: Seq<bool>)
    requires
        k.0.len() == k.1.len(),
        k.0.len() <= u32::MAX,
        admits(k, x),
    ensures
        ({
            let w = k.0.len();
            let max = trailing(k.1, false);
            let min = trailing(k.0, true);
            admits((
                seq_or(splat(w, false), range_mask(w, min_nat(sat_add_u32(max, 1), w) as int, w as int)),
                set_low(splat(w, false), min_nat(sat_add_u32(min, 1), w)),
            ), mask_through_lowest(x))
        }),
{
    lemma_trailing_between(k, x);
    let w = k.0.len();
    let max = trailing(k.1, false);
    let min = trailing(k.0, true);
    let z = mask_through_lowest(x);
    let r = (
        seq_or(splat(w, false), range_mask(w, min_nat(sat_add_u32(max, 1), w) as int, w as int)),
        set_low(splat(w, false), min_nat(sat_add_u32(min, 1), w)),
    );
    assert forall|i: int| 0 <= i < z.len() implies (r.0[i] ==> !z[i]) && (r.1[i] ==> z[i]) by {
    }
}

/// Cutting or padding a bit string to `n` bits keeps a value below `2^n`.
pub proof fn lemma_resize_small(y: Seq<bool>, n: nat)
    requires
        nat_of(y) < pow2(n),
    ensures
        nat_of(seq_resize(y, n)) == nat_of(y),
{
    let v = nat_of(y);
    let t = seq_resize(y, n);
    assert forall|i: int| 0 <= i < n implies t[i] == from_nat(n, v)[i] by {
        if i < y.len() {
            lemma_nat_of_bit(y, i);
        } else {
            lemma_nat_of_bound(y);
            if i > y.len() {
                lemma_pow2_strictly_increases(y.len() as nat, i as nat);
            }
            lemma_pow2_pos(i as nat);
            lemma_basic_div(v as int, pow2(i as nat) as int);
        }
    }
    assert(t =~= from_nat(n, v));
    lemma_from_nat_small(n, v);
}

/// Bit `i` of `v / 2` is bit `i + 1` of `v`.
proof fn lemma_half_bit(v: nat, i: nat)
    ensures
        (v / 2 / pow2(i)) % 2 == (v / pow2(i + 1)) % 2,
{
    vstd::arithmetic::power2::lemma_pow2_pos(i);
    vstd::arithmetic::div_mod::lemma_div_denominator(v as int, 2, pow2(i) as int);
    vstd::arithmetic::power2::lemma_pow2_unfold(i + 1);
}

/// The unsigned average transfer admits the average of every pair of
/// admitted values, rounded down, or up with `is_ceil`.
pub proof fn law_avg_u_sound(l: KnownBitsModel, r: KnownBitsModel, x: Seq<bool>, y: Seq<bool>, is_ceil: bool)
    requires
        l.0.len() == l.1.len(),
        r.0.len() == r.1.len(),
        l.0.len() == r.0.len(),
        l.0.len() <= u32::MAX,
        admits(l, x),
        admits(r, y),
    ensures
        admits(avg_u_model(l, r, is_ceil), from_nat(x.len(), (nat_of(x) + nat_of(y) + bit_val(is_ceil)) / 2)),
{
    let w = x.len() as nat;
    let ww = sat_add_u32(w, 1);
    let xx = seq_resize(x, ww);
    let yy = seq_resize(y, ww);
    lemma_nat_of_bound(x);
    lemma_nat_of_bound(y);
    if ww > w {
        law_zext_sound(l, x, ww);
        law_zext_sound(r, y, ww);
        vstd::arithmetic::power2::lemma_pow2_strictly_increases(w, ww);
        lemma_resize_small(x, ww);
        lemma_resize_small(y, ww);
    } else {
        assert(zext_model(l, ww).0 =~= l.0);
        assert(zext_model(l, ww).1 =~= l.1);
        assert(zext_model(r, ww).0 =~= r.0);
        assert(zext_model(r, ww).1 =~= r.1);
        assert(xx =~= x);
        assert(yy =~= y);
    }
    let total = nat_of(x) + nat_of(y) + bit_val(is_ceil);
    law_add_carry_sound(zext_model(l, ww), zext_model(r, ww), !is_ceil, is_ceil, xx, yy, is_ceil);
    let sum = from_nat(ww, total);
    let s = add_carry_model(zext_model(l, ww), zext_model(r, ww), !is_ceil, is_ceil);
    let k = avg_u_model(l, r, is_ceil);
    let v = from_nat(w, total / 2);
    assert forall|i: int| 0 <= i < v.len() implies (k.0[i] ==> !v[i]) && (k.1[i] ==> v[i]) by {
        lemma_half_bit(total, i as nat);
        if i + 1 < ww {
            assert(s.0[i + 1] ==> !sum[i + 1]);
            assert(s.1[i + 1] ==> sum[i + 1]);
        }
    }
}

/// A bit string is the two's complement encoding of its signed value.
pub proof fn lemma_int_of_canonical(s: Seq<bool>)
    ensures
        s == from_int(s.len() as nat, int_of(s)),
{
    let q: int = if s.len() > 0 && s.last() { -1 } else { 0 };
    lemma_from_int_of_value(s, int_of(s), q);
}

/// The signed average transfer admits the average of every pair of
/// admitted values, rounded down, or up with `is_ceil`.
pub proof fn law_avg_s_sound(l: KnownBitsModel, r: KnownBitsModel, x: Seq<bool>, y: Seq<bool>, is_ceil: bool)
    requires
        l.0.len() == l.1.len(),
        r.0.len() == r.1.len(),
        l.0.len() == r.0.len(),
        l.0.len() <= u32::MAX,
        admits(l, x),
        admits(r, y),
    ensures
        admits(flip_sign_model(avg_u_model(flip_sign_model(l), flip_sign_model(r), is_ceil)),
            from_int(x.len() as nat, (int_of(x) + int_of(y) + bit_val(is_ceil)) / 2)),
{
    let w = x.len() as nat;
    if w > 0 {
        let h = pow2((w - 1) as nat) as int;
        let fx = seq_flip_msb(x);
        let fy = seq_flip_msb(y);
        lemma_flip_admits(l, x);
        lemma_flip_admits(r, y);
        lemma_flip_msb(x);
        lemma_flip_msb(y);
        lemma_nat_of_bound(fx);
        lemma_nat_of_bound(fy);
        crate::ap_int::lemma_msb_split(x);
        law_avg_u_sound(flip_sign_model(l), flip_sign_model(r), fx, fy, is_ceil);
        let q = (int_of(x) + int_of(y) + bit_val(is_ceil)) / 2;
        let total = nat_of(fx) + nat_of(fy) + bit_val(is_ceil);
        assert(total / 2 == q + h);
        let u = from_nat(w, total / 2);
        let a = avg_u_model(flip_sign_model(l), flip_sign_model(r), is_ceil);
        lemma_from_nat_small(w, total / 2);
        lemma_flip_admits(a, u);
        let fu = seq_flip_msb(u);
        lemma_flip_msb(fu);
        assert(seq_flip_msb(fu) =~= u);
        lemma_int_of_canonical(fu);
    }
}

/// The unsigned saturating addition transfer admits the saturated sum of
/// every pair of admitted values.
pub proof fn law_uadd_sat_sound(l: KnownBitsModel, r: KnownBitsModel, x: Seq<bool>, y: Seq<bool>)
    requires
        l.0.len() == l.1.len(),
        r.0.len() == r.1.len(),
        l.0.len() == r.0.len(),
        admits(l, x),
        admits(r, y),
    ensures
        admits(sat_add_sub_model(true, false, l, r), seq_uadd_sat(x, y)),
{
    let w = x.len() as nat;
    let z = seq_uadd_sat(x, y);
    let k = sat_add_sub_model(true, false, l, r);
    law_unsigned_bounds(l, x);
    law_unsigned_bounds(r, y);
    if nat_of(x) + nat_of(y) < pow2(w) {
        law_add_nuw_sound(l, r, x, y);
        let res = add_sub_model(true, false, true, l, r);
        assert forall|i: int| 0 <= i < z.len() implies (k.0[i] ==> !z[i]) && (k.1[i] ==> z[i]) by {
            lemma_admits_at(res, z, i);
        }
    } else {
        assert forall|i: int| 0 <= i < z.len() implies (k.0[i] ==> !z[i]) && (k.1[i] ==> z[i]) by {
        }
    }
}

/// The unsigned saturating subtraction transfer admits the saturated
/// difference of every pair of admitted values.
pub proof fn law_usub_sat_sound(l: KnownBitsModel, r: KnownBitsModel, x: Seq<bool>, y: Seq<bool>)
    requires
        l.0.len() == l.1.len(),
        r.0.len() == r.1.len(),
        l.0.len() == r.0.len(),
        admits(l, x),
        admits(r, y),
    ensures
        admits(sat_add_sub_model(false, false, l, r), seq_usub_sat(x, y)),
{
    let w = x.len() as nat;
    let z = seq_usub_sat(x, y);
    let k = sat_add_sub_model(false, false, l, r);
    law_unsigned_bounds(l, x);
    law_unsigned_bounds(r, y);
    if nat_of(x) >= nat_of(y) {
        law_sub_nuw_sound(l, r, x, y);
        let res = add_sub_model(false, false, true, l, r);
        assert forall|i: int| 0 <= i < z.len() implies (k.0[i] ==> !z[i]) && (k.1[i] ==> z[i]) by {
            lemma_admits_at(res, z, i);
        }
    } else {
        assert forall|i: int| 0 <= i < z.len() implies (k.0[i] ==> !z[i]) && (k.1[i] ==> z[i]) by {
        }
    }
}

/// A bit string whose value is zero has every bit clear.
proof fn lemma_zero_value_is_clear(v: Seq<bool>)
    requires
        nat_of(v) == 0,
    ensures
        v == splat(v.len(), false),
{
    lemma_nat_of_zero_iff(v);
    assert(v =~= splat(v.len(), false));
}

/// The unsigned division transfer admits the quotient of every pair of
/// admitted values with a non-zero divisor.
pub proof fn law_udiv_sound(l: KnownBitsModel, r: KnownBitsModel, x: Seq<bool>, y: Seq<bool>)
    requires
        l.0.len() == l.1.len(),
        r.0.len() == r.1.len(),
        l.0.len() == r.0.len(),
        admits(l, x),
        admits(r, y),
        nat_of(y) != 0,
    ensures
        admits(udiv_model(l, r, false), crate::ap_int::seq_udiv(x, y)),
{
    let w = x.len() as nat;
    let q = nat_of(x) / nat_of(y);
    let v = crate::ap_int::seq_udiv(x, y);
    vstd::arithmetic::div_mod::lemma_div_is_ordered_by_denominator(nat_of(x) as int, 1, nat_of(y) as int);
    lemma_nat_of_bound(x);
    lemma_from_nat_small(w, q);
    law_unsigned_bounds(l, x);
    law_unsigned_bounds(r, y);
    if all_true(l.0) {
        assert forall|i: int| 0 <= i < x.len() implies !x[i] by {
            lemma_admits_at(l, x, i);
        }
        lemma_nat_of_all_false(x);
        lemma_zero_value_is_clear(v);
        law_constant_admits_exactly(splat(w, false), v);
    } else if all_true(r.0) {
        assert forall|i: int| 0 <= i < y.len() implies !y[i] by {
            lemma_admits_at(r, y, i);
        }
        lemma_nat_of_all_false(y);
    } else {
        let max_num = seq_not(l.0);
        let max_res = if all_false(r.1) { max_num } else { crate::ap_int::seq_udiv(max_num, r.1) };
        if !all_false(r.1) {
            lemma_nat_of_zero_iff(r.1);
            vstd::arithmetic::div_mod::lemma_div_is_ordered_by_denominator(nat_of(x) as int, nat_of(r.1) as int, nat_of(y) as int);
            vstd::arithmetic::div_mod::lemma_div_is_ordered(nat_of(x) as int, nat_of(max_num) as int, nat_of(r.1) as int);
            lemma_nat_of_bound(max_num);
            vstd::arithmetic::div_mod::lemma_div_is_ordered_by_denominator(nat_of(max_num) as int, 1, nat_of(r.1) as int);
            lemma_from_nat_small(w, nat_of(max_num) / nat_of(r.1));
        }
        assert(nat_of(v) <= nat_of(max_res));
        lemma_top_zero_below(v, max_res);
        let k = udiv_model(l, r, false);
        assert forall|i: int| 0 <= i < v.len() implies (k.0[i] ==> !v[i]) && (k.1[i] ==> v[i]) by {
        }
    }
}

/// Bits below `t` of a number depend only on its value modulo `2^t`.
pub proof fn lemma_low_bits_mod(n: nat, t: nat, i: int)
    requires
        0 <= i < t,
    ensures
        ((n / pow2(i as nat)) % 2 == 1) == (((n % pow2(t)) / pow2(i as nat)) % 2 == 1),
{
    crate::bitseq::lemma_from_nat_mod(t, n);
    assert(from_nat(t, n)[i] == from_nat(t, n % pow2(t))[i]);
}

/// A set bit counts towards the number of set bits.
pub proof fn lemma_popcount_pos(s: Seq<bool>, a: int)
    requires
        0 <= a < s.len(),
        s[a],
    ensures
        popcount(s) >= 1,
    decreases s.len(),
{
    if a < s.len() - 1 {
        lemma_popcount_pos(s.drop_last(), a);
    }
}

/// Two different set bits count as two.
pub proof fn lemma_popcount_two(s: Seq<bool>, a: int, b: int)
    requires
        0 <= a < b < s.len(),
        s[a],
        s[b],
    ensures
        popcount(s) >= 2,
    decreases s.len(),
{
    let t = s.drop_last();
    if b == s.len() - 1 {
        lemma_popcount_pos(t, a);
    } else {
        lemma_popcount_two(t, a, b);
    }
}

/// A bit string with exactly one set bit, at `k`, has value `2^k`; one
/// less than it has exactly the bits below `k` set.
pub proof fn lemma_single_bit(y: Seq<bool>, k: nat)
    requires
        k < y.len(),
        y[k as int],
        forall|j: int| 0 <= j < y.len() && j != k ==> !#[trigger] y[j],
    ensures
        nat_of(y) == pow2(k),
        nat_of(range_mask(y.len() as nat, 0, k as int)) + 1 == pow2(k),
{
    let w = y.len() as nat;
    lemma_nat_of_split(y, k as int);
    assert forall|j: int| 0 <= j < y.take(k as int).len() implies !y.take(k as int)[j] by {
        assert(y.take(k as int)[j] == y[j]);
    }
    lemma_nat_of_all_false(y.take(k as int));
    let hi = y.skip(k as int);
    crate::bitseq::lemma_nat_of_low_bit(hi);
    assert forall|j: int| 0 <= j < hi.skip(1).len() implies !hi.skip(1)[j] by {
        assert(hi.skip(1)[j] == y[k + 1 + j]);
    }
    lemma_nat_of_all_false(hi.skip(1));
    assert(nat_of(hi) == 1);
    let m = range_mask(w, 0, k as int);
    lemma_nat_of_split(m, k as int);
    assert(m.take(k as int) =~= splat(k, true));
    crate::ap_int::lemma_nat_of_all_ones(k);
    assert forall|j: int| 0 <= j < m.skip(k as int).len() implies !m.skip(k as int)[j] by {
    }
    lemma_nat_of_all_false(m.skip(k as int));
}

/// The unsigned remainder transfer admits the remainder of every pair of
/// admitted values with a non-zero divisor.
pub proof fn law_urem_sound(l: KnownBitsModel, r: KnownBitsModel, x: Seq<bool>, y: Seq<bool>)
    requires
        l.0.len() == l.1.len(),
        r.0.len() == r.1.len(),
        l.0.len() == r.0.len(),
        admits(l, x),
        admits(r, y),
        nat_of(y) != 0,
    ensures
        admits(urem_model(l, r), from_nat(x.len() as nat, nat_of(x) % nat_of(y))),
{
    let w = x.len() as nat;
    let xv = nat_of(x);
    let yv = nat_of(y);
    let rm = xv % yv;
    let v = from_nat(w, rm);
    vstd::arithmetic::div_mod::lemma_mod_pos_bound(xv as int, yv as int);
    vstd::arithmetic::div_mod::lemma_fundamental_div_mod(xv as int, yv as int);
    lemma_nat_of_bound(y);
    lemma_nat_of_bound(x);
    lemma_from_nat_small(w, rm);
    // rm is at most both the dividend and the divisor less one.
    if xv < yv {
        vstd::arithmetic::div_mod::lemma_small_mod(xv, yv);
    } else {
        vstd::arithmetic::div_mod::lemma_div_pos_is_pos(xv as int, yv as int);
        assert(yv * (xv / yv) >= yv) by (nonlinear_arith)
            requires
                xv / yv >= 1,
                yv > 0,
        ;
    }
    assert(rm <= xv);
    // The low bits below the divisor's known trailing zeros.
    let known = rem_low_bits_model(l, r);
    if !all_true(r.0) && bit_at(r.0, 0) {
        let t = trailing(r.0, true);
        lemma_trailing_props(r.0, true);
        let p = pow2(t);
        lemma_pow2_pos(t);
        lemma_nat_of_split(y, t as int);
        assert forall|j: int| 0 <= j < y.take(t as int).len() implies !y.take(t as int)[j] by {
            lemma_admits_at(r, y, j);
        }
        lemma_nat_of_all_false(y.take(t as int));
        let yh = nat_of(y.skip(t as int));
        let qq = xv / yv;
        assert(xv == p * (yh * qq) + rm) by (nonlinear_arith)
            requires
                yv == p * yh,
                xv == yv * qq + rm,
        ;
        vstd::arithmetic::div_mod::lemma_mod_multiples_vanish((yh * qq) as int, rm as int, p as int);
        assert(xv % p == rm % p);
        assert forall|i: int| 0 <= i < t implies x[i] == v[i] by {
            lemma_nat_of_bit(x, i);
            lemma_low_bits_mod(xv, t, i);
            lemma_low_bits_mod(rm, t, i);
        }
        assert forall|i: int| 0 <= i < v.len() implies (known.0[i] ==> !v[i]) && (known.1[i] ==> v[i]) by {
            if i < t {
                lemma_admits_at(l, x, i);
            }
        }
    }
    assert(admits(known, v));
    let k = urem_model(l, r);
    if const_pow2_divisor(r) {
        lemma_constant_admits_only(r, y);
        let kk = trailing(y, false);
        lemma_trailing_props(y, false);
        lemma_nat_of_zero_iff(y);
        if kk >= w {
            assert(all_false(y));
        }
        assert forall|j: int| 0 <= j < y.len() && j != kk implies !#[trigger] y[j] by {
            if y[j] {
                if j < kk {
                } else {
                    lemma_popcount_two(y, kk as int, j);
                }
            }
        }
        lemma_single_bit(y, kk);
        let one = crate::known_bits::one_at(w);
        crate::bitseq::lemma_from_nat_small(w, 1);
        lemma_sub_no_wrap(y, one);
        let d = seq_sub(r.1, one);
        let m = range_mask(w, 0, kk as int);
        lemma_nat_of_injective(d, m);
        assert forall|i: int| 0 <= i < v.len() implies (k.0[i] ==> !v[i]) && (k.1[i] ==> v[i]) by {
            if i >= kk {
                lemma_nat_of_bit(v, i);
                if i > kk {
                    lemma_pow2_strictly_increases(kk, i as nat);
                }
                lemma_pow2_pos(i as nat);
                lemma_basic_div(rm as int, pow2(i as nat) as int);
            }
        }
    } else {
        let a = leading(l.0, true);
        let b = leading(r.0, true);
        law_unsigned_bounds(l, x);
        law_unsigned_bounds(r, y);
        lemma_top_zero_below(v, seq_not(l.0));
        lemma_top_zero_below(v, seq_not(r.0));
        lemma_leading_not(l.0);
        lemma_leading_not(r.0);
        assert forall|i: int| 0 <= i < v.len() implies (k.0[i] ==> !v[i]) && (k.1[i] ==> v[i]) by {
        }
    }
}

/// Flipping the sign bits of both operands leaves their wrapping
/// difference unchanged.
proof fn lemma_sub_flip(x: Seq<bool>, y: Seq<bool>)
    requires
        x.len() == y.len(),
        x.len() > 0,
    ensures
        seq_sub(seq_flip_msb(x), seq_flip_msb(y)) == seq_sub(x, y),
{
    let w = x.len() as nat;
    let p = pow2(w) as int;
    lemma_flip_msb(x);
    lemma_flip_msb(y);
    crate::ap_int::lemma_msb_split(x);
    crate::ap_int::lemma_msb_split(y);
    lemma_nat_of_bound(seq_flip_msb(x));
    lemma_nat_of_bound(seq_flip_msb(y));
    lemma_nat_of_bound(x);
    lemma_nat_of_bound(y);
    let a1 = nat_of(x) + p - nat_of(y);
    let a2 = nat_of(seq_flip_msb(x)) + p - nat_of(seq_flip_msb(y));
    let k: int = (if x.last() { 1int } else { 0 }) - (if y.last() { 1int } else { 0 });
    assert(nat_of(x) == int_of(x) + (if x.last() { p } else { 0 }));
    assert(nat_of(y) == int_of(y) + (if y.last() { p } else { 0 }));
    assert(p * k == (if x.last() { p } else { 0 }) - (if y.last() { p } else { 0 })) by (nonlinear_arith)
        requires
            k == (if x.last() { 1int } else { 0 }) - (if y.last() { 1int } else { 0 }),
    ;
    assert(a1 == p * k + a2);
    vstd::arithmetic::div_mod::lemma_mod_multiples_vanish(k, a2, p);
    lemma_from_nat_mod(w, a1 as nat);
    lemma_from_nat_mod(w, a2 as nat);
}

/// The signed absolute difference transfer admits `|x - y|` (taken as the
/// wrapping difference of the larger and the smaller, in signed order) for
/// every `x` and `y` the facts admit.
pub proof fn law_abds_sound(l: KnownBitsModel, r: KnownBitsModel, x: Seq<bool>, y: Seq<bool>)
    requires
        l.0.len() == l.1.len(),
        r.0.len() == r.1.len(),
        l.0.len() == r.0.len(),
        admits(l, x),
        admits(r, y),
    ensures
        admits(abds_model(l, r), if int_of(x) >= int_of(y) { seq_sub(x, y) } else { seq_sub(y, x) }),
{
    let w = x.len();
    if w == 0 {
        law_sub_sound(l, r, x, y);
        assert(signed_min_model(l) =~= splat(0, false));
        assert(signed_max_model(r) =~= splat(0, false));
    } else {
        law_signed_bounds(l, x);
        law_signed_bounds(r, y);
        if int_of(signed_min_model(l)) >= int_of(signed_max_model(r)) {
            law_sub_sound(l, r, x, y);
        } else if int_of(signed_min_model(r)) >= int_of(signed_max_model(l)) {
            law_sub_sound(r, l, y, x);
            if int_of(x) >= int_of(y) {
                lemma_int_of_canonical(x);
                lemma_int_of_canonical(y);
            }
        } else {
            let fl = flip_sign_model(l);
            let fr = flip_sign_model(r);
            let fx = seq_flip_msb(x);
            let fy = seq_flip_msb(y);
            lemma_flip_admits(l, x);
            lemma_flip_admits(r, y);
            lemma_flip_msb(x);
            lemma_flip_msb(y);
            if int_of(x) >= int_of(y) {
                law_sub_nuw_sound(fl, fr, fx, fy);
                lemma_sub_flip(x, y);
                law_intersect_sound(add_sub_model(false, false, true, fl, fr), add_sub_model(false, false, true, fr, fl), seq_sub(x, y));
            } else {
                law_sub_nuw_sound(fr, fl, fy, fx);
                lemma_sub_flip(y, x);
                law_intersect_sound(add_sub_model(false, false, true, fl, fr), add_sub_model(false, false, true, fr, fl), seq_sub(y, x));
            }
        }
    }
}

} // verus!
