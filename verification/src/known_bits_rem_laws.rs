//! Soundness of the known-bits signed division and remainder transfers.

use vstd::prelude::*;
use vstd::arithmetic::power2::{pow2, lemma_pow2_pos, lemma_pow2_adds, lemma_pow2_strictly_increases};
use vstd::arithmetic::div_mod::{lemma_mod_multiples_vanish, lemma_small_mod, lemma_fundamental_div_mod, lemma_mod_pos_bound};
use crate::ap_int::{trunc_div, lemma_msb_split};
use crate::bitseq::{
    nat_of, from_int, int_of, splat, range_mask, leading, all_false, seq_not, bit_at,
    lemma_nat_of_split, lemma_nat_of_all_false, lemma_leading_props, lemma_leading_char,
    lemma_nat_of_bound, lemma_nat_of_zero_iff, trailing, lemma_trailing_props,
};
use crate::known_bits::{
    KnownBitsModel, admits, srem_model, rem_low_bits_model, const_pow2_divisor, negative_model,
    non_negative_model, min_sign_bits_model, one_at,
};
use crate::known_bits_laws::{lemma_admits_at, lemma_top_one_above, lemma_low_bits_mod};
use crate::known_bits_signed_laws::{half_range, lemma_nat_int, lemma_high_mask_value};
use crate::known_bits_sum_laws::{lemma_small_high_clear, lemma_high_clear_small, lemma_high_set_large};

verus! {

/// `|v|`.
pub open spec fn magnitude(v: int) -> int {
    if v < 0 { -v } else { v }
}

/// The truncating remainder of `x` by `y`.
pub open spec fn trunc_rem(x: int, y: int) -> int {
    x - trunc_div(x, y) * y
}

/// The signed remainder of `a` by `b`, at the width of `a`.
pub open spec fn seq_srem(a: Seq<bool>, b: Seq<bool>) -> Seq<bool> {
    from_int(a.len() as nat, trunc_rem(int_of(a), int_of(b)))
}

/// The truncating remainder takes the sign of the dividend and the
/// magnitude of the remainder of the magnitudes.
proof fn lemma_trunc_rem(x: int, y: int)
    requires
        y != 0,
    ensures
        trunc_rem(x, y) == (if x < 0 { -(magnitude(x) % magnitude(y)) } else { magnitude(x) % magnitude(y) }),
        0 <= magnitude(x) % magnitude(y) < magnitude(y),
        magnitude(x) % magnitude(y) <= magnitude(x),
{
    let ax = magnitude(x);
    let ay = magnitude(y);
    let qq = ax / ay;
    let rr = ax % ay;
    lemma_fundamental_div_mod(ax, ay);
    lemma_mod_pos_bound(ax, ay);
    vstd::arithmetic::div_mod::lemma_div_pos_is_pos(ax, ay);
    assert(ay * qq >= 0) by (nonlinear_arith)
        requires
            ay > 0,
            qq >= 0,
    ;
    let q = trunc_div(x, y);
    assert(q * y == (if x < 0 { -(ay * qq) } else { ay * qq })) by (nonlinear_arith)
        requires
            q == (if (x < 0) != (y < 0) { -qq } else { qq }),
            ay == (if y < 0 { -y } else { y }),
    ;
}

/// A value whose top `a >= 1` bits are clear is non-negative and below
/// `2^(w-a)`.
proof fn lemma_top_clear_bound(x: Seq<bool>, a: nat)
    requires
        1 <= a <= x.len(),
        forall|j: int| x.len() - a <= j < x.len() ==> !#[trigger] x[j],
    ensures
        0 <= int_of(x) < pow2((x.len() - a) as nat),
{
    lemma_high_clear_small(x, (x.len() - a) as nat);
    assert(!x[x.len() - 1]);
}

/// A value whose top `a >= 1` bits are set is negative and at least
/// `-2^(w-a)`.
proof fn lemma_top_set_bound(x: Seq<bool>, a: nat)
    requires
        1 <= a <= x.len(),
        forall|j: int| x.len() - a <= j < x.len() ==> #[trigger] x[j],
    ensures
        -pow2((x.len() - a) as nat) <= int_of(x) < 0,
{
    lemma_high_set_large(x, (x.len() - a) as nat);
    assert(x[x.len() - 1]);
    lemma_nat_of_bound(x);
}

/// Every admitted value's magnitude is at most `2^(w - b)`, for `b` the
/// fact's fewest sign bits.
proof fn lemma_sign_bits_bound(k: KnownBitsModel, y: Seq<bool>)
    requires
        k.0.len() == k.1.len(),
        y.len() > 0,
        admits(k, y),
    ensures
        1 <= min_sign_bits_model(k) <= y.len(),
        magnitude(int_of(y)) <= pow2((y.len() - min_sign_bits_model(k)) as nat),
{
    let w = y.len() as nat;
    if non_negative_model(k) {
        lemma_leading_props(k.0, true);
        assert forall|j: int| w - leading(k.0, true) <= j < w implies !#[trigger] y[j] by {
            lemma_admits_at(k, y, j);
        }
        lemma_top_clear_bound(y, leading(k.0, true));
    } else if negative_model(k) {
        lemma_leading_props(k.1, true);
        assert forall|j: int| w - leading(k.1, true) <= j < w implies #[trigger] y[j] by {
            lemma_admits_at(k, y, j);
        }
        lemma_top_set_bound(y, leading(k.1, true));
    } else {
        lemma_msb_split(y);
    }
}

/// The remainder agrees with the dividend below the divisor's known
/// trailing zeros.
proof fn lemma_srem_low_bits(l: KnownBitsModel, r: KnownBitsModel, x: Seq<bool>, y: Seq<bool>)
    requires
        l.0.len() == l.1.len(),
        r.0.len() == r.1.len(),
        l.0.len() == r.0.len(),
        x.len() > 0,
        admits(l, x),
        admits(r, y),
        int_of(y) != 0,
        crate::known_bits_signed_laws::in_signed_range(x.len() as nat, trunc_rem(int_of(x), int_of(y))),
    ensures
        admits(rem_low_bits_model(l, r), seq_srem(x, y)),
{
    let w = x.len() as nat;
    let v = seq_srem(x, y);
    let rem = trunc_rem(int_of(x), int_of(y));
    crate::known_bits_signed_laws::lemma_int_of_from_int(w, rem);
    let known = rem_low_bits_model(l, r);
    if !crate::bitseq::all_true(r.0) && bit_at(r.0, 0) {
        let t = trailing(r.0, true);
        lemma_trailing_props(r.0, true);
        if t >= w {
            assert(crate::bitseq::all_true(r.0));
        }
        let p = pow2(t) as int;
        lemma_pow2_pos(t);
        lemma_nat_of_split(y, t as int);
        assert forall|j: int| 0 <= j < y.take(t as int).len() implies !y.take(t as int)[j] by {
            lemma_admits_at(r, y, j);
        }
        lemma_nat_of_all_false(y.take(t as int));
        let y0 = nat_of(y.skip(t as int)) as int;
        lemma_nat_int(y);
        lemma_nat_int(x);
        lemma_nat_int(v);
        lemma_pow2_adds(t, (w - t) as nat);
        let pw = pow2(w) as int;
        let pr = pow2((w - t) as nat) as int;
        let sy: int = if y.last() { 1 } else { 0 };
        let sx: int = if x.last() { 1 } else { 0 };
        let sv: int = if v.last() { 1 } else { 0 };
        let q = trunc_div(int_of(x), int_of(y));
        let aa = q * (y0 - sy * pr);
        let bb = (sv - sx) * pr;
        let mm: int = -aa + bb;
        assert(sv * pw - sx * pw == (sv - sx) * pw) by (nonlinear_arith);
        assert(int_of(y) == p * (y0 - sy * pr)) by (nonlinear_arith)
            requires
                nat_of(y) == p * y0,
                int_of(y) == nat_of(y) - sy * pw,
                pw == p * pr,
        ;
        assert(q * int_of(y) == p * aa) by (nonlinear_arith)
            requires
                int_of(y) == p * (y0 - sy * pr),
                aa == q * (y0 - sy * pr),
        ;
        assert((sv - sx) * pw == p * bb) by (nonlinear_arith)
            requires
                pw == p * pr,
                bb == (sv - sx) * pr,
        ;
        assert(p * mm == -(p * aa) + p * bb) by (nonlinear_arith)
            requires
                mm == -aa + bb,
        ;
        assert(nat_of(v) == nat_of(x) + p * mm);
        lemma_mod_multiples_vanish(mm, nat_of(x) as int, p);
        assert forall|i: int| 0 <= i < v.len() implies (known.0[i] ==> !v[i]) && (known.1[i] ==> v[i]) by {
            if i < t {
                crate::bitseq::lemma_nat_of_bit(v, i);
                crate::bitseq::lemma_nat_of_bit(x, i);
                lemma_low_bits_mod(nat_of(v), t, i);
                lemma_low_bits_mod(nat_of(x), t, i);
                lemma_admits_at(l, x, i);
            }
        }
    }
}

/// `2^a <= 2^b` for `a <= b`.
proof fn lemma_pow2_le(a: nat, b: nat)
    requires
        a <= b,
    ensures
        pow2(a) <= pow2(b),
{
    if a < b {
        lemma_pow2_strictly_increases(a, b);
    }
}

/// A value with a set bit below `k` is not a multiple of `2^k`, nor is its
/// negation.
proof fn lemma_low_bit_not_multiple(x: Seq<bool>, k: nat, i: int)
    requires
        0 <= i < k <= x.len(),
        x[i],
    ensures
        (nat_of(x) as int) % (pow2(k) as int) != 0,
        (pow2(x.len() as nat) - nat_of(x)) % (pow2(k) as int) != 0,
{
    let w = x.len() as nat;
    let p = pow2(k) as int;
    lemma_pow2_pos(k);
    crate::bitseq::lemma_nat_of_bit(x, i);
    lemma_low_bits_mod(nat_of(x), k, i);
    if (nat_of(x) as int) % p == 0 {
        assert(0nat / pow2(i as nat) == 0) by {
            lemma_pow2_pos(i as nat);
            vstd::arithmetic::div_mod::lemma_div_basics(pow2(i as nat) as int);
        }
    }
    let d = pow2(w) - nat_of(x);
    if d % p == 0 {
        lemma_pow2_adds(k, (w - k) as nat);
        let c = d / p;
        lemma_fundamental_div_mod(d, p);
        let e = pow2((w - k) as nat) as int;
        assert(nat_of(x) == p * (e - c)) by (nonlinear_arith)
            requires
                d == p * c,
                d == pow2(w) - nat_of(x),
                pow2(w) == p * e,
        ;
        vstd::arithmetic::div_mod::lemma_mod_multiples_basic(e - c, p);
        assert((e - c) * p == p * (e - c)) by (nonlinear_arith);
        assert(0nat / pow2(i as nat) == 0) by {
            lemma_pow2_pos(i as nat);
            vstd::arithmetic::div_mod::lemma_div_basics(pow2(i as nat) as int);
        }
    }
}

/// The signed remainder transfer admits the truncating remainder of every
/// pair of admitted values with a non-zero divisor.
pub proof fn law_srem_sound(l: KnownBitsModel, r: KnownBitsModel, x: Seq<bool>, y: Seq<bool>)
    requires
        l.0.len() == l.1.len(),
        r.0.len() == r.1.len(),
        l.0.len() == r.0.len(),
        x.len() > 0,
        admits(l, x),
        admits(r, y),
        int_of(y) != 0,
    ensures
        admits(srem_model(l, r), seq_srem(x, y)),
{
    let w = x.len() as nat;
    let sgn = w - 1;
    let h = half_range(w);
    let ix = int_of(x);
    let iy = int_of(y);
    let rem = trunc_rem(ix, iy);
    let v = seq_srem(x, y);
    let pw = pow2(w) as int;
    lemma_trunc_rem(ix, iy);
    lemma_msb_split(x);
    lemma_msb_split(y);
    vstd::arithmetic::power2::lemma_pow2_unfold(w);
    lemma_pow2_pos(sgn as nat);
    assert(crate::known_bits_signed_laws::in_signed_range(w, rem));
    crate::known_bits_signed_laws::lemma_int_of_from_int(w, rem);
    lemma_nat_int(v);
    lemma_msb_split(v);
    lemma_srem_low_bits(l, r, x, y);
    let known = rem_low_bits_model(l, r);
    let k = srem_model(l, r);
    lemma_admits_at(l, x, sgn as int);
    if const_pow2_divisor(r) {
        crate::known_bits_laws::lemma_constant_admits_only(r, y);
        let kk = trailing(y, false);
        lemma_trailing_props(y, false);
        lemma_nat_of_zero_iff(y);
        if kk >= w {
            assert(all_false(y));
        }
        assert forall|j: int| 0 <= j < y.len() && j != kk implies !#[trigger] y[j] by {
            if y[j] && j > kk {
                crate::known_bits_laws::lemma_popcount_two(y, kk as int, j);
            }
        }
        crate::known_bits_laws::lemma_single_bit(y, kk);
        let one = one_at(w);
        crate::bitseq::lemma_from_nat_small(w, 1);
        crate::known_bits_laws::lemma_sub_no_wrap(y, one);
        let low = crate::ap_int::seq_sub(r.1, one);
        crate::bitseq::lemma_nat_of_injective(low, range_mask(w, 0, kk as int));
        let pk = pow2(kk) as int;
        lemma_pow2_pos(kk);
        assert(magnitude(iy) == pk) by {
            if kk == sgn {
                assert(y.last());
            } else {
                assert(!y.last());
                assert(y.drop_last() =~= y.take(sgn as int));
                lemma_pow2_strictly_increases(kk, sgn as nat);
            }
        }
        let zero_high = non_negative_model(l) || (forall|i: int| 0 <= i < low.len() && #[trigger] low[i] ==> bit_at(l.0, i));
        if zero_high {
            if non_negative_model(l) {
                lemma_small_high_clear(v, kk);
            } else {
                lemma_nat_of_split(x, kk as int);
                assert forall|j: int| 0 <= j < x.take(kk as int).len() implies !x.take(kk as int)[j] by {
                    assert(low[j]);
                    lemma_admits_at(l, x, j);
                }
                lemma_nat_of_all_false(x.take(kk as int));
                let x1 = nat_of(x.skip(kk as int)) as int;
                lemma_pow2_adds(kk, (w - kk) as nat);
                let e = pow2((w - kk) as nat) as int;
                let sx: int = if x.last() { 1 } else { 0 };
                let c: int = x1 - sx * e;
                assert(ix == pk * c) by (nonlinear_arith)
                    requires
                        nat_of(x) == pk * x1,
                        ix == nat_of(x) - sx * pw,
                        pw == pk * e,
                        c == x1 - sx * e,
                ;
                assert(magnitude(ix) == pk * magnitude(c)) by (nonlinear_arith)
                    requires
                        ix == pk * c,
                        pk > 0,
                ;
                vstd::arithmetic::div_mod::lemma_mod_multiples_basic(magnitude(c), pk);
                assert(magnitude(c) * pk == pk * magnitude(c)) by (nonlinear_arith);
                assert(rem == 0);
                lemma_nat_of_zero_iff(v);
            }
        }
        let one_high = negative_model(l) && crate::bitseq::seq_intersects(low, l.1);
        if one_high {
            let i = choose|i: int| 0 <= i < low.len() && #[trigger] low[i] && bit_at(l.1, i);
            lemma_admits_at(l, x, i);
            lemma_low_bit_not_multiple(x, kk, i);
            assert(magnitude(ix) == pw - nat_of(x));
            let mm = range_mask(w, kk as int, w as int);
            lemma_high_mask_value(w, kk);
            lemma_leading_char(mm, true, (w - kk) as nat);
            lemma_top_one_above(v, mm);
        }
        assert forall|i: int| 0 <= i < v.len() implies (k.0[i] ==> !v[i]) && (k.1[i] ==> v[i]) by {
            lemma_admits_at(known, v, i);
        }
    } else if negative_model(l) && !all_false(known.1) {
        let i = choose|i: int| 0 <= i < known.1.len() && known.1[i];
        lemma_admits_at(known, v, i);
        lemma_nat_of_zero_iff(v);
        let a = leading(l.1, true);
        lemma_leading_props(l.1, true);
        assert forall|j: int| w - a <= j < w implies #[trigger] x[j] by {
            lemma_admits_at(l, x, j);
        }
        lemma_top_set_bound(x, a);
        lemma_sign_bits_bound(r, y);
        let b = min_sign_bits_model(r);
        let m = if a > b { a } else { b };
        lemma_pow2_le((w - m) as nat, (w - a) as nat);
        lemma_pow2_le((w - m) as nat, (w - b) as nat);
        assert(rem >= -pow2((w - m) as nat));
        let mm = range_mask(w, (w - m) as int, w as int);
        lemma_high_mask_value(w, (w - m) as nat);
        lemma_leading_char(mm, true, m);
        lemma_top_one_above(v, mm);
        assert forall|i: int| 0 <= i < v.len() implies (k.0[i] ==> !v[i]) && (k.1[i] ==> v[i]) by {
            lemma_admits_at(known, v, i);
        }
    } else if non_negative_model(l) {
        let a = leading(l.0, true);
        lemma_leading_props(l.0, true);
        assert forall|j: int| w - a <= j < w implies !#[trigger] x[j] by {
            lemma_admits_at(l, x, j);
        }
        lemma_top_clear_bound(x, a);
        lemma_sign_bits_bound(r, y);
        let b = min_sign_bits_model(r);
        let m = if a > b { a } else { b };
        lemma_pow2_le((w - m) as nat, (w - a) as nat);
        lemma_pow2_le((w - m) as nat, (w - b) as nat);
        assert(rem < pow2((w - m) as nat));
        lemma_small_high_clear(v, (w - m) as nat);
        assert forall|i: int| 0 <= i < v.len() implies (k.0[i] ==> !v[i]) && (k.1[i] ==> v[i]) by {
            lemma_admits_at(known, v, i);
        }
    }
}

/// The signed bounds of a fact with a known sign bit have that sign.
proof fn lemma_signed_model_signs(k: KnownBitsModel, x: Seq<bool>)
    requires
        k.0.len() == k.1.len(),
        x.len() > 0,
        admits(k, x),
    ensures
        negative_model(k) ==> int_of(crate::known_bits::signed_min_model(k)) < 0 && int_of(crate::known_bits::signed_max_model(k)) < 0,
        non_negative_model(k) ==> int_of(crate::known_bits::signed_min_model(k)) >= 0 && int_of(crate::known_bits::signed_max_model(k)) >= 0,
{
    let w = x.len() as nat;
    let sgn = w - 1;
    let mask = range_mask(w, sgn as int, w as int);
    crate::known_bits_laws::law_admitted_has_no_conflict(k, x);
    let mn = crate::known_bits::signed_min_model(k);
    let mx = crate::known_bits::signed_max_model(k);
    if k.0[sgn as int] {
        assert(k.0[sgn as int] && bit_at(mask, sgn as int));
    }
    if k.1[sgn as int] {
        assert(k.1[sgn as int] && bit_at(mask, sgn as int));
    }
    if k.0[sgn as int] && k.1[sgn as int] {
        assert(k.0[sgn as int] && bit_at(k.1, sgn as int));
    }
    if crate::bitseq::seq_intersects(k.0, mask) {
        let i = choose|i: int| 0 <= i < k.0.len() && #[trigger] k.0[i] && bit_at(mask, i);
        assert(i == sgn);
    }
    if crate::bitseq::seq_intersects(k.1, mask) {
        let i = choose|i: int| 0 <= i < k.1.len() && #[trigger] k.1[i] && bit_at(mask, i);
        assert(i == sgn);
    }
    lemma_msb_split(mn);
    lemma_msb_split(mx);
}

/// Negating a negative value gives its magnitude as an unsigned value.
proof fn lemma_neg_magnitude(s: Seq<bool>)
    requires
        s.len() > 0,
        int_of(s) < 0,
    ensures
        nat_of(crate::known_bits::seq_neg(s)) == -int_of(s),
{
    let w = s.len() as nat;
    crate::ap_int::lemma_nat_of_splat_false(w);
    lemma_msb_split(s);
    lemma_nat_of_bound(s);
    crate::bitseq::lemma_nat_of_from_nat(w, (pow2(w) - nat_of(s)) as nat);
    lemma_small_mod((pow2(w) - nat_of(s)) as nat, pow2(w));
}

/// The signed quotient has the truncating quotient as its signed value
/// when that fits.
proof fn lemma_sdiv_value(a: Seq<bool>, b: Seq<bool>)
    requires
        a.len() > 0,
        crate::known_bits_signed_laws::in_signed_range(a.len() as nat, trunc_div(int_of(a), int_of(b))),
    ensures
        int_of(crate::ap_int::seq_sdiv(a, b)) == trunc_div(int_of(a), int_of(b)),
{
    crate::known_bits_signed_laws::lemma_int_of_from_int(a.len() as nat, trunc_div(int_of(a), int_of(b)));
}

/// Magnitude facts of a truncating quotient: it is the quotient of the
/// magnitudes, with the sign of the product.
proof fn lemma_trunc_div_bounds(x: int, y: int, xb: int, yb: int)
    requires
        y != 0,
        yb != 0,
        magnitude(x) <= magnitude(xb),
        magnitude(y) >= magnitude(yb),
    ensures
        magnitude(trunc_div(x, y)) == magnitude(x) / magnitude(y),
        magnitude(x) / magnitude(y) <= magnitude(xb) / magnitude(yb),
        magnitude(x) / magnitude(y) <= magnitude(x),
        magnitude(x) >= magnitude(y) ==> magnitude(x) / magnitude(y) >= 1,
{
    let ax = magnitude(x);
    let ay = magnitude(y);
    vstd::arithmetic::div_mod::lemma_div_pos_is_pos(ax, ay);
    vstd::arithmetic::div_mod::lemma_div_is_ordered(ax, magnitude(xb), ay);
    vstd::arithmetic::div_mod::lemma_div_is_ordered_by_denominator(magnitude(xb), magnitude(yb), ay);
    vstd::arithmetic::div_mod::lemma_div_is_ordered_by_denominator(ax, 1, ay);
    if ax >= ay {
        vstd::arithmetic::div_mod::lemma_div_is_ordered(ay, ax, ay);
        vstd::arithmetic::div_mod::lemma_div_basics(ay);
    }
}

/// The truncating quotient of two values in the signed range stays in it,
/// unless it is the smallest value divided by minus one.
proof fn lemma_quotient_range(x: int, y: int, h: int)
    requires
        h >= 1,
        -h <= x < h,
        -h <= y < h,
        y != 0,
        !(x == -h && y == -1),
    ensures
        -h <= trunc_div(x, y) < h,
{
    let ax = magnitude(x);
    let ay = magnitude(y);
    vstd::arithmetic::div_mod::lemma_div_pos_is_pos(ax, ay);
    vstd::arithmetic::div_mod::lemma_div_is_ordered_by_denominator(ax, 1, ay);
    vstd::arithmetic::div_mod::lemma_div_basics(ax);
    if ay >= 2 {
        vstd::arithmetic::div_mod::lemma_div_is_ordered_by_denominator(ax, 2, ay);
    }
}

/// The signed division transfer admits the truncating quotient of every
/// pair of admitted values with a non-zero divisor, other than the
/// smallest value divided by minus one.
pub proof fn law_sdiv_sound(l: KnownBitsModel, r: KnownBitsModel, x: Seq<bool>, y: Seq<bool>)
    requires
        l.0.len() == l.1.len(),
        r.0.len() == r.1.len(),
        l.0.len() == r.0.len(),
        x.len() > 0,
        admits(l, x),
        admits(r, y),
        int_of(y) != 0,
        !(int_of(x) == -half_range(x.len() as nat) && int_of(y) == -1),
    ensures
        admits(crate::known_bits::sdiv_model(l, r, false), crate::ap_int::seq_sdiv(x, y)),
{
    let w = x.len() as nat;
    let sgn = w - 1;
    let h = half_range(w);
    let ix = int_of(x);
    let iy = int_of(y);
    let q = trunc_div(ix, iy);
    let v = crate::ap_int::seq_sdiv(x, y);
    let k = crate::known_bits::sdiv_model(l, r, false);
    lemma_msb_split(x);
    lemma_msb_split(y);
    vstd::arithmetic::power2::lemma_pow2_unfold(w);
    lemma_pow2_pos(sgn as nat);
    lemma_admits_at(l, x, sgn as int);
    lemma_admits_at(r, y, sgn as int);
    lemma_trunc_div_bounds(ix, iy, ix, iy);
    lemma_quotient_range(ix, iy, h);
    lemma_sdiv_value(x, y);
    lemma_nat_int(v);
    lemma_msb_split(v);
    crate::known_bits_laws::law_signed_bounds(l, x);
    crate::known_bits_laws::law_signed_bounds(r, y);
    lemma_signed_model_signs(l, x);
    lemma_signed_model_signs(r, y);
    if non_negative_model(l) && non_negative_model(r) {
        let u = crate::ap_int::seq_udiv(x, y);
        crate::known_bits_laws::law_udiv_sound(l, r, x, y);
        vstd::arithmetic::div_mod::lemma_div_is_ordered_by_denominator(nat_of(x) as int, 1, nat_of(y) as int);
        crate::bitseq::lemma_from_nat_small(w, nat_of(x) / nat_of(y));
        crate::bitseq::lemma_nat_of_injective(v, u);
    } else if crate::bitseq::all_true(l.0) {
        assert forall|j: int| 0 <= j < x.len() implies !x[j] by {
            lemma_admits_at(l, x, j);
        }
        lemma_nat_of_all_false(x);
        lemma_nat_of_zero_iff(v);
        assert(v =~= splat(w, false));
        crate::known_bits_laws::law_constant_admits_exactly(splat(w, false), v);
    } else if crate::bitseq::all_true(r.0) {
        assert forall|j: int| 0 <= j < y.len() implies !y[j] by {
            lemma_admits_at(r, y, j);
        }
        lemma_nat_of_all_false(y);
    } else {
        let mn_l = crate::known_bits::signed_min_model(l);
        let mx_l = crate::known_bits::signed_max_model(l);
        let mn_r = crate::known_bits::signed_min_model(r);
        let mx_r = crate::known_bits::signed_max_model(r);
        match crate::known_bits::sdiv_bound(l, r, false) {
            Some(res) => {
                if negative_model(l) && negative_model(r) {
                    lemma_trunc_div_bounds(ix, iy, int_of(mn_l), int_of(mx_r));
                    if !(mn_l.len() > 0 && mn_l == range_mask(w, sgn as int, w as int) && crate::bitseq::all_true(mx_r)) {
                        lemma_msb_split(mx_r);
                        lemma_msb_split(mn_l);
                        if int_of(mn_l) == -h && int_of(mx_r) == -1 {
                            crate::ap_int::lemma_signed_min_value(w);
                            lemma_int_of_canonical_eq(mn_l);
                            crate::ap_int::lemma_nat_of_all_ones(w);
                            assert(mx_r =~= splat(w, true)) by {
                                crate::bitseq::lemma_nat_of_injective(mx_r, splat(w, true));
                            }
                        }
                        lemma_trunc_div_bounds(int_of(mn_l), int_of(mx_r), int_of(mn_l), int_of(mx_r));
                        lemma_quotient_range(int_of(mn_l), int_of(mx_r), h);
                        lemma_sdiv_value(mn_l, mx_r);
                    } else {
                        crate::ap_int::lemma_signed_max_value(w);
                        crate::known_bits_signed_laws::lemma_int_of_from_int(w, h - 1);
                    }
                    lemma_msb_split(res);
                    crate::known_bits_laws::lemma_top_zero_below(v, res);
                } else if negative_model(l) && non_negative_model(r) {
                    lemma_neg_magnitude(mx_l);
                    lemma_msb_split(mx_r);
                    lemma_msb_split(mn_r);
                    if all_false(mn_r) {
                        lemma_nat_of_all_false(mn_r);
                        assert(res == mn_l);
                    } else {
                        lemma_nat_of_zero_iff(mn_r);
                        lemma_trunc_div_bounds(ix, iy, int_of(mn_l), int_of(mn_r));
                        lemma_trunc_div_bounds(int_of(mn_l), int_of(mn_r), int_of(mn_l), int_of(mn_r));
                        lemma_msb_split(mn_l);
                        lemma_sdiv_value(mn_l, mn_r);
                    }
                    lemma_msb_split(res);
                    crate::known_bits_laws::lemma_top_one_above(v, res);
                } else {
                    lemma_neg_magnitude(mn_r);
                    lemma_msb_split(mn_l);
                    lemma_msb_split(mx_l);
                    lemma_msb_split(mx_r);
                    crate::known_bits_laws::law_unsigned_bounds(l, x);
                    lemma_nat_of_zero_iff(l.1);
                    lemma_trunc_div_bounds(ix, iy, int_of(mx_l), int_of(mx_r));
                    lemma_trunc_div_bounds(int_of(mx_l), int_of(mx_r), int_of(mx_l), int_of(mx_r));
                    lemma_sdiv_value(mx_l, mx_r);
                    lemma_msb_split(res);
                    crate::known_bits_laws::lemma_top_one_above(v, res);
                }
                assert forall|i: int| 0 <= i < v.len() implies (k.0[i] ==> !v[i]) && (k.1[i] ==> v[i]) by {
                }
            },
            None => {},
        }
    }
}

/// A bit string equal to the smallest signed value is that value's mask.
proof fn lemma_int_of_canonical_eq(s: Seq<bool>)
    requires
        s.len() > 0,
        int_of(s) == -half_range(s.len() as nat),
    ensures
        s == range_mask(s.len() as nat, s.len() - 1, s.len() as int),
{
    let w = s.len() as nat;
    crate::ap_int::lemma_signed_min_value(w);
    crate::known_bits_laws::lemma_int_of_canonical(s);
}

} // verus!
