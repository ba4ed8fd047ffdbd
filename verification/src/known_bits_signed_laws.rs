//! Soundness of the known-bits transfer functions that rely on signed
//! arithmetic not wrapping: additions and subtractions with the
//! no-signed-wrap flag, and the signed saturating operations.

use vstd::prelude::*;
use vstd::arithmetic::power2::{pow2, lemma_pow2_pos, lemma_pow2_unfold};
use vstd::arithmetic::div_mod::{lemma_mod_multiples_vanish, lemma_small_mod};
use crate::ap_int::{seq_flip_msb, seq_add, seq_sub, seq_sadd_sat, seq_ssub_sat, clamp_signed, lemma_msb_split};
use crate::bitseq::{
    nat_of, from_nat, from_int, int_of, all_false, leading, lemma_nat_of_from_nat, lemma_from_nat_mod,
    lemma_nat_of_bound, lemma_nat_of_not, bit_val, bit_at, seq_intersects, seq_not, splat, trailing, lemma_trailing_props,
    popcount, lemma_popcount_bound, all_true, range_mask, lemma_nat_of_split, lemma_nat_of_all_false,
};
use crate::known_bits::{
    KnownBitsModel, admits, unknown_model, add_carry_model, add_sub_model, add_sub_nsw_model,
    signed_min_model, signed_max_model, leading_below_sign, trunc_or_clear, abs_model, constant_model,
    set_sign, clear_sign, sat_overflow_model, sat_add_sub_model, negative_model, non_negative_model,
};
use crate::known_bits_laws::{
    lemma_admits_at, law_add_carry_sound, law_unknown_admits_all, law_not_sound,
    law_admitted_has_no_conflict, law_signed_bounds, lemma_top_zero_below, lemma_top_one_above,
    carry_into, ripple_sum, lemma_ripple_sum, law_sub_sound, law_constant_admits_exactly,
};

verus! {

/// Half the range of a signed value of width `w`: `2^(w-1)`.
pub open spec fn half_range(w: nat) -> int {
    pow2((w - 1) as nat) as int
}

/// `v` lies in the signed range of width `w`.
pub open spec fn in_signed_range(w: nat, v: int) -> bool {
    -half_range(w) <= v < half_range(w)
}

/// The two's complement encoding of a value in the signed range has that
/// value.
pub proof fn lemma_int_of_from_int(w: nat, v: int)
    requires
        w > 0,
        in_signed_range(w, v),
    ensures
        int_of(from_int(w, v)) == v,
        from_int(w, v).len() == w,
{
    let p = pow2(w) as int;
    let h = half_range(w);
    lemma_pow2_unfold(w);
    lemma_pow2_pos((w - 1) as nat);
    let m: int = if v >= 0 { v } else { v + p };
    if v >= 0 {
        lemma_small_mod(v as nat, p as nat);
    } else {
        lemma_mod_multiples_vanish(1, v, p);
        lemma_small_mod((v + p) as nat, p as nat);
    }
    assert(v % p == m);
    let s = from_int(w, v);
    lemma_nat_of_from_nat(w, m as nat);
    lemma_small_mod(m as nat, p as nat);
    lemma_msb_split(s);
}

/// A natural number congruent to `v` encodes like `v`.
proof fn lemma_from_nat_congruent(w: nat, a: nat, v: int, k: int)
    requires
        a == v + k * pow2(w),
    ensures
        from_nat(w, a) == from_int(w, v),
{
    let p = pow2(w) as int;
    lemma_pow2_pos(w);
    assert(a == p * k + v) by (nonlinear_arith)
        requires
            a == v + k * p,
    ;
    lemma_mod_multiples_vanish(k, v, p);
    lemma_from_nat_mod(w, a);
}

/// The unsigned value of a bit string is its signed value, plus `2^w`
/// when the sign bit is set.
pub proof fn lemma_nat_int(x: Seq<bool>)
    ensures
        nat_of(x) == int_of(x) + (if x.len() > 0 && x.last() { pow2(x.len() as nat) as int } else { 0 }),
{
}

/// The wrapping sum of two values whose signed sum does not wrap has that
/// sum as its signed value.
proof fn lemma_add_signed_value(x: Seq<bool>, y: Seq<bool>)
    requires
        x.len() == y.len(),
        x.len() > 0,
        in_signed_range(x.len() as nat, int_of(x) + int_of(y)),
    ensures
        int_of(seq_add(x, y)) == int_of(x) + int_of(y),
{
    let w = x.len() as nat;
    let k: int = (if x.last() { 1int } else { 0 }) + (if y.last() { 1int } else { 0 });
    lemma_nat_int(x);
    lemma_nat_int(y);
    assert(k * pow2(w) == (if x.last() { pow2(w) as int } else { 0 }) + (if y.last() { pow2(w) as int } else { 0 })) by (nonlinear_arith)
        requires
            k == (if x.last() { 1int } else { 0 }) + (if y.last() { 1int } else { 0 }),
    ;
    lemma_from_nat_congruent(w, nat_of(x) + nat_of(y), int_of(x) + int_of(y), k);
    lemma_int_of_from_int(w, int_of(x) + int_of(y));
}

/// The wrapping difference of two values whose signed difference does not
/// wrap has that difference as its signed value.
proof fn lemma_sub_signed_value(x: Seq<bool>, y: Seq<bool>)
    requires
        x.len() == y.len(),
        x.len() > 0,
        in_signed_range(x.len() as nat, int_of(x) - int_of(y)),
    ensures
        int_of(seq_sub(x, y)) == int_of(x) - int_of(y),
{
    let w = x.len() as nat;
    let k: int = 1 + (if x.last() { 1int } else { 0 }) - (if y.last() { 1int } else { 0 });
    lemma_nat_int(x);
    lemma_nat_int(y);
    lemma_nat_of_bound(y);
    assert(k * pow2(w) == pow2(w) + (if x.last() { pow2(w) as int } else { 0 }) - (if y.last() { pow2(w) as int } else { 0 })) by (nonlinear_arith)
        requires
            k == 1 + (if x.last() { 1int } else { 0 }) - (if y.last() { 1int } else { 0 }),
    ;
    lemma_from_nat_congruent(w, (nat_of(x) + pow2(w) - nat_of(y)) as nat, int_of(x) - int_of(y), k);
    lemma_int_of_from_int(w, int_of(x) - int_of(y));
}

/// A clamped value has the signed value of the clamp.
proof fn lemma_clamp_value(w: nat, v: int)
    requires
        w > 0,
    ensures
        int_of(from_int(w, clamp_signed(w, v))) == clamp_signed(w, v),
        in_signed_range(w, clamp_signed(w, v)),
        in_signed_range(w, v) ==> clamp_signed(w, v) == v,
{
    lemma_pow2_pos((w - 1) as nat);
    lemma_int_of_from_int(w, clamp_signed(w, v));
}

/// What the carry-based sum (`add`) or difference knows before a wrap
/// flag refines it.
spec fn add_sub_base(add: bool, l: KnownBitsModel, r: KnownBitsModel) -> KnownBitsModel {
    if !(all_false(l.0) && all_false(l.1)) && !(all_false(r.0) && all_false(r.1)) {
        if add { add_carry_model(l, r, true, false) } else { add_carry_model(l, (r.1, r.0), false, true) }
    } else {
        unknown_model(l.0.len())
    }
}

/// The wrapping sum (`add`) or difference of `x` and `y`.
pub open spec fn add_or_sub(add: bool, x: Seq<bool>, y: Seq<bool>) -> Seq<bool> {
    if add { seq_add(x, y) } else { seq_sub(x, y) }
}

/// The signed sum (`add`) or difference of `x` and `y`.
pub open spec fn signed_add_or_sub(add: bool, x: Seq<bool>, y: Seq<bool>) -> int {
    if add { int_of(x) + int_of(y) } else { int_of(x) - int_of(y) }
}

/// The unrefined facts admit the wrapping result.
proof fn lemma_base_admits(add: bool, l: KnownBitsModel, r: KnownBitsModel, x: Seq<bool>, y: Seq<bool>)
    requires
        l.0.len() == l.1.len(),
        r.0.len() == r.1.len(),
        l.0.len() == r.0.len(),
        admits(l, x),
        admits(r, y),
    ensures
        admits(add_sub_base(add, l, r), add_or_sub(add, x, y)),
        add_sub_base(add, l, r).0.len() == x.len(),
        add_sub_base(add, l, r).1.len() == x.len(),
{
    let w = l.0.len();
    let z = add_or_sub(add, x, y);
    if add {
        assert(z == from_nat(x.len() as nat, nat_of(x) + nat_of(y) + bit_val(false)));
    } else {
        lemma_nat_of_not(y);
        assert(z == from_nat(x.len() as nat, nat_of(x) + nat_of(seq_not(y)) + bit_val(true)));
    }
    if !(all_false(l.0) && all_false(l.1)) && !(all_false(r.0) && all_false(r.1)) {
        if add {
            law_add_carry_sound(l, r, true, false, x, y, false);
        } else {
            law_not_sound(r, y);
            law_add_carry_sound(l, (r.1, r.0), false, true, x, seq_not(y), true);
        }
    } else {
        lemma_nat_of_bound(y);
        if add {
            lemma_nat_of_from_nat(w as nat, nat_of(x) + nat_of(y));
        } else {
            lemma_nat_of_from_nat(w as nat, (nat_of(x) + pow2(w as nat) - nat_of(y)) as nat);
        }
        law_unknown_admits_all(w as nat, z);
    }
}

/// The no-signed-wrap refinement keeps admitting a result that does not
/// wrap.
proof fn lemma_nsw_refine(k: KnownBitsModel, l: KnownBitsModel, r: KnownBitsModel, add: bool, x: Seq<bool>, y: Seq<bool>)
    requires
        l.0.len() == l.1.len(),
        r.0.len() == r.1.len(),
        l.0.len() == r.0.len(),
        k.0.len() == k.1.len(),
        k.0.len() == l.0.len(),
        x.len() > 0,
        admits(l, x),
        admits(r, y),
        in_signed_range(x.len() as nat, signed_add_or_sub(add, x, y)),
        admits(k, add_or_sub(add, x, y)),
    ensures
        admits(add_sub_nsw_model(k, l, r, add), add_or_sub(add, x, y)),
{
    let w = x.len() as nat;
    let h = half_range(w);
    let z = add_or_sub(add, x, y);
    let res = signed_add_or_sub(add, x, y);
    if add {
        lemma_add_signed_value(x, y);
    } else {
        lemma_sub_signed_value(x, y);
    }
    law_signed_bounds(l, x);
    law_signed_bounds(r, y);
    let mn_l = signed_min_model(l);
    let mx_l = signed_max_model(l);
    let mn_r = signed_min_model(r);
    let mx_r = signed_max_model(r);
    let lo = if add { int_of(mn_l) + int_of(mn_r) } else { int_of(mn_l) - int_of(mx_r) };
    let hi = if add { int_of(mx_l) + int_of(mx_r) } else { int_of(mx_l) - int_of(mn_r) };
    let min_val = if add { seq_sadd_sat(mn_l, mn_r) } else { seq_ssub_sat(mn_l, mx_r) };
    let max_val = if add { seq_sadd_sat(mx_l, mx_r) } else { seq_ssub_sat(mx_l, mn_r) };
    lemma_clamp_value(w, lo);
    lemma_clamp_value(w, hi);
    assert(int_of(min_val) == clamp_signed(w, lo));
    assert(int_of(max_val) == clamp_signed(w, hi));
    assert(int_of(min_val) <= res <= int_of(max_val));
    lemma_msb_split(z);
    lemma_msb_split(min_val);
    lemma_msb_split(max_val);
    let zt = z.drop_last();
    let nt = min_val.drop_last();
    let xt = max_val.drop_last();
    let min_nonneg = !(min_val.len() > 0 && min_val.last());
    let max_neg = max_val.len() > 0 && max_val.last();
    if min_nonneg {
        assert(!z.last());
        assert(trunc_or_clear(min_val, (w - 1) as nat) =~= nt);
        lemma_top_one_above(zt, nt);
    }
    if max_neg {
        assert(z.last());
        assert(trunc_or_clear(max_val, (w - 1) as nat) =~= xt);
        lemma_top_zero_below(zt, xt);
    }
    let m = add_sub_nsw_model(k, l, r, add);
    assert forall|i: int| 0 <= i < z.len() implies (m.0[i] ==> !z[i]) && (m.1[i] ==> z[i]) by {
        lemma_admits_at(k, z, i);
        if i < w - 1 {
            assert(zt[i] == z[i]);
        }
    }
}

/// The addition transfer with the no-signed-wrap flag admits `x + y` for
/// every `x` and `y` the facts admit whose signed sum does not wrap.
pub proof fn law_add_nsw_sound(l: KnownBitsModel, r: KnownBitsModel, x: Seq<bool>, y: Seq<bool>)
    requires
        l.0.len() == l.1.len(),
        r.0.len() == r.1.len(),
        l.0.len() == r.0.len(),
        x.len() > 0,
        admits(l, x),
        admits(r, y),
        in_signed_range(x.len() as nat, int_of(x) + int_of(y)),
    ensures
        admits(add_sub_model(true, true, false, l, r), seq_add(x, y)),
{
    lemma_base_admits(true, l, r, x, y);
    let k = add_sub_base(true, l, r);
    lemma_nsw_refine(k, l, r, true, x, y);
    law_admitted_has_no_conflict(add_sub_nsw_model(k, l, r, true), seq_add(x, y));
}

/// The subtraction transfer with the no-signed-wrap flag admits `x - y`
/// for every `x` and `y` the facts admit whose signed difference does not
/// wrap.
pub proof fn law_sub_nsw_sound(l: KnownBitsModel, r: KnownBitsModel, x: Seq<bool>, y: Seq<bool>)
    requires
        l.0.len() == l.1.len(),
        r.0.len() == r.1.len(),
        l.0.len() == r.0.len(),
        x.len() > 0,
        admits(l, x),
        admits(r, y),
        in_signed_range(x.len() as nat, int_of(x) - int_of(y)),
    ensures
        admits(add_sub_model(false, true, false, l, r), seq_sub(x, y)),
{
    lemma_base_admits(false, l, r, x, y);
    let k = add_sub_base(false, l, r);
    lemma_nsw_refine(k, l, r, false, x, y);
    law_admitted_has_no_conflict(add_sub_nsw_model(k, l, r, false), seq_sub(x, y));
}

/// Adding one to a value whose bits below `i` are all set carries into
/// bit `i`.
proof fn lemma_carry_through_ones(a: Seq<bool>, i: nat)
    requires
        i <= a.len(),
        forall|j: int| 0 <= j < i ==> #[trigger] a[j],
    ensures
        carry_into(a, splat(a.len(), false), true, i),
    decreases i,
{
    if i > 0 {
        lemma_carry_through_ones(a, (i - 1) as nat);
        assert(a[i - 1]);
    }
}

/// The two's complement negation of a non-zero value keeps its trailing
/// zeros and its lowest set bit.
proof fn lemma_neg_lowest(x: Seq<bool>)
    requires
        trailing(x, false) < x.len(),
    ensures
        forall|j: int| 0 <= j < trailing(x, false) ==> !#[trigger] seq_sub(splat(x.len(), false), x)[j],
        seq_sub(splat(x.len(), false), x)[trailing(x, false) as int],
{
    let w = x.len() as nat;
    let t = trailing(x, false);
    let nx = seq_not(x);
    let zs = splat(w, false);
    lemma_nat_of_not(x);
    crate::ap_int::lemma_nat_of_splat_false(w);
    lemma_ripple_sum(nx, zs, true);
    let neg = seq_sub(zs, x);
    assert(neg == ripple_sum(nx, zs, true));
    lemma_trailing_props(x, false);
    assert forall|j: int| 0 <= j < t implies #[trigger] nx[j] by {
        assert(!x[j]);
    }
    assert forall|j: int| 0 <= j < t implies !#[trigger] neg[j] by {
        lemma_carry_through_ones(nx, j as nat);
    }
    lemma_carry_through_ones(nx, t);
}

/// A bit string missing a set bit at `a` has fewer set bits than its
/// width; missing two, at least two fewer; three, at least three fewer.
proof fn lemma_popcount_missing(s: Seq<bool>, a: int, b: int, c: int, n: nat)
    requires
        1 <= n <= 3,
        0 <= a < s.len(),
        !s[a],
        n >= 2 ==> a < b < s.len() && !s[b],
        n >= 3 ==> b < c < s.len() && !s[c],
    ensures
        popcount(s) + n <= s.len(),
    decreases s.len(),
{
    let t = s.drop_last();
    let last = s.len() - 1;
    lemma_popcount_bound(t);
    let top = if n == 1 { a } else if n == 2 { b } else { c };
    if top == last {
        if n > 1 {
            lemma_popcount_missing(t, a, b, c, (n - 1) as nat);
        }
    } else {
        lemma_popcount_missing(t, a, b, c, n);
    }
}

/// Every bit set makes as many set bits as the width.
proof fn lemma_popcount_all_true(s: Seq<bool>)
    requires
        all_true(s),
    ensures
        popcount(s) == s.len(),
    decreases s.len(),
{
    if s.len() > 0 {
        lemma_popcount_all_true(s.drop_last());
    }
}

/// Bits `m..` of a width-`w` string, for `m <= w`, have value `2^w - 2^m`.
pub proof fn lemma_high_mask_value(w: nat, m: nat)
    requires
        m <= w,
    ensures
        nat_of(range_mask(w, m as int, w as int)) + pow2(m) == pow2(w),
{
    let s = range_mask(w, m as int, w as int);
    lemma_nat_of_split(s, m as int);
    assert forall|j: int| 0 <= j < s.take(m as int).len() implies !s.take(m as int)[j] by {
    }
    lemma_nat_of_all_false(s.take(m as int));
    assert(s.skip(m as int) =~= splat((w - m) as nat, true));
    crate::ap_int::lemma_nat_of_all_ones((w - m) as nat);
    vstd::arithmetic::power2::lemma_pow2_adds(m, (w - m) as nat);
    assert(pow2(m) * (pow2((w - m) as nat) - 1) == pow2(m) * pow2((w - m) as nat) - pow2(m)) by (nonlinear_arith);
}

/// The absolute value of `x` at its width; the smallest value is its own
/// absolute value.
pub open spec fn abs_value(x: Seq<bool>) -> Seq<bool> {
    if int_of(x) < 0 { seq_sub(splat(x.len(), false), x) } else { x }
}

/// A value with the sign bit set and some other bit set is not the
/// smallest value.
proof fn lemma_not_int_min(x: Seq<bool>, j: int)
    requires
        0 <= j < x.len() - 1,
        x[j],
    ensures
        int_of(x) != -half_range(x.len() as nat),
{
    lemma_msb_split(x);
    let xd = x.drop_last();
    crate::bitseq::lemma_nat_of_zero_iff(xd);
    assert(xd[j]);
}

/// The negation of a negative value other than the smallest is the
/// positive value of the same magnitude.
proof fn lemma_neg_value(x: Seq<bool>)
    requires
        x.len() > 0,
        int_of(x) < 0,
        int_of(x) != -half_range(x.len() as nat),
    ensures
        int_of(seq_sub(splat(x.len(), false), x)) == -int_of(x),
        !seq_sub(splat(x.len(), false), x).last(),
{
    let w = x.len() as nat;
    let zs = splat(w, false);
    crate::ap_int::lemma_nat_of_splat_false(w);
    lemma_msb_split(x);
    lemma_msb_split(zs);
    lemma_sub_signed_value(zs, x);
    lemma_msb_split(seq_sub(zs, x));
}

/// The absolute-value transfer admits the absolute value of every
/// admitted value (other than the smallest, when that is poison).
pub proof fn law_abs_sound(k: KnownBitsModel, x: Seq<bool>, int_min_is_poison: bool)
    requires
        k.0.len() == k.1.len(),
        k.0.len() <= u32::MAX,
        x.len() > 0,
        admits(k, x),
        int_min_is_poison ==> int_of(x) != -half_range(x.len() as nat),
    ensures
        admits(abs_model(k, int_min_is_poison), abs_value(x)),
{
    let w = x.len() as nat;
    let sgn = w - 1;
    let h = half_range(w);
    let zs = splat(w, false);
    let poison = int_min_is_poison;
    lemma_msb_split(x);
    lemma_admits_at(k, x, sgn);
    law_admitted_has_no_conflict(k, x);
    let xd = x.drop_last();
    let z = abs_value(x);
    let res = abs_model(k, poison);
    if bit_at(k.0, sgn) && bit_at(k.1, sgn) {
        assert(k.0[sgn] && bit_at(k.1, sgn));
    }
    if crate::known_bits::non_negative_model(k) {
        assert(z == x);
    } else if crate::known_bits::negative_model(k) {
        assert(x.last());
        assert(!k.0[sgn]);
        let neg = seq_sub(zs, x);
        let tz = trailing(k.0, true);
        let special = poison && crate::known_bits::sat_add_u32(popcount(k.0), 2) == w;
        let tmp = if special { (k.0, crate::known_bits::set_range(k.1, tz as int, tz as int + 1)) } else { k };
        if special {
            lemma_trailing_props(k.0, true);
            assert(tz <= sgn);
            if tz == sgn {
                assert(all_true(k.0.drop_last()));
                lemma_popcount_all_true(k.0.drop_last());
                assert forall|j: int| 0 <= j < xd.len() implies !xd[j] by {
                    lemma_admits_at(k, x, j);
                }
                crate::bitseq::lemma_nat_of_all_false(xd);
                assert(false);
            }
            assert forall|j: int| 0 <= j < sgn && j != tz implies #[trigger] k.0[j] by {
                if !k.0[j] {
                    if j < tz {
                    } else {
                        lemma_popcount_missing(k.0, tz as int, j, sgn as int, 3);
                    }
                }
            }
            if !x[tz as int] {
                assert forall|j: int| 0 <= j < xd.len() implies !xd[j] by {
                    lemma_admits_at(k, x, j);
                }
                crate::bitseq::lemma_nat_of_all_false(xd);
            }
            assert forall|i: int| 0 <= i < x.len() implies (tmp.0[i] ==> !x[i]) && (tmp.1[i] ==> x[i]) by {
                lemma_admits_at(k, x, i);
            }
        }
        assert(admits(tmp, x));
        assert(int_of(x) < 0);
        let xv_min = int_of(x) == -h;
        crate::ap_int::lemma_nat_of_splat_false(w);
        lemma_msb_split(zs);
        law_constant_admits_exactly(zs, zs);
        if poison {
            lemma_neg_value(x);
            law_sub_nsw_sound(constant_model(zs), tmp, zs, x);
        } else {
            law_sub_sound(constant_model(zs), tmp, zs, x);
        }
        let known_abs = add_sub_model(false, poison, false, constant_model(zs), tmp);
        assert(admits(known_abs, neg));
        if poison && popcount(tmp.1) == 1 && crate::known_bits::sat_sub(w as int, popcount(tmp.0) as int) != 1 && w != 0 {
            let tmp0 = crate::known_bits::set_sign(tmp.0);
            let l1 = leading(tmp0, true);
            crate::bitseq::lemma_leading_props(tmp0, true);
            assert(tmp0[sgn as int]);
            assert(l1 >= 1);
            let m = (w - l1) as nat;
            assert forall|j: int| m <= j < sgn implies !#[trigger] x[j] by {
                assert(tmp0[j]);
                lemma_admits_at(k, x, j);
            }
            lemma_nat_of_split(xd, m as int);
            assert forall|j: int| 0 <= j < xd.skip(m as int).len() implies !xd.skip(m as int)[j] by {
                assert(xd.skip(m as int)[j] == x[m + j]);
            }
            lemma_nat_of_all_false(xd.skip(m as int));
            lemma_nat_of_bound(xd.take(m as int));
            lemma_neg_value(x);
            lemma_msb_split(neg);
            let negd = neg.drop_last();
            let mm = range_mask(sgn as nat, m as int, sgn as int);
            lemma_high_mask_value(sgn as nat, m);
            crate::bitseq::lemma_leading_char(mm, true, (sgn - m) as nat);
            lemma_top_one_above(negd, mm);
            assert forall|i: int| m <= i < sgn implies #[trigger] neg[i] by {
                assert(negd[i] == neg[i]);
            }
        }
        assert forall|i: int| 0 <= i < z.len() implies (res.0[i] ==> !z[i]) && (res.1[i] ==> z[i]) by {
            lemma_admits_at(known_abs, neg, i);
        }
    } else {
        let t = trailing(x, false);
        crate::known_bits_laws::lemma_trailing_between(k, x);
        lemma_trailing_props(x, false);
        if t < w {
            lemma_neg_lowest(x);
        } else {
            assert forall|j: int| 0 <= j < xd.len() implies !xd[j] by {
            }
            crate::bitseq::lemma_nat_of_all_false(xd);
        }
        let sign_known = poison || (!all_false(k.1) && !(k.1 == range_mask(w, sgn, w as int)));
        if sign_known && int_of(x) < 0 {
            if !poison {
                let j = choose|j: int| 0 <= j < k.1.len() && k.1[j];
                if forall|i: int| 0 <= i < w && i != sgn ==> !#[trigger] k.1[i] {
                    assert(k.1 =~= range_mask(w, sgn, w as int));
                }
                let j2 = choose|i: int| 0 <= i < w && i != sgn && #[trigger] k.1[i];
                lemma_admits_at(k, x, j2);
                lemma_not_int_min(x, j2);
            }
            lemma_neg_value(x);
        }
        assert forall|i: int| 0 <= i < z.len() implies (res.0[i] ==> !z[i]) && (res.1[i] ==> z[i]) by {
        }
    }
}

/// Adding half the range to a number flips the top bit of its encoding and
/// keeps the others.
proof fn lemma_add_half(w: nat, n: nat)
    requires
        w > 0,
    ensures
        from_nat(w, n + half_range(w) as nat) == seq_flip_msb(from_nat(w, n)),
{
    let h = half_range(w);
    let a = from_nat(w, (n + h) as nat);
    let b = seq_flip_msb(from_nat(w, n));
    assert forall|i: int| 0 <= i < w implies a[i] == b[i] by {
        let e = (w - 1 - i) as nat;
        let d = pow2(i as nat);
        lemma_pow2_pos(i as nat);
        vstd::arithmetic::power2::lemma_pow2_adds(i as nat, e);
        assert(h == pow2(e) * d) by {
            vstd::arithmetic::mul::lemma_mul_is_commutative(pow2(e) as int, d as int);
        }
        vstd::arithmetic::div_mod::lemma_hoist_over_denominator(n as int, pow2(e) as int, d);
        let q = n as int / d as int;
        if e == 0 {
            vstd::arithmetic::power2::lemma2_to64();
            lemma_mod_multiples_vanish(1, q, 2);
            assert((q + 1) % 2 != q % 2) by {
                vstd::arithmetic::div_mod::lemma_mod_pos_bound(q, 2);
                vstd::arithmetic::div_mod::lemma_fundamental_div_mod(q, 2);
                vstd::arithmetic::div_mod::lemma_fundamental_div_mod(q + 1, 2);
                vstd::arithmetic::div_mod::lemma_mod_pos_bound(q + 1, 2);
            }
        } else {
            lemma_pow2_unfold(e);
            lemma_mod_multiples_vanish(pow2((e - 1) as nat) as int, q, 2);
        }
    }
    assert(a =~= b);
}

/// Encodings only depend on a number modulo `2^w`.
proof fn lemma_from_nat_wrap(w: nat, n: nat)
    ensures
        from_nat(w, n + pow2(w)) == from_nat(w, n),
{
    lemma_pow2_pos(w);
    lemma_from_nat_mod(w, n + pow2(w));
    lemma_from_nat_mod(w, n);
    lemma_mod_multiples_vanish(1, n as int, pow2(w) as int);
}

/// Flipping the sign bit of either operand flips the sign bit of the
/// wrapping sum or difference and nothing else.
proof fn lemma_flip_operand(add: bool, x: Seq<bool>, y: Seq<bool>, first: bool)
    requires
        x.len() == y.len(),
        x.len() > 0,
    ensures
        add_or_sub(add, if first { seq_flip_msb(x) } else { x }, if first { y } else { seq_flip_msb(y) })
            == seq_flip_msb(add_or_sub(add, x, y)),
{
    let w = x.len() as nat;
    let h = half_range(w);
    let p = pow2(w) as int;
    lemma_pow2_unfold(w);
    lemma_pow2_pos((w - 1) as nat);
    lemma_nat_of_bound(x);
    lemma_nat_of_bound(y);
    crate::ap_int::lemma_flip_msb(x);
    crate::ap_int::lemma_flip_msb(y);
    lemma_msb_split(x);
    lemma_msb_split(y);
    lemma_nat_int(x);
    lemma_nat_int(y);
    let xx = if first { seq_flip_msb(x) } else { x };
    let yy = if first { y } else { seq_flip_msb(y) };
    let n0: int = if add { (nat_of(x) + nat_of(y)) as int } else { nat_of(x) + p - nat_of(y) };
    let n1: int = if add { (nat_of(xx) + nat_of(yy)) as int } else { nat_of(xx) + p - nat_of(yy) };
    assert(n1 == n0 + h || n1 + p == n0 + h);
    lemma_add_half(w, n0 as nat);
    if n1 + p == n0 + h {
        lemma_from_nat_wrap(w, n1 as nat);
    }
}

/// The carry into bit `i` only depends on the bits below `i`.
proof fn lemma_carry_below(a: Seq<bool>, b: Seq<bool>, a2: Seq<bool>, b2: Seq<bool>, c0: bool, i: nat)
    requires
        forall|j: int| 0 <= j < i ==> bit_at(a, j) == bit_at(a2, j) && bit_at(b, j) == bit_at(b2, j),
    ensures
        carry_into(a, b, c0, i) == carry_into(a2, b2, c0, i),
    decreases i,
{
    if i > 0 {
        lemma_carry_below(a, b, a2, b2, c0, (i - 1) as nat);
        assert(bit_at(a, i - 1) == bit_at(a2, i - 1) && bit_at(b, i - 1) == bit_at(b2, i - 1));
    }
}

/// The top bit of the carry-aware sum facts, in terms of the carries into
/// the top bit of the largest and smallest sums.
proof fn lemma_carry_model_top(l: KnownBitsModel, r: KnownBitsModel, carry_zero: bool, carry_one: bool)
    requires
        l.0.len() == l.1.len(),
        r.0.len() == r.1.len(),
        l.0.len() == r.0.len(),
        l.0.len() > 0,
    ensures
        ({
            let s = l.0.len() - 1;
            let cz = carry_into(seq_not(l.0), seq_not(r.0), !carry_zero, s as nat);
            let co = carry_into(l.1, r.1, carry_one, s as nat);
            let known = (l.0[s] || l.1[s]) && (r.0[s] || r.1[s]) && (!cz || co);
            let k = add_carry_model(l, r, carry_zero, carry_one);
            &&& k.0[s] == ((l.0[s] == (r.0[s] != cz)) && known)
            &&& k.1[s] == ((l.1[s] != (r.1[s] != co)) && known)
        }),
{
    let w = l.0.len();
    let s = w - 1;
    let cz_add = if carry_zero { splat(w as nat, false) } else { crate::known_bits::one_at(w as nat) };
    let co_add = if carry_one { crate::known_bits::one_at(w as nat) } else { splat(w as nat, false) };
    crate::known_bits_laws::lemma_sum3(seq_not(l.0), seq_not(r.0), !carry_zero, cz_add);
    crate::known_bits_laws::lemma_sum3(l.1, r.1, carry_one, co_add);
    let psz = seq_add(seq_add(seq_not(l.0), seq_not(r.0)), cz_add);
    let pso = seq_add(seq_add(l.1, r.1), co_add);
    let cz = carry_into(seq_not(l.0), seq_not(r.0), !carry_zero, s as nat);
    let co = carry_into(l.1, r.1, carry_one, s as nat);
    assert(psz[s] == ripple_sum(seq_not(l.0), seq_not(r.0), !carry_zero)[s]);
    assert(pso[s] == ripple_sum(l.1, r.1, carry_one)[s]);
    assert(psz[s] == (!l.0[s] != (!r.0[s] != cz)));
    assert(pso[s] == (l.1[s] != (r.1[s] != co)));
}

/// No bit known both ways.
pub open spec fn consistent(k: KnownBitsModel) -> bool {
    !seq_intersects(k.0, k.1)
}

/// The carry into the top bit of the largest sum is set whenever the
/// carry into the top bit of the smallest sum is.
proof fn lemma_carry_order(l: KnownBitsModel, r: KnownBitsModel, carry_zero: bool, carry_one: bool)
    requires
        l.0.len() == l.1.len(),
        r.0.len() == r.1.len(),
        l.0.len() == r.0.len(),
        l.0.len() > 0,
        consistent(l),
        consistent(r),
        carry_one ==> !carry_zero,
    ensures
        carry_into(l.1, r.1, carry_one, (l.0.len() - 1) as nat)
            ==> carry_into(seq_not(l.0), seq_not(r.0), !carry_zero, (l.0.len() - 1) as nat),
{
    assert forall|i: int| 0 <= i < l.1.len() && l.1[i] implies seq_not(l.0)[i] by {
        if l.0[i] {
            assert(l.0[i] && bit_at(l.1, i));
        }
    }
    assert forall|i: int| 0 <= i < r.1.len() && r.1[i] implies seq_not(r.0)[i] by {
        if r.0[i] {
            assert(r.0[i] && bit_at(r.1, i));
        }
    }
    crate::known_bits_laws::lemma_carry_monotone(l.1, r.1, carry_one, seq_not(l.0), seq_not(r.0), !carry_zero, (l.0.len() - 1) as nat);
}

/// Two pairs of operand facts that agree below the top bit and know every
/// top bit: the carry model knows the top bit of their sums alike, or with
/// zero and one exchanged when exactly one pair's top bits differ.
proof fn lemma_carry_model_sign(l: KnownBitsModel, r: KnownBitsModel, l2: KnownBitsModel, r2: KnownBitsModel,
    carry_zero: bool, carry_one: bool)
    requires
        l.0.len() == l.1.len(),
        r.0.len() == r.1.len(),
        l2.0.len() == l2.1.len(),
        r2.0.len() == r2.1.len(),
        l.0.len() == r.0.len(),
        l.0.len() == l2.0.len(),
        l.0.len() == r2.0.len(),
        l.0.len() > 0,
        l.0[l.0.len() - 1] != l.1[l.0.len() - 1],
        r.0[r.0.len() - 1] != r.1[r.0.len() - 1],
        l2.0[l.0.len() - 1] != l2.1[l.0.len() - 1],
        r2.0[l.0.len() - 1] != r2.1[l.0.len() - 1],
        consistent(l),
        consistent(r),
        consistent(l2),
        consistent(r2),
        carry_one ==> !carry_zero,
        forall|j: int| 0 <= j < l.0.len() - 1 ==> l.0[j] == l2.0[j] && l.1[j] == l2.1[j] && r.0[j] == r2.0[j] && r.1[j] == r2.1[j],
    ensures
        ({
            let s = l.0.len() - 1;
            let k = add_carry_model(l, r, carry_zero, carry_one);
            let k2 = add_carry_model(l2, r2, carry_zero, carry_one);
            let same = (l.1[s] == r.1[s]) == (l2.1[s] == r2.1[s]);
            &&& k.0[s] == (if same { k2.0[s] } else { k2.1[s] })
            &&& k.1[s] == (if same { k2.1[s] } else { k2.0[s] })
        }),
{
    let s = (l.0.len() - 1) as nat;
    lemma_carry_model_top(l, r, carry_zero, carry_one);
    lemma_carry_model_top(l2, r2, carry_zero, carry_one);
    lemma_carry_below(seq_not(l.0), seq_not(r.0), seq_not(l2.0), seq_not(r2.0), !carry_zero, s);
    lemma_carry_below(l.1, r.1, l2.1, r2.1, carry_one, s);
    lemma_carry_order(l, r, carry_zero, carry_one);
}

/// The fact of the low bits of a value (its sign bit forced clear) admits
/// the value with its sign bit cleared.
proof fn lemma_low_part(k: KnownBitsModel, x: Seq<bool>)
    requires
        k.0.len() == k.1.len(),
        k.0.len() == x.len(),
        x.len() > 0,
        admits(k, x),
    ensures
        admits((set_sign(k.0), clear_sign(k.1)), clear_sign(x)),
        nat_of(clear_sign(x)) == nat_of(x.drop_last()),
        !clear_sign(x).last(),
        nat_of(x.drop_last()) < half_range(x.len() as nat),
{
    let c = clear_sign(x);
    let u = (set_sign(k.0), clear_sign(k.1));
    assert forall|i: int| 0 <= i < c.len() implies (u.0[i] ==> !c[i]) && (u.1[i] ==> c[i]) by {
        lemma_admits_at(k, x, i);
    }
    lemma_msb_split(c);
    lemma_msb_split(x);
    assert(c.drop_last() =~= x.drop_last());
}

/// What the overflow classification of a signed saturating operation
/// promises of every pair of admitted values: a decided "no overflow"
/// holds, a decided overflow holds in the direction of the left operand's
/// sign, and each possible overflow direction is flagged.
proof fn lemma_sat_overflow_flags(add: bool, l: KnownBitsModel, r: KnownBitsModel, x: Seq<bool>, y: Seq<bool>)
    requires
        l.0.len() == l.1.len(),
        r.0.len() == r.1.len(),
        l.0.len() == r.0.len(),
        x.len() > 0,
        admits(l, x),
        admits(r, y),
    ensures
        ({
            let f = sat_overflow_model(add, true, l, r);
            let s = signed_add_or_sub(add, x, y);
            let h = half_range(x.len() as nat);
            &&& f.0 == Some(false) ==> in_signed_range(x.len() as nat, s)
            &&& f.0 == Some(true) ==> (if negative_model(l) { s < -h } else { s > h - 1 })
            &&& s > h - 1 ==> f.2
            &&& s < -h ==> f.1
        }),
{
    let w = x.len() as nat;
    let sgn = w - 1;
    let h = half_range(w);
    let p = pow2(w) as int;
    lemma_pow2_unfold(w);
    lemma_pow2_pos((w - 1) as nat);
    lemma_msb_split(x);
    lemma_msb_split(y);
    lemma_admits_at(l, x, sgn);
    lemma_admits_at(r, y, sgn);
    let ul = (set_sign(l.0), clear_sign(l.1));
    let ur = (set_sign(r.0), clear_sign(r.1));
    let xl = clear_sign(x);
    let yl = clear_sign(y);
    lemma_low_part(l, x);
    lemma_low_part(r, y);
    let xv = nat_of(xl);
    let yv = nat_of(yl);
    let u = add_or_sub(add, xl, yl);
    if add {
        crate::known_bits_laws::law_add_sound(ul, ur, xl, yl);
        lemma_nat_of_from_nat(w, xv + yv);
        lemma_small_mod(xv + yv, p as nat);
    } else {
        law_sub_sound(ul, ur, xl, yl);
        if xv >= yv {
            crate::known_bits_laws::lemma_sub_no_wrap(xl, yl);
        } else {
            lemma_nat_of_from_nat(w, (xv + p - yv) as nat);
            lemma_small_mod((xv + p - yv) as nat, p as nat);
        }
    }
    lemma_msb_split(u);
    let res = add_sub_model(add, false, false, ul, ur);
    lemma_admits_at(res, u, sgn);
    assert(u.last() == (if add { xv + yv >= h } else { xv < yv }));
}

/// A fact that does not know the sign bit admits a value with its sign
/// bit flipped.
proof fn lemma_flip_unknown_sign(k: KnownBitsModel, x: Seq<bool>)
    requires
        k.0.len() == k.1.len(),
        k.0.len() == x.len(),
        x.len() > 0,
        admits(k, x),
        !k.0[x.len() - 1],
        !k.1[x.len() - 1],
    ensures
        admits(k, seq_flip_msb(x)),
{
    let f = seq_flip_msb(x);
    assert forall|i: int| 0 <= i < f.len() implies (k.0[i] ==> !f[i]) && (k.1[i] ==> f[i]) by {
        lemma_admits_at(k, x, i);
    }
}

/// When either operand's fact leaves its sign bit open, the unrefined sum
/// or difference facts leave the sign bit open too.
proof fn lemma_base_sign_unknown(add: bool, l: KnownBitsModel, r: KnownBitsModel, x: Seq<bool>, y: Seq<bool>, first: bool)
    requires
        l.0.len() == l.1.len(),
        r.0.len() == r.1.len(),
        l.0.len() == r.0.len(),
        x.len() > 0,
        admits(l, x),
        admits(r, y),
        first ==> !l.0[x.len() - 1] && !l.1[x.len() - 1],
        !first ==> !r.0[x.len() - 1] && !r.1[x.len() - 1],
    ensures
        !add_sub_base(add, l, r).0[x.len() - 1],
        !add_sub_base(add, l, r).1[x.len() - 1],
{
    let sgn = x.len() - 1;
    let x2 = if first { seq_flip_msb(x) } else { x };
    let y2 = if first { y } else { seq_flip_msb(y) };
    if first {
        lemma_flip_unknown_sign(l, x);
    } else {
        lemma_flip_unknown_sign(r, y);
    }
    lemma_base_admits(add, l, r, x, y);
    lemma_base_admits(add, l, r, x2, y2);
    lemma_flip_operand(add, x, y, first);
    let k0 = add_sub_base(add, l, r);
    let z = add_or_sub(add, x, y);
    lemma_admits_at(k0, z, sgn);
    lemma_admits_at(k0, seq_flip_msb(z), sgn);
}

/// Bounds of the signed saturating sums the no-signed-wrap refinement
/// uses, for a pair of admitted values.
proof fn lemma_nsw_bounds(add: bool, l: KnownBitsModel, r: KnownBitsModel, x: Seq<bool>, y: Seq<bool>)
    requires
        l.0.len() == l.1.len(),
        r.0.len() == r.1.len(),
        l.0.len() == r.0.len(),
        x.len() > 0,
        admits(l, x),
        admits(r, y),
    ensures
        ({
            let w = x.len() as nat;
            let mn_l = signed_min_model(l);
            let mx_l = signed_max_model(l);
            let mn_r = signed_min_model(r);
            let mx_r = signed_max_model(r);
            let lo = if add { int_of(mn_l) + int_of(mn_r) } else { int_of(mn_l) - int_of(mx_r) };
            let hi = if add { int_of(mx_l) + int_of(mx_r) } else { int_of(mx_l) - int_of(mn_r) };
            let min_val = if add { seq_sadd_sat(mn_l, mn_r) } else { seq_ssub_sat(mn_l, mx_r) };
            let max_val = if add { seq_sadd_sat(mx_l, mx_r) } else { seq_ssub_sat(mx_l, mn_r) };
            &&& lo <= signed_add_or_sub(add, x, y) <= hi
            &&& int_of(min_val) == clamp_signed(w, lo)
            &&& int_of(max_val) == clamp_signed(w, hi)
            &&& min_val.len() == w
            &&& max_val.len() == w
            &&& (min_val.last() <==> int_of(min_val) < 0)
            &&& (max_val.last() <==> int_of(max_val) < 0)
        }),
{
    let w = x.len() as nat;
    law_signed_bounds(l, x);
    law_signed_bounds(r, y);
    let mn_l = signed_min_model(l);
    let mx_l = signed_max_model(l);
    let mn_r = signed_min_model(r);
    let mx_r = signed_max_model(r);
    let lo = if add { int_of(mn_l) + int_of(mn_r) } else { int_of(mn_l) - int_of(mx_r) };
    let hi = if add { int_of(mx_l) + int_of(mx_r) } else { int_of(mx_l) - int_of(mn_r) };
    let min_val = if add { seq_sadd_sat(mn_l, mn_r) } else { seq_ssub_sat(mn_l, mx_r) };
    let max_val = if add { seq_sadd_sat(mx_l, mx_r) } else { seq_ssub_sat(mx_l, mn_r) };
    lemma_clamp_value(w, lo);
    lemma_clamp_value(w, hi);
    lemma_msb_split(min_val);
    lemma_msb_split(max_val);
}

/// On a positive overflow the sum facts with the no-signed-wrap flag do
/// not claim a negative result.
proof fn lemma_pos_overflow_sign(add: bool, l: KnownBitsModel, r: KnownBitsModel, x: Seq<bool>, y: Seq<bool>)
    requires
        l.0.len() == l.1.len(),
        r.0.len() == r.1.len(),
        l.0.len() == r.0.len(),
        x.len() > 0,
        admits(l, x),
        admits(r, y),
        signed_add_or_sub(add, x, y) > half_range(x.len() as nat) - 1,
    ensures
        !add_sub_model(add, true, false, l, r).1[x.len() - 1],
{
    let w = x.len() as nat;
    let sgn = w - 1;
    let h = half_range(w);
    lemma_msb_split(x);
    lemma_msb_split(y);
    lemma_admits_at(l, x, sgn);
    lemma_admits_at(r, y, sgn);
    law_admitted_has_no_conflict(l, x);
    law_admitted_has_no_conflict(r, y);
    lemma_base_admits(add, l, r, x, y);
    lemma_nsw_bounds(add, l, r, x, y);
    let k0 = add_sub_base(add, l, r);
    let k2 = add_sub_nsw_model(k0, l, r, add);
    let mask = range_mask(w, sgn, w as int);
    if !l.0[sgn] {
        lemma_base_sign_unknown(add, l, r, x, y, true);
    } else if (add && !r.0[sgn]) || (!add && !r.1[sgn]) {
        lemma_base_sign_unknown(add, l, r, x, y, false);
    } else {
        assert(l.0[sgn] && bit_at(mask, sgn));
        assert(!l.1[sgn]);
        lemma_msb_split(l.1);
        if add {
            assert(r.0[sgn] && bit_at(mask, sgn));
            assert(!r.1[sgn]);
            lemma_msb_split(r.1);
        } else {
            assert(r.1[sgn] && bit_at(mask, sgn));
            assert(!r.0[sgn]);
            lemma_msb_split(seq_not(r.0));
        }
        if k2.1[sgn] {
            assert(k2.0[sgn] && bit_at(k2.1, sgn));
        }
    }
}

/// On a negative overflow that the overflow classification leaves open,
/// the sum facts with the no-signed-wrap flag do not claim a non-negative
/// result.
proof fn lemma_neg_overflow_sign(add: bool, l: KnownBitsModel, r: KnownBitsModel, x: Seq<bool>, y: Seq<bool>)
    requires
        l.0.len() == l.1.len(),
        r.0.len() == r.1.len(),
        l.0.len() == r.0.len(),
        x.len() > 0,
        admits(l, x),
        admits(r, y),
        signed_add_or_sub(add, x, y) < -half_range(x.len() as nat),
        sat_overflow_model(add, true, l, r).0 is None,
    ensures
        !add_sub_model(add, true, false, l, r).0[x.len() - 1],
{
    let w = x.len() as nat;
    let sgn = w - 1;
    let h = half_range(w);
    lemma_pow2_unfold(w);
    lemma_pow2_pos((w - 1) as nat);
    lemma_msb_split(x);
    lemma_msb_split(y);
    lemma_admits_at(l, x, sgn);
    lemma_admits_at(r, y, sgn);
    law_admitted_has_no_conflict(l, x);
    law_admitted_has_no_conflict(r, y);
    lemma_base_admits(add, l, r, x, y);
    lemma_nsw_bounds(add, l, r, x, y);
    let k0 = add_sub_base(add, l, r);
    let k2 = add_sub_nsw_model(k0, l, r, add);
    let mask = range_mask(w, sgn, w as int);
    // An admitted pair whose result does not wrap.
    let (x2, y2) = if !l.1[sgn] {
        (seq_flip_msb(x), y)
    } else if (add && !r.1[sgn]) || (!add && !r.0[sgn]) {
        (x, seq_flip_msb(y))
    } else {
        (seq_not(l.0), if add { seq_not(r.0) } else { r.1 })
    };
    if !l.1[sgn] {
        lemma_base_sign_unknown(add, l, r, x, y, true);
        lemma_flip_unknown_sign(l, x);
        crate::ap_int::lemma_flip_msb(x);
    } else if (add && !r.1[sgn]) || (!add && !r.0[sgn]) {
        lemma_base_sign_unknown(add, l, r, x, y, false);
        lemma_flip_unknown_sign(r, y);
        crate::ap_int::lemma_flip_msb(y);
    } else {
        assert(l.1[sgn] && bit_at(mask, sgn));
        let ul = (set_sign(l.0), clear_sign(l.1));
        let ur = (set_sign(r.0), clear_sign(r.1));
        let rr = if add { r } else { (r.1, r.0) };
        let urr = if add { ur } else { (ur.1, ur.0) };
        let cz0 = add;
        let co1 = !add;
        assert forall|i: int| 0 <= i < ul.0.len() && #[trigger] ul.0[i] implies !bit_at(ul.1, i) by {
            if bit_at(ul.1, i) {
                assert(l.0[i] && bit_at(l.1, i));
            }
        }
        assert forall|i: int| 0 <= i < urr.0.len() && #[trigger] urr.0[i] implies !bit_at(urr.1, i) by {
            if r.0[i] && r.1[i] {
                assert(r.0[i] && bit_at(r.1, i));
            }
        }
        assert forall|i: int| 0 <= i < rr.0.len() && #[trigger] rr.0[i] implies !bit_at(rr.1, i) by {
            if r.0[i] && r.1[i] {
                assert(r.0[i] && bit_at(r.1, i));
            }
        }
        lemma_carry_model_sign(l, rr, ul, urr, cz0, co1);
        // The low parts' facts are consistent, so they are what the
        // overflow classification looked at.
        let xl = clear_sign(x);
        let yl = clear_sign(y);
        lemma_low_part(l, x);
        lemma_low_part(r, y);
        let u = add_or_sub(add, xl, yl);
        if add {
            crate::known_bits_laws::law_add_sound(ul, ur, xl, yl);
        } else {
            law_sub_sound(ul, ur, xl, yl);
        }
        let res_low = add_sub_model(add, false, false, ul, ur);
        law_admitted_has_no_conflict(res_low, u);
        // The largest pair's carry into the top bit.
        lemma_carry_model_top(l, rr, cz0, co1);
        let a = seq_not(l.0);
        let b = seq_not(rr.0);
        crate::known_bits_laws::lemma_ripple_prefix(a, b, !cz0, sgn as nat);
        crate::bitseq::lemma_nat_of_bound(ripple_sum(a, b, !cz0).take(sgn as int));
        assert(x2.drop_last() =~= a.take(sgn as int));
        lemma_msb_split(x2);
        lemma_msb_split(y2);
        if add {
            assert(y2.drop_last() =~= b.take(sgn as int));
            assert(!r.0[sgn]);
        } else {
            assert(y2.drop_last() =~= r.1.take(sgn as int));
            lemma_nat_of_not(r.1.take(sgn as int));
            assert(seq_not(r.1.take(sgn as int)) =~= b.take(sgn as int));
            assert(r.0[sgn] && bit_at(mask, sgn));
            assert(!r.1[sgn]);
        }
        assert(admits(l, x2)) by {
            assert forall|i: int| 0 <= i < x2.len() implies (l.0[i] ==> !x2[i]) && (l.1[i] ==> x2[i]) by {
                if l.1[i] && l.0[i] {
                    assert(l.0[i] && bit_at(l.1, i));
                }
            }
        }
        assert(admits(r, y2)) by {
            assert forall|i: int| 0 <= i < y2.len() implies (r.0[i] ==> !y2[i]) && (r.1[i] ==> y2[i]) by {
                if r.1[i] && r.0[i] {
                    assert(r.0[i] && bit_at(r.1, i));
                }
            }
        }
    }
    assert(admits(l, x2));
    assert(admits(r, y2));
    lemma_msb_split(x2);
    lemma_msb_split(y2);
    assert(in_signed_range(w, signed_add_or_sub(add, x2, y2)));
    lemma_base_admits(add, l, r, x2, y2);
    lemma_nsw_refine(k0, l, r, add, x2, y2);
    law_admitted_has_no_conflict(k2, add_or_sub(add, x2, y2));
}

/// The signed saturating sum (`add`) or difference of `x` and `y`.
pub open spec fn signed_sat(add: bool, x: Seq<bool>, y: Seq<bool>) -> Seq<bool> {
    if add { seq_sadd_sat(x, y) } else { seq_ssub_sat(x, y) }
}

/// Both signed saturating transfers admit the saturated result.
proof fn lemma_signed_sat_sound(add: bool, l: KnownBitsModel, r: KnownBitsModel, x: Seq<bool>, y: Seq<bool>)
    requires
        l.0.len() == l.1.len(),
        r.0.len() == r.1.len(),
        l.0.len() == r.0.len(),
        x.len() > 0,
        admits(l, x),
        admits(r, y),
    ensures
        admits(sat_add_sub_model(add, true, l, r), signed_sat(add, x, y)),
{
    let w = x.len() as nat;
    let sgn = w - 1;
    let h = half_range(w);
    let sv = signed_add_or_sub(add, x, y);
    let v = signed_sat(add, x, y);
    let k = sat_add_sub_model(add, true, l, r);
    let res = add_sub_model(add, true, false, l, r);
    lemma_sat_overflow_flags(add, l, r, x, y);
    lemma_clamp_value(w, sv);
    let f = sat_overflow_model(add, true, l, r);
    if in_signed_range(w, sv) {
        let z = add_or_sub(add, x, y);
        if add {
            lemma_add_signed_value(x, y);
            law_add_nsw_sound(l, r, x, y);
        } else {
            lemma_sub_signed_value(x, y);
            law_sub_nsw_sound(l, r, x, y);
        }
        crate::known_bits_laws::lemma_int_of_canonical(z);
        assert(v == z);
        assert forall|i: int| 0 <= i < v.len() implies (k.0[i] ==> !v[i]) && (k.1[i] ==> v[i]) by {
            lemma_admits_at(res, z, i);
        }
    } else if sv > h - 1 {
        crate::ap_int::lemma_signed_max_value(w);
        assert(v == range_mask(w, 0, w - 1));
        lemma_pos_overflow_sign(add, l, r, x, y);
        if f.0 is Some {
            law_constant_admits_exactly(range_mask(w, 0, w - 1), v);
        }
        assert forall|i: int| 0 <= i < v.len() implies (k.0[i] ==> !v[i]) && (k.1[i] ==> v[i]) by {
        }
    } else {
        crate::ap_int::lemma_signed_min_value(w);
        assert(v == range_mask(w, sgn, w as int));
        if f.0 is Some {
            law_constant_admits_exactly(range_mask(w, sgn, w as int), v);
        } else {
            lemma_neg_overflow_sign(add, l, r, x, y);
        }
        assert forall|i: int| 0 <= i < v.len() implies (k.0[i] ==> !v[i]) && (k.1[i] ==> v[i]) by {
        }
    }
}

/// The signed saturating addition transfer admits the saturated sum of
/// every pair of admitted values.
pub proof fn law_sadd_sat_sound(l: KnownBitsModel, r: KnownBitsModel, x: Seq<bool>, y: Seq<bool>)
    requires
        l.0.len() == l.1.len(),
        r.0.len() == r.1.len(),
        l.0.len() == r.0.len(),
        x.len() > 0,
        admits(l, x),
        admits(r, y),
    ensures
        admits(sat_add_sub_model(true, true, l, r), seq_sadd_sat(x, y)),
{
    lemma_signed_sat_sound(true, l, r, x, y);
}

/// The signed saturating subtraction transfer admits the saturated
/// difference of every pair of admitted values.
pub proof fn law_ssub_sat_sound(l: KnownBitsModel, r: KnownBitsModel, x: Seq<bool>, y: Seq<bool>)
    requires
        l.0.len() == l.1.len(),
        r.0.len() == r.1.len(),
        l.0.len() == r.0.len(),
        x.len() > 0,
        admits(l, x),
        admits(r, y),
    ensures
        admits(sat_add_sub_model(false, true, l, r), seq_ssub_sat(x, y)),
{
    lemma_signed_sat_sound(false, l, r, x, y);
}

} // verus!
