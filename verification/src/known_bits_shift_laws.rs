//! Soundness of the known-bits shift transfer functions: shifting an
//! admitted value by an admitted amount below the width gives a value the
//! computed fact admits.

use vstd::prelude::*;
use vstd::arithmetic::power2::{pow2, lemma_pow2_strictly_increases, lemma2_to64, lemma_pow2_pos};
use vstd::arithmetic::div_mod::lemma_basic_div;
use vstd::bits::{lemma_u32_shl_is_mul, lemma_u32_pow2_no_overflow};
use vstd::std_specs::bits::{u32_leading_zeros, axiom_u32_leading_zeros};
use crate::ap_int::{seq_shl, seq_lshr, seq_ashr, seq_resize, seq_extract};
use crate::bitseq::{
    nat_of, from_nat, bit_at, splat, seq_not, all_false, all_true, trailing, leading, lemma_leading_props,
    lemma_nat_of_low_bit, lemma_nat_of_bound, lemma_nat_of_bit, lemma_from_nat_small,
    lemma_trailing_props,
};
use crate::known_bits::{
    KnownBitsModel, admits, intersect_model, shift_possible, low_u32_model, min_shift_model,
    max_shift_model, shift_loop, shifted_model, ShiftKind, shl_model, shr_model, lshr_shifted,
    ashr_shifted, shl_shifted, is_pow2_u32, log2_floor_u32, min_nat, sat_sub,
};
use crate::known_bits_laws::{lemma_resize_small, bits_below, lemma_nat_of_monotone, law_intersect_sound, law_admitted_has_no_conflict};

verus! {

/// Shifting `x` left by `s` moves no set bit past the top.
pub open spec fn shl_keeps_unsigned(x: Seq<bool>, s: nat) -> bool {
    forall|j: int| x.len() - s <= j < x.len() ==> !#[trigger] x[j]
}

/// Every bit that shifting `x` left by `s` moves past the top equals the
/// sign bit of the result.
pub open spec fn shl_keeps_signed(x: Seq<bool>, s: nat) -> bool {
    forall|j: int| x.len() - 1 - s <= j < x.len() ==> #[trigger] x[j] == x[x.len() - 1 - s]
}

/// Shifting `x` right by `s` moves no set bit past the bottom.
pub open spec fn shr_keeps_all(x: Seq<bool>, s: nat) -> bool {
    forall|j: int| 0 <= j < s ==> !#[trigger] x[j]
}

/// A bit string whose top `n` bits are clear has at least `n` leading
/// zeros.
proof fn lemma_leading_at_least(a: Seq<bool>, n: nat)
    requires
        n <= a.len(),
        forall|j: int| a.len() - n <= j < a.len() ==> !#[trigger] a[j],
    ensures
        leading(a, false) >= n,
{
    lemma_leading_props(a, false);
    if leading(a, false) < n {
        let j = a.len() - 1 - leading(a, false);
        assert(!a[j]);
    }
}

/// Bit strings of at most 32 bits with no common set bit have words whose
/// AND is zero.
proof fn lemma_u32_and_zero(a: Seq<bool>, b: Seq<bool>, x: u32, y: u32)
    requires
        a.len() == b.len(),
        a.len() <= 32,
        x == nat_of(a),
        y == nat_of(b),
        forall|i: int| #![trigger a[i]] 0 <= i < a.len() ==> !(a[i] && b[i]),
    ensures
        x & y == 0,
    decreases a.len(),
{
    if a.len() == 0 {
        assert(x == 0 && y == 0);
        assert(0u32 & 0u32 == 0) by (bit_vector);
    } else {
        lemma_nat_of_low_bit(a);
        lemma_nat_of_low_bit(b);
        let a1 = a.skip(1);
        let b1 = b.skip(1);
        let x1 = (x / 2) as u32;
        let y1 = (y / 2) as u32;
        assert forall|i: int| #![trigger a1[i]] 0 <= i < a1.len() implies !(a1[i] && b1[i]) by {
            assert(a[i + 1] == a1[i]);
        }
        lemma_u32_and_zero(a1, b1, x1, y1);
        assert(!(a[0] && b[0]));
        assert(x % 2 == 0 || y % 2 == 0);
        assert(x & y == 0) by (bit_vector)
            requires
                x1 == x / 2,
                y1 == y / 2,
                x1 & y1 == 0,
                x % 2 == 0 || y % 2 == 0,
        ;
    }
}

/// When every set bit of `a` is set in `b` (at most 32 bits), OR-ing the
/// word of `a` into that of `b` changes nothing.
proof fn lemma_u32_or_within(a: Seq<bool>, b: Seq<bool>, x: u32, y: u32)
    requires
        a.len() == b.len(),
        a.len() <= 32,
        x == nat_of(a),
        y == nat_of(b),
        forall|i: int| #![trigger a[i]] 0 <= i < a.len() ==> (a[i] ==> b[i]),
    ensures
        x | y == y,
    decreases a.len(),
{
    if a.len() == 0 {
        assert(x == 0 && y == 0);
        assert(0u32 | 0u32 == 0) by (bit_vector);
    } else {
        lemma_nat_of_low_bit(a);
        lemma_nat_of_low_bit(b);
        let a1 = a.skip(1);
        let b1 = b.skip(1);
        let x1 = (x / 2) as u32;
        let y1 = (y / 2) as u32;
        assert forall|i: int| #![trigger a1[i]] 0 <= i < a1.len() implies (a1[i] ==> b1[i]) by {
            assert(a[i + 1] == a1[i]);
        }
        lemma_u32_or_within(a1, b1, x1, y1);
        assert(a[0] ==> b[0]);
        assert(x % 2 == 0 || y % 2 == 1);
        assert(x | y == y) by (bit_vector)
            requires
                x1 == x / 2,
                y1 == y / 2,
                x1 | y1 == y1,
                x % 2 == 0 || y % 2 == 1,
        ;
    }
}

/// An admitted shift amount below the width passes the amount check of the
/// shift loop.
proof fn lemma_amount_possible(r: KnownBitsModel, y: Seq<bool>)
    requires
        r.0.len() == r.1.len(),
        r.0.len() == y.len(),
        y.len() <= u32::MAX,
        admits(r, y),
        nat_of(y) < y.len(),
    ensures
        shift_possible(r, nat_of(y)),
{
    let v = nat_of(y);
    lemma2_to64();
    lemma_resize_small(y, 32);
    let y32 = seq_resize(y, 32);
    let z32 = seq_resize(r.0, 32);
    let o32 = seq_resize(r.1, 32);
    lemma_nat_of_bound(z32);
    lemma_nat_of_bound(o32);
    assert(low_u32_model(r.0) == nat_of(z32));
    assert(low_u32_model(r.1) == nat_of(o32));
    let zm = nat_of(z32) as u32;
    let om = nat_of(o32) as u32;
    let am = v as u32;
    assert forall|i: int| #![trigger z32[i]] 0 <= i < z32.len() implies !(z32[i] && y32[i]) by {
        if i < y.len() {
            assert(r.0[i] ==> !y[i]);
        }
    }
    lemma_u32_and_zero(z32, y32, zm, am);
    assert forall|i: int| #![trigger o32[i]] 0 <= i < o32.len() implies (o32[i] ==> y32[i]) by {
        if i < y.len() {
            assert(r.1[i] ==> y[i]);
        }
    }
    lemma_u32_or_within(o32, y32, om, am);
}

/// A power-of-two width is two to the power of its base-2 logarithm.
proof fn lemma_pow2_log2(w: u32)
    requires
        is_pow2_u32(w),
    ensures
        log2_floor_u32(w) < 32,
        pow2(log2_floor_u32(w)) == w,
{
    axiom_u32_leading_zeros(w);
    let lz = u32_leading_zeros(w);
    let k = (31 - lz) as u32;
    assert((w >> k) & 1u32 != 0u32);
    assert(w == 1u32 << k) by (bit_vector)
        requires
            (w >> k) & 1u32 != 0u32,
            (w & ((w - 1) as u32)) == 0,
            w != 0,
            k < 32,
    ;
    lemma_u32_pow2_no_overflow(k as nat);
    lemma_u32_shl_is_mul(1u32, k);
}

/// The loop's lower bound on the shift amount is at most any admitted
/// amount (non-zero when the amount is promised non-zero).
proof fn lemma_min_shift_below(r: KnownBitsModel, y: Seq<bool>, nz: bool)
    requires
        r.0.len() == r.1.len(),
        r.0.len() == y.len(),
        y.len() <= u32::MAX,
        admits(r, y),
        nz ==> nat_of(y) != 0,
    ensures
        min_shift_model(r, y.len() as nat, nz) <= nat_of(y),
{
    assert forall|i: int| #![trigger r.1[i]] 0 <= i < r.1.len() implies (r.1[i] ==> y[i]) by {
        assert(r.1[i] ==> y[i]);
    }
    assert(bits_below(r.1, y));
    lemma_nat_of_monotone(r.1, y);
}

/// The loop's upper bound on the shift amount covers any admitted amount
/// below the width.
proof fn lemma_max_shift_above(r: KnownBitsModel, y: Seq<bool>)
    requires
        r.0.len() == r.1.len(),
        r.0.len() == y.len(),
        y.len() <= u32::MAX,
        admits(r, y),
        nat_of(y) < y.len(),
    ensures
        nat_of(y) <= max_shift_model(seq_not(r.0), y.len() as nat),
{
    let w = y.len() as nat;
    let v = nat_of(y);
    let m = seq_not(r.0);
    assert forall|i: int| #![trigger y[i]] 0 <= i < y.len() implies (y[i] ==> m[i]) by {
        assert(r.0[i] ==> !y[i]);
    }
    if is_pow2_u32(w as u32) {
        lemma_pow2_log2(w as u32);
        let k = log2_floor_u32(w as u32);
        let e = seq_extract(m, k, 0);
        let ey = seq_extract(y, k, 0);
        assert(ey =~= seq_resize(y, k));
        lemma_resize_small(y, k);
        assert forall|i: int| #![trigger ey[i]] 0 <= i < ey.len() implies (ey[i] ==> e[i]) by {
            assert(ey[i] == bit_at(y, i));
            if bit_at(y, i) {
                assert(y[i] ==> m[i]);
            }
        }
        lemma_nat_of_monotone(ey, e);
        lemma_nat_of_bound(e);
        lemma2_to64();
    } else {
        lemma_nat_of_monotone(y, m);
    }
}

/// Every shifted fact has the width of the shifted value.
proof fn lemma_shifted_width(kind: ShiftKind, l: KnownBitsModel, t: nat)
    requires
        l.0.len() == l.1.len(),
    ensures
        shifted_model(kind, l, t).0.len() == l.0.len(),
        shifted_model(kind, l, t).1.len() == l.0.len(),
{
}

/// The facts of one logical shift by `s` admit the shifted value.
proof fn lemma_lshr_shifted_sound(l: KnownBitsModel, x: Seq<bool>, s: nat)
    requires
        l.0.len() == l.1.len(),
        admits(l, x),
    ensures
        admits(lshr_shifted(l, s), seq_lshr(x, s)),
{
    let k = lshr_shifted(l, s);
    let z = seq_lshr(x, s);
    assert forall|i: int| 0 <= i < z.len() implies (k.0[i] ==> !z[i]) && (k.1[i] ==> z[i]) by {
        if i + s < x.len() {
            assert(l.0[i + s] ==> !x[i + s]);
            assert(l.1[i + s] ==> x[i + s]);
        }
    }
}

/// The facts of one arithmetic shift by `s` admit the shifted value.
proof fn lemma_ashr_shifted_sound(l: KnownBitsModel, x: Seq<bool>, s: nat)
    requires
        l.0.len() == l.1.len(),
        admits(l, x),
        x.len() > 0,
    ensures
        admits(ashr_shifted(l, s), seq_ashr(x, s)),
{
    let k = ashr_shifted(l, s);
    let z = seq_ashr(x, s);
    let top = x.len() - 1;
    assert(l.0[top] ==> !x[top]);
    assert(l.1[top] ==> x[top]);
    assert forall|i: int| 0 <= i < z.len() implies (k.0[i] ==> !z[i]) && (k.1[i] ==> z[i]) by {
        if i + s < x.len() {
            assert(l.0[i + s] ==> !x[i + s]);
            assert(l.1[i + s] ==> x[i + s]);
        }
    }
}

/// The facts of one left shift by `s` below the width admit the shifted
/// value, when the wrap flags the facts use hold of the shift.
proof fn lemma_shl_shifted_sound(l: KnownBitsModel, x: Seq<bool>, s: nat, nuw: bool, nsw: bool)
    requires
        l.0.len() == l.1.len(),
        admits(l, x),
        s < x.len(),
        nuw ==> shl_keeps_unsigned(x, s),
        nsw ==> shl_keeps_signed(x, s),
    ensures
        admits(shl_shifted(l, s, nuw, nsw), seq_shl(x, s)),
{
    let w = x.len();
    let k = shl_shifted(l, s, nuw, nsw);
    let z = seq_shl(x, s);
    let top = w - 1;
    let c = w - 1 - s;
    assert(z[top] == x[c]);
    if nsw {
        if nuw && s != 0 {
            assert(!x[top]);
            assert(x[top] == x[c]);
        } else if s > leading(l.0, false) {
            lemma_leading_props(l.0, false);
            let j = w - 1 - leading(l.0, false);
            assert(l.0[j]);
            assert(l.0[j] ==> !x[j]);
            assert(x[j] == x[c]);
        } else if s > leading(l.1, false) {
            lemma_leading_props(l.1, false);
            let j = w - 1 - leading(l.1, false);
            assert(l.1[j]);
            assert(l.1[j] ==> x[j]);
            assert(x[j] == x[c]);
        }
    }
    assert forall|i: int| 0 <= i < z.len() implies (k.0[i] ==> !z[i]) && (k.1[i] ==> z[i]) by {
        if i >= s {
            assert(l.0[i - s] ==> !x[i - s]);
            assert(l.1[i - s] ==> x[i - s]);
        }
    }
}

/// The shift loop admits a value admitted by its starting fact, or by the
/// facts of an amount it reaches that passes the amount check.
proof fn lemma_shift_loop_admits(kind: ShiftKind, l: KnownBitsModel, r: KnownBitsModel, shift: nat,
    max_shift: nat, known: KnownBitsModel, v: Seq<bool>, s: nat)
    requires
        l.0.len() == l.1.len(),
        l.0.len() == v.len(),
        known.0.len() == known.1.len(),
        known.0.len() == v.len(),
        s < u32::MAX,
        admits(known, v) || (shift <= s <= max_shift && shift_possible(r, s)
            && admits(shifted_model(kind, l, s), v)),
    ensures
        admits(shift_loop(kind, l, r, shift, max_shift, known), v),
        shift_loop(kind, l, r, shift, max_shift, known).0.len() == v.len(),
        shift_loop(kind, l, r, shift, max_shift, known).1.len() == v.len(),
    decreases max_shift + 1 - shift,
{
    if shift <= max_shift {
        let possible = shift_possible(r, shift);
        let sh = shifted_model(kind, l, shift);
        lemma_shifted_width(kind, l, shift);
        let k2 = if possible { intersect_model(known, sh) } else { known };
        if possible && (admits(known, v) || shift == s) {
            law_intersect_sound(known, sh, v);
        }
        if possible && all_false(k2.0) && all_false(k2.1) {
        } else if shift >= u32::MAX {
        } else {
            lemma_shift_loop_admits(kind, l, r, shift + 1, max_shift, k2, v, s);
        }
    }
}

/// Shifting right logically by an admitted amount below the width gives a
/// value the logical shift transfer admits, under the promises its flags
/// make: a non-zero amount, and no set bit shifted out (`exact`).
pub proof fn law_lshr_sound(l: KnownBitsModel, r: KnownBitsModel, x: Seq<bool>, y: Seq<bool>, nz: bool, exact: bool)
    requires
        l.0.len() == l.1.len(),
        r.0.len() == r.1.len(),
        l.0.len() == r.0.len(),
        l.0.len() <= u32::MAX,
        admits(l, x),
        admits(r, y),
        nat_of(y) < x.len(),
        nz ==> nat_of(y) != 0,
        exact ==> shr_keeps_all(x, nat_of(y)),
    ensures
        admits(shr_model(l, r, true, nz, exact), seq_lshr(x, nat_of(y))),
{
    lemma_shr_sound(l, r, x, y, true, nz, exact);
}

/// Shifting right arithmetically by an admitted amount below the width
/// gives a value the arithmetic shift transfer admits, under the promises
/// its flags make: a non-zero amount, and no set bit shifted out (`exact`).
pub proof fn law_ashr_sound(l: KnownBitsModel, r: KnownBitsModel, x: Seq<bool>, y: Seq<bool>, nz: bool, exact: bool)
    requires
        l.0.len() == l.1.len(),
        r.0.len() == r.1.len(),
        l.0.len() == r.0.len(),
        l.0.len() <= u32::MAX,
        admits(l, x),
        admits(r, y),
        nat_of(y) < x.len(),
        nz ==> nat_of(y) != 0,
        exact ==> shr_keeps_all(x, nat_of(y)),
    ensures
        admits(shr_model(l, r, false, nz, exact), seq_ashr(x, nat_of(y))),
{
    lemma_shr_sound(l, r, x, y, false, nz, exact);
}

/// Both right shifts: the transfer admits the shifted value.
proof fn lemma_shr_sound(l: KnownBitsModel, r: KnownBitsModel, x: Seq<bool>, y: Seq<bool>, logical: bool, nz: bool, exact: bool)
    requires
        l.0.len() == l.1.len(),
        r.0.len() == r.1.len(),
        l.0.len() == r.0.len(),
        l.0.len() <= u32::MAX,
        admits(l, x),
        admits(r, y),
        nat_of(y) < x.len(),
        nz ==> nat_of(y) != 0,
        exact ==> shr_keeps_all(x, nat_of(y)),
    ensures
        admits(shr_model(l, r, logical, nz, exact), if logical { seq_lshr(x, nat_of(y)) } else { seq_ashr(x, nat_of(y)) }),
{
    let w = x.len() as nat;
    let s = nat_of(y);
    let v = if logical { seq_lshr(x, s) } else { seq_ashr(x, s) };
    let k = shr_model(l, r, logical, nz, exact);
    lemma_min_shift_below(r, y, nz);
    let min_shift = min_shift_model(r, w, nz);
    if all_false(l.0) && all_false(l.1) {
        assert forall|i: int| 0 <= i < v.len() implies (k.0[i] ==> !v[i]) && (k.1[i] ==> v[i]) by {
        }
    } else {
        let first_one = trailing(l.1, false);
        lemma_trailing_props(l.1, false);
        if exact && first_one < w {
            assert(l.1[first_one as int] ==> x[first_one as int]);
            assert(s <= first_one);
        }
        lemma_amount_possible(r, y);
        lemma_max_shift_above(r, y);
        let init = (splat(w, true), splat(w, true));
        let m0 = max_shift_model(seq_not(r.0), w);
        let m = if exact { min_nat(m0, first_one) } else { m0 };
        let kind = if logical { ShiftKind::Lshr } else { ShiftKind::Ashr };
        if logical {
            lemma_lshr_shifted_sound(l, x, s);
        } else {
            lemma_ashr_shifted_sound(l, x, s);
        }
        lemma_shift_loop_admits(kind, l, r, min_shift, m, init, v, s);
        law_admitted_has_no_conflict(shift_loop(kind, l, r, min_shift, m, init), v);
    }
}

/// Shifting left by an admitted amount below the width gives a value the
/// left-shift transfer admits, under the promises its flags make: no set
/// bit shifted out (`nuw`), every bit shifted out equal to the result's
/// sign (`nsw`), and a non-zero amount (`nz`).
pub proof fn law_shl_sound(l: KnownBitsModel, r: KnownBitsModel, x: Seq<bool>, y: Seq<bool>, nuw: bool, nsw: bool, nz: bool)
    requires
        l.0.len() == l.1.len(),
        r.0.len() == r.1.len(),
        l.0.len() == r.0.len(),
        l.0.len() <= u32::MAX,
        admits(l, x),
        admits(r, y),
        nat_of(y) < x.len(),
        nuw ==> shl_keeps_unsigned(x, nat_of(y)),
        nsw ==> shl_keeps_signed(x, nat_of(y)),
        nz ==> nat_of(y) != 0,
    ensures
        admits(shl_model(l, r, nuw, nsw, nz), seq_shl(x, nat_of(y))),
{
    let w = x.len() as nat;
    let s = nat_of(y);
    let v = seq_shl(x, s);
    let k = shl_model(l, r, nuw, nsw, nz);
    let top = w - 1;
    let c = w - 1 - s;
    assert(v[top] == x[c]);
    if nuw && nsw && s != 0 {
        assert(!x[top]);
        assert(x[top] == x[c]);
    }
    lemma_min_shift_below(r, y, nz);
    let min_shift = min_shift_model(r, w, nz);
    if all_false(l.0) && all_false(l.1) {
        assert forall|i: int| 0 <= i < v.len() implies (k.0[i] ==> !v[i]) && (k.1[i] ==> v[i]) by {
        }
    } else {
        let lz = leading(l.1, false);
        let lo = leading(l.0, false);
        if nuw {
            assert forall|j: int| w - s <= j < w implies !#[trigger] l.1[j] by {
                assert(l.1[j] ==> x[j]);
            }
            lemma_leading_at_least(l.1, s);
        }
        if nuw && nsw && s != 0 {
            assert forall|j: int| w - (s + 1) <= j < w implies !#[trigger] l.1[j] by {
                assert(l.1[j] ==> x[j]);
                assert(x[j] == x[c]);
            }
            lemma_leading_at_least(l.1, s + 1);
        }
        if nsw {
            if x[c] {
                assert forall|j: int| w - (s + 1) <= j < w implies !#[trigger] l.0[j] by {
                    assert(x[j] == x[c]);
                    assert(l.0[j] ==> !x[j]);
                }
                lemma_leading_at_least(l.0, s + 1);
            } else {
                assert forall|j: int| w - (s + 1) <= j < w implies !#[trigger] l.1[j] by {
                    assert(x[j] == x[c]);
                    assert(l.1[j] ==> x[j]);
                }
                lemma_leading_at_least(l.1, s + 1);
            }
        }
        lemma_max_shift_above(r, y);
        let m0 = max_shift_model(seq_not(r.0), w);
        let m1 = if nuw && nsw { min_nat(m0, sat_sub(lz as int, 1)) } else { m0 };
        let m2 = if nuw { min_nat(m1, lz) } else { m1 };
        let m3 = if nsw { min_nat(m2, sat_sub((if lz > lo { lz } else { lo }) as int, 1)) } else { m2 };
        assert(s <= m3);
        if min_shift == 0 && m3 == w - 1 && w <= u32::MAX && is_pow2_u32(w as u32) {
            lemma_trailing_props(l.0, true);
            assert(l.0[top] ==> !x[top]);
            assert(l.1[top] ==> x[top]);
            assert forall|i: int| 0 <= i < v.len() implies (k.0[i] ==> !v[i]) && (k.1[i] ==> v[i]) by {
                if i >= s {
                    assert(l.0[i - s] ==> !x[i - s]);
                }
                if all_true(l.1) {
                    assert(l.1[c] ==> x[c]);
                }
            }
        } else {
            lemma_amount_possible(r, y);
            lemma_shl_shifted_sound(l, x, s, nuw, nsw);
            let init = (splat(w, true), splat(w, true));
            let kind = ShiftKind::Shl { nuw, nsw };
            lemma_shift_loop_admits(kind, l, r, min_shift, m3, init, v, s);
            law_admitted_has_no_conflict(shift_loop(kind, l, r, min_shift, m3, init), v);
        }
    }
}

} // verus!
