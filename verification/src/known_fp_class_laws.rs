//! Soundness laws of the floating-point class transfer rules: each rule
//! keeps possible every class that the operation, evaluated as IEEE
//! arithmetic on values of the operands' classes, can produce.

use vstd::prelude::*;
use crate::fp_class::{
    DenormalMode, KnownFpClass, FC_ALL, FC_INF, FC_NAN, FC_NEGATIVE, FC_POSITIVE, FC_ZERO, FC_QNAN, FC_SNAN,
    FC_NEG_INF, FC_POS_INF, FC_NEG_NORMAL, FC_POS_NORMAL, FC_NEG_SUBNORMAL, FC_POS_SUBNORMAL, FC_NEG_ZERO, FC_POS_ZERO,
    FC_NORMAL, FC_SUBNORMAL, negate_model,
};
use crate::known_fp_class::{cond_model, sign_test, is_fpclass_parts, logical_parts, not_operand, div_model, add_sub_model, sqrt_model, exp_model, log_model, absolute_model, copy_sign_model, self_div_model, int_to_fp_model, sign_bit_check, scalar_shape, max_exponent};
use crate::ir::{Module, ValueId, TypeData, FloatKind, IntPredicate};
use crate::bitseq::{nat_of, int_of, all_true, all_false, splat, lemma_nat_of_all_false};
use crate::ap_int::{lemma_msb_split, lemma_nat_of_all_ones};
use crate::ir_builder::constant_folder::int_predicate_holds;
use vstd::arithmetic::power2::pow2;

verus! {

/// `c` is one of the ten classes.
pub open spec fn is_class(c: u32) -> bool {
    c == FC_SNAN || c == FC_QNAN || c == FC_NEG_INF || c == FC_NEG_NORMAL || c == FC_NEG_SUBNORMAL || c == FC_NEG_ZERO
        || c == FC_POS_ZERO || c == FC_POS_SUBNORMAL || c == FC_POS_NORMAL || c == FC_POS_INF
}

/// `frem x, y` for some `x` of class `cx` and `y` of class `cy` has class
/// `cr`: a NaN operand, an infinite dividend or a zero divisor give NaN;
/// otherwise the remainder has the dividend's sign: a zero dividend gives
/// itself, and so does a dividend below the divisor in magnitude, which
/// an infinite divisor, or a normal divisor with a normal or subnormal
/// dividend, always allows (`1.0 % 2.0 == 1.0`); a normal dividend over a
/// normal divisor can also leave a zero of the dividend's sign
/// (`2.0 % 1.0 == 0.0`).
pub open spec fn frem_outcome(cx: u32, cy: u32, cr: u32) -> bool {
    if cx & FC_NAN != 0 || cy & FC_NAN != 0 || cx & FC_INF != 0 || cy & FC_ZERO != 0 {
        cr == FC_QNAN
    } else if cx & FC_ZERO != 0 {
        cr == cx
    } else if cy & FC_INF != 0 {
        cr == cx
    } else if cy & FC_NORMAL != 0 {
        cr == cx || (cx & FC_NORMAL != 0 && cr == (if cx & FC_NEGATIVE != 0 { FC_NEG_ZERO } else { FC_POS_ZERO }))
    } else {
        false
    }
}

/// The remainder rule keeps possible every class `frem` can produce from
/// operands of the known classes: in particular the result keeps the
/// dividend's sign, whatever the divisor's.
pub proof fn law_frem_sound(lhs: KnownFpClass, rhs: KnownFpClass, mode: Option<DenormalMode>, cx: u32, cy: u32, cr: u32)
    requires
        is_class(cx),
        is_class(cy),
        lhs.classes.bits & cx != 0,
        rhs.classes.bits & cy != 0,
        frem_outcome(cx, cy, cr),
    ensures
        div_model(lhs, rhs, false, mode).classes.bits & cr != 0,
{
    let l = lhs.classes.bits;
    let r = rhs.classes.bits;
    let res = div_model(lhs, rhs, false, mode).classes.bits;
    let nan_out = l & FC_NAN == 0 && r & FC_NAN == 0 && l & FC_INF == 0
        && (mode matches Some(md) && crate::fp_class::never_logical_zero(rhs, md));
    let n: u32 = if nan_out { 3u32 } else { 0u32 };
    let a: u32 = if l & 0x1cu32 == 0 { 0x1cu32 } else { 0u32 };
    let b: u32 = if l & 0x380u32 == 0 { 0x380u32 } else { 0u32 };
    let c: u32 = if l & 0x3cu32 == 0 { 0x3cu32 } else { 0u32 };
    let d: u32 = if l & 0x3c0u32 == 0 { 0x3c0u32 } else { 0u32 };
    assert forall|x: u32| #[trigger] (x & !0u32) == x by {
        assert(x & !0u32 == x) by (bit_vector);
    }
    let k0 = 0x3ffu32 & !n;
    let k1 = k0 & !a;
    let k2 = k1 & !b;
    let k3 = k2 & !c;
    assert(res == k3 & !d);
    assert(nan_out ==> r & 0x60u32 == 0);
    assert(res & cr != 0) by (bit_vector)
        requires
            res == (((0x3ffu32 & !n) & !a) & !b & !c) & !d,
            n == (if nan_out { 3u32 } else { 0u32 }),
            a == (if l & 0x1cu32 == 0 { 0x1cu32 } else { 0u32 }),
            b == (if l & 0x380u32 == 0 { 0x380u32 } else { 0u32 }),
            c == (if l & 0x3cu32 == 0 { 0x3cu32 } else { 0u32 }),
            d == (if l & 0x3c0u32 == 0 { 0x3c0u32 } else { 0u32 }),
            nan_out ==> (l & 3u32 == 0 && r & 3u32 == 0 && l & 0x204u32 == 0 && r & 0x60u32 == 0),
            cx == 1u32 || cx == 2u32 || cx == 4u32 || cx == 8u32 || cx == 0x10u32 || cx == 0x20u32 || cx == 0x40u32
                || cx == 0x80u32 || cx == 0x100u32 || cx == 0x200u32,
            cy == 1u32 || cy == 2u32 || cy == 4u32 || cy == 8u32 || cy == 0x10u32 || cy == 0x20u32 || cy == 0x40u32
                || cy == 0x80u32 || cy == 0x100u32 || cy == 0x200u32,
            l & cx != 0,
            r & cy != 0,
            (if cx & 3u32 != 0 || cy & 3u32 != 0 || cx & 0x204u32 != 0 || cy & 0x60u32 != 0 {
                cr == 2u32
            } else if cx & 0x60u32 != 0 {
                cr == cx
            } else if cy & 0x204u32 != 0 {
                cr == cx
            } else if cy & 0x108u32 != 0 {
                cr == cx || (cx & 0x108u32 != 0 && cr == (if cx & 0x3cu32 != 0 { 0x20u32 } else { 0x40u32 }))
            } else {
                false
            }),
    ;
}

/// The class of `-x` for `x` of class `c`.
pub open spec fn negated_class(c: u32) -> u32 {
    if c == FC_NEG_INF { FC_POS_INF } else if c == FC_POS_INF { FC_NEG_INF }
    else if c == FC_NEG_NORMAL { FC_POS_NORMAL } else if c == FC_POS_NORMAL { FC_NEG_NORMAL }
    else if c == FC_NEG_SUBNORMAL { FC_POS_SUBNORMAL } else if c == FC_POS_SUBNORMAL { FC_NEG_SUBNORMAL }
    else if c == FC_NEG_ZERO { FC_POS_ZERO } else if c == FC_POS_ZERO { FC_NEG_ZERO }
    else { c }
}

/// `x + y` for some `x` of class `cx` and `y` of class `cy` has class
/// `cr`: a NaN operand, or infinities of opposite signs, give NaN; an
/// infinity plus anything else of its sign or finite stays that
/// infinity; two normals of one sign can add up to a normal of that sign
/// (`1.0 + 1.0`); and a zero plus a normal is that normal.
pub open spec fn fadd_outcome(cx: u32, cy: u32, cr: u32) -> bool {
    if cx & FC_NAN != 0 || cy & FC_NAN != 0 || (cx == FC_POS_INF && cy == FC_NEG_INF) || (cx == FC_NEG_INF && cy == FC_POS_INF) {
        cr == FC_QNAN
    } else if cx & FC_INF != 0 {
        cr == cx
    } else if cy & FC_INF != 0 {
        cr == cy
    } else if cx & FC_NORMAL != 0 && cx == cy {
        cr == cx
    } else if cx & FC_ZERO != 0 && cy & FC_NORMAL != 0 {
        cr == cy
    } else if cy & FC_ZERO != 0 && cx & FC_NORMAL != 0 {
        cr == cx
    } else {
        false
    }
}

/// The addition and subtraction rule keeps possible every class `x + y`
/// (or `x - y`, which is `x + -y`) can take for independent operands of
/// the known classes: in particular NaN stays possible while the operands
/// can be infinities that cancel.
pub proof fn law_fadd_fsub_sound(lhs: KnownFpClass, rhs: KnownFpClass, is_add: bool, interested: u32,
    mode: Option<DenormalMode>, cx: u32, cy: u32, cr: u32)
    requires
        is_class(cx),
        is_class(cy),
        lhs.classes.bits & cx != 0,
        rhs.classes.bits & cy != 0,
        fadd_outcome(cx, if is_add { cy } else { negated_class(cy) }, cr),
    ensures
        add_sub_model(lhs, rhs, false, is_add, interested, mode).classes.bits & cr != 0,
{
    let l = lhs.classes.bits;
    let r = rhs.classes.bits;
    let res = add_sub_model(lhs, rhs, false, is_add, interested, mode).classes.bits;
    assert forall|x: u32| #[trigger] (x & !0u32) == x by {
        assert(x & !0u32 == x) by (bit_vector);
    }
    let n: u32 = if l & 3u32 == 0 && r & 3u32 == 0 && (l & 0x204u32 == 0 || r & 0x204u32 == 0) { 3u32 } else { 0u32 };
    let a: u32 = if is_add && l & 0x1cu32 == 0 && r & 0x1cu32 == 0 { 0x1cu32 } else { 0u32 };
    let b: u32 = if is_add && l & 0x380u32 == 0 && r & 0x380u32 == 0 { 0x380u32 } else { 0u32 };
    let k3 = ((0x3ffu32 & !n) & !a) & !b;
    assert(res == 0x3ffu32 || res == k3 || res == k3 & !0x40u32 || res == k3 & !0x20u32 || res == (k3 & !0x40u32) & !0x20u32);
    let ey = if is_add { cy } else { negated_class(cy) };
    assert(res & cr != 0) by (bit_vector)
        requires
            res == 0x3ffu32 || res == k3 || res == k3 & !0x40u32 || res == k3 & !0x20u32 || res == (k3 & !0x40u32) & !0x20u32,
            k3 == ((0x3ffu32 & !n) & !a) & !b,
            n == (if l & 3u32 == 0 && r & 3u32 == 0 && (l & 0x204u32 == 0 || r & 0x204u32 == 0) { 3u32 } else { 0u32 }),
            a == (if is_add && l & 0x1cu32 == 0 && r & 0x1cu32 == 0 { 0x1cu32 } else { 0u32 }),
            b == (if is_add && l & 0x380u32 == 0 && r & 0x380u32 == 0 { 0x380u32 } else { 0u32 }),
            cx == 1u32 || cx == 2u32 || cx == 4u32 || cx == 8u32 || cx == 0x10u32 || cx == 0x20u32 || cx == 0x40u32
                || cx == 0x80u32 || cx == 0x100u32 || cx == 0x200u32,
            cy == 1u32 || cy == 2u32 || cy == 4u32 || cy == 8u32 || cy == 0x10u32 || cy == 0x20u32 || cy == 0x40u32
                || cy == 0x80u32 || cy == 0x100u32 || cy == 0x200u32,
            l & cx != 0,
            r & cy != 0,
            ey == (if is_add { cy } else {
                if cy == 4u32 { 0x200u32 } else if cy == 0x200u32 { 4u32 } else if cy == 8u32 { 0x100u32 }
                else if cy == 0x100u32 { 8u32 } else if cy == 0x10u32 { 0x80u32 } else if cy == 0x80u32 { 0x10u32 }
                else if cy == 0x20u32 { 0x40u32 } else if cy == 0x40u32 { 0x20u32 } else { cy }
            }),
            (if cx & 3u32 != 0 || ey & 3u32 != 0 || (cx == 0x200u32 && ey == 4u32) || (cx == 4u32 && ey == 0x200u32) {
                cr == 2u32
            } else if cx & 0x204u32 != 0 {
                cr == cx
            } else if ey & 0x204u32 != 0 {
                cr == ey
            } else if cx & 0x108u32 != 0 && cx == ey {
                cr == cx
            } else if cx & 0x60u32 != 0 && ey & 0x108u32 != 0 {
                cr == ey
            } else if ey & 0x60u32 != 0 && cx & 0x108u32 != 0 {
                cr == cx
            } else {
                false
            }),
    ;
}

/// `sqrt x` for some `x` of class `cx` has class `cr`: NaN for a NaN or
/// a value below zero, infinity for infinity, a zero of its own sign for
/// a zero, and a normal for a positive normal (`sqrt 1.0 == 1.0`).
pub open spec fn sqrt_outcome(cx: u32, cr: u32) -> bool {
    if cx & FC_NAN != 0 || cx == FC_NEG_INF || cx == FC_NEG_NORMAL {
        cr == FC_QNAN
    } else if cx == FC_POS_INF || cx == FC_POS_ZERO || cx == FC_NEG_ZERO || cx == FC_POS_NORMAL {
        cr == cx
    } else {
        false
    }
}

/// The square-root rule keeps possible every class `sqrt` can give for a
/// source of the known classes: in particular NaN stays possible while
/// the source can be below zero.
pub proof fn law_sqrt_sound(src: KnownFpClass, mode: DenormalMode, cx: u32, cr: u32)
    requires
        is_class(cx),
        src.classes.bits & cx != 0,
        sqrt_outcome(cx, cr),
    ensures
        sqrt_model(src, mode).classes.bits & cr != 0,
{
    let c = src.classes.bits;
    let res = sqrt_model(src, mode).classes.bits;
    assert forall|x: u32| #[trigger] (x & !0u32) == x by {
        assert(x & !0u32 == x) by (bit_vector);
    }
    let p: u32 = if c & 0x200u32 == 0 { 0x200u32 } else { 0u32 };
    let q: u32 = if c & 1u32 == 0 { 1u32 } else { 0u32 };
    let n: u32 = if c & 3u32 == 0 && c & 0x1cu32 == 0 { 3u32 } else { 0u32 };
    let z: u32 = if crate::fp_class::never_logical_neg_zero(src, mode) { 0x20u32 } else { 0u32 };
    assert(z != 0 ==> c & 0x20u32 == 0);
    let k3 = ((0x3ffu32 & !p) & !q) & !n;
    let u = crate::known_fp_class::unknown_class();
    let s1 = if c & FC_POS_INF == 0 { crate::fp_class::known_not_model(u, FC_POS_INF) } else { u };
    assert(s1.classes.bits == 0x3ffu32 & !p);
    let s2 = if c & FC_SNAN == 0 { crate::fp_class::known_not_model(s1, FC_SNAN) } else { s1 };
    assert(s2.classes.bits == (0x3ffu32 & !p) & !q);
    let s3 = if c & FC_NAN == 0 && c & crate::fp_class::FC_ORDERED_LESS_THAN_ZERO == 0 { crate::fp_class::known_not_model(s2, FC_NAN) } else { s2 };
    assert(s3.classes.bits == k3);
    let s4 = crate::fp_class::known_not_model(s3, FC_NEG_INF | FC_NEG_SUBNORMAL | FC_NEG_NORMAL);
    assert(FC_NEG_INF | FC_NEG_SUBNORMAL | FC_NEG_NORMAL == 0x1cu32) by (bit_vector);
    assert(s4.classes.bits == k3 & !0x1cu32);
    assert(res == (k3 & !0x1cu32) & !z);
    assert(res & cr != 0) by (bit_vector)
        requires
            res == (k3 & !0x1cu32) & !z,
            k3 == ((0x3ffu32 & !p) & !q) & !n,
            p == (if c & 0x200u32 == 0 { 0x200u32 } else { 0u32 }),
            q == (if c & 1u32 == 0 { 1u32 } else { 0u32 }),
            n == (if c & 3u32 == 0 && c & 0x1cu32 == 0 { 3u32 } else { 0u32 }),
            z == 0u32 || (z == 0x20u32 && c & 0x20u32 == 0),
            cx == 1u32 || cx == 2u32 || cx == 4u32 || cx == 8u32 || cx == 0x10u32 || cx == 0x20u32 || cx == 0x40u32
                || cx == 0x80u32 || cx == 0x100u32 || cx == 0x200u32,
            c & cx != 0,
            (if cx & 3u32 != 0 || cx == 4u32 || cx == 8u32 {
                cr == 2u32
            } else if cx == 0x200u32 || cx == 0x40u32 || cx == 0x20u32 || cx == 0x100u32 {
                cr == cx
            } else {
                false
            }),
    ;
}

/// The number of magnitude bits of an integer of width `w`: all of them
/// unsigned, all but the sign bit signed.
pub open spec fn magnitude_bits(w: u32, signed: bool) -> int {
    if signed { w - 1 } else { w as int }
}

/// The integer-to-float rule keeps possible what converting an integer of
/// the source's width can give: zero (for `0`), a positive normal (for
/// `1`) when unsigned, a negative normal (for `-1`) when signed, and
/// infinity (of either
/// sign, when signed) whenever the largest integer of the width reaches
/// past the format's largest finite value, that is when the format's
/// largest exponent is below the number of magnitude bits.
pub proof fn law_int_to_fp_sound(m: Module, v: ValueId, src: ValueId, signed: bool, interested: u32, w: u32, kind: FloatKind)
    requires
        scalar_shape(m, m.shape_of(src)) == (TypeData::Integer { bits: w }),
        scalar_shape(m, m.shape_of(v)) == (TypeData::Float { kind }),
    ensures
        int_to_fp_model(m, v, src, signed, interested).classes.bits & FC_POS_ZERO != 0,
        !signed ==> int_to_fp_model(m, v, src, signed, interested).classes.bits & FC_POS_NORMAL != 0,
        signed ==> int_to_fp_model(m, v, src, signed, interested).classes.bits & FC_NEG_NORMAL != 0,
        max_exponent(kind) < magnitude_bits(w, signed)
            ==> int_to_fp_model(m, v, src, signed, interested).classes.bits & FC_POS_INF != 0,
        max_exponent(kind) < magnitude_bits(w, signed) && signed
            ==> int_to_fp_model(m, v, src, signed, interested).classes.bits & FC_NEG_INF != 0,
{
    let res = int_to_fp_model(m, v, src, signed, interested).classes.bits;
    let k1 = ((0x3ffu32 & !3u32) & !0x90u32) & !0x20u32;
    assert(((0x3ffu32 & !3u32) & !0x90u32) & !0x20u32 == 0x34cu32) by (bit_vector);
    let k2 = if signed { k1 } else { k1 & (0x3c0u32 | 3u32) };
    assert(k2 == (if signed { 0x34cu32 } else { 0x340u32 })) by {
        assert(0x34cu32 & (0x3c0u32 | 3u32) == 0x340u32) by (bit_vector);
    }
    if max_exponent(kind) < magnitude_bits(w, signed) {
        assert(res == k2);
        assert(0x34cu32 & 0x200u32 != 0 && 0x34cu32 & 4u32 != 0 && 0x340u32 & 0x200u32 != 0) by (bit_vector);
    } else {
        assert(res == k2 || res == k2 & !0x204u32);
    }
    assert(0x34cu32 & 0x40u32 != 0 && 0x340u32 & 0x40u32 != 0 && (0x34cu32 & !0x204u32) & 0x40u32 != 0
        && (0x340u32 & !0x204u32) & 0x40u32 != 0) by (bit_vector);
    assert(0x340u32 & 0x100u32 != 0 && (0x340u32 & !0x204u32) & 0x100u32 != 0 && 0x34cu32 & 8u32 != 0
        && (0x34cu32 & !0x204u32) & 8u32 != 0) by (bit_vector);
}

/// Whether `icmp pred x, b` holds for every `x` of `b`'s width exactly
/// when the sign bit of `x` is as `sign_bit_check` says: the sign-bit
/// reading of a comparison agrees with evaluating it.
pub proof fn law_sign_bit_check_sound(pred: IntPredicate, b: Seq<bool>, x: Seq<bool>)
    requires
        b.len() > 0,
        x.len() == b.len(),
        sign_bit_check(pred, b) is Some,
    ensures
        int_predicate_holds(pred, x, b) == (x.last() == sign_bit_check(pred, b).unwrap()),
{
    let w = b.len();
    lemma_msb_split(x);
    lemma_msb_split(b);
    let h = pow2((w - 1) as nat);
    if all_false(b) {
        lemma_nat_of_all_false(b);
        assert(!b.last());
        assert(int_of(b) == 0);
    }
    if all_true(b) {
        lemma_nat_of_all_ones(w);
        assert(b =~= splat(w, true));
        assert(b.last());
        assert(int_of(b) == -1);
    }
    if crate::known_fp_class::signed_extreme(b, true) {
        assert(all_false(b.drop_last()));
        lemma_nat_of_all_false(b.drop_last());
        assert(nat_of(b) == h);
    }
    if crate::known_fp_class::signed_extreme(b, false) {
        assert(b.drop_last() =~= splat((w - 1) as nat, true));
        lemma_nat_of_all_ones((w - 1) as nat);
        assert(nat_of(b) == h - 1);
    }
    assert(x.last() ==> int_of(x) < 0);
    assert(!x.last() ==> int_of(x) >= 0);
    assert(x.last() ==> nat_of(x) >= h);
    assert(!x.last() ==> nat_of(x) < h);
}

/// The class of one of the zeros (`neg` for `-0`), infinities or normals.
pub open spec fn signed_class(kind: u32, neg: bool) -> u32 {
    if kind == FC_ZERO { if neg { FC_NEG_ZERO } else { FC_POS_ZERO } }
    else if kind == FC_INF { if neg { FC_NEG_INF } else { FC_POS_INF } }
    else { if neg { FC_NEG_NORMAL } else { FC_POS_NORMAL } }
}

/// `x / y` for some `x` of class `cx` and `y` of class `cy` has class
/// `cr`: NaN for a NaN operand, `0 / 0` and `inf / inf`; otherwise its
/// sign is the exclusive or of the operands' signs: `x / 0` is infinite,
/// `0 / y` and `x / inf` are zero, `inf / y` is infinite, and a normal
/// over a normal can be normal (`1.0 / 1.0`).
pub open spec fn fdiv_outcome(cx: u32, cy: u32, cr: u32) -> bool {
    let neg = (cx & FC_NEGATIVE != 0) != (cy & FC_NEGATIVE != 0);
    if cx & FC_NAN != 0 || cy & FC_NAN != 0 || (cx & FC_ZERO != 0 && cy & FC_ZERO != 0) || (cx & FC_INF != 0 && cy & FC_INF != 0) {
        cr == FC_QNAN
    } else if cy & FC_ZERO != 0 {
        cr == signed_class(FC_INF, neg)
    } else if cx & FC_ZERO != 0 || cy & FC_INF != 0 {
        cr == signed_class(FC_ZERO, neg)
    } else if cx & FC_INF != 0 {
        cr == signed_class(FC_INF, neg)
    } else if cx & FC_NORMAL != 0 && cy & FC_NORMAL != 0 {
        cr == signed_class(FC_NORMAL, neg)
    } else {
        false
    }
}

/// The division rule keeps possible every class `x / y` can take for
/// operands of the known classes: the sign of a quotient is the
/// exclusive or of the operands' signs.
pub proof fn law_fdiv_sound(lhs: KnownFpClass, rhs: KnownFpClass, mode: Option<DenormalMode>, cx: u32, cy: u32, cr: u32)
    requires
        is_class(cx),
        is_class(cy),
        lhs.classes.bits & cx != 0,
        rhs.classes.bits & cy != 0,
        fdiv_outcome(cx, cy, cr),
    ensures
        div_model(lhs, rhs, true, mode).classes.bits & cr != 0,
{
    let l = lhs.classes.bits;
    let r = rhs.classes.bits;
    let res = div_model(lhs, rhs, true, mode).classes.bits;
    assert forall|x: u32| #[trigger] (x & !0u32) == x by {
        assert(x & !0u32 == x) by (bit_vector);
    }
    let nan_out = l & FC_NAN == 0 && r & FC_NAN == 0 && (l & FC_INF == 0 || r & FC_INF == 0)
        && (mode matches Some(md) && (crate::fp_class::never_logical_zero(lhs, md) || crate::fp_class::never_logical_zero(rhs, md)));
    assert(nan_out ==> (l & 0x60u32 == 0 || r & 0x60u32 == 0));
    let n: u32 = if nan_out { 3u32 } else { 0u32 };
    let a: u32 = if (l & 0x3cu32 == 0 && r & 0x3cu32 == 0) || (l & 0x3c0u32 == 0 && r & 0x3c0u32 == 0) { 0x3cu32 } else { 0u32 };
    let b: u32 = if (l & 0x3c0u32 == 0 && r & 0x3cu32 == 0) || (l & 0x3cu32 == 0 && r & 0x3c0u32 == 0) { 0x3c0u32 } else { 0u32 };
    let c: u32 = if l & !0x60u32 == 0 { 0x39cu32 } else { 0u32 };
    let d: u32 = if r & !0x60u32 == 0 { 0x1f8u32 } else { 0u32 };
    assert(FC_SUBNORMAL | FC_NORMAL | FC_INF == 0x39cu32) by (bit_vector);
    let k1 = 0x3ffu32 & !n;
    let k2 = k1 & !a;
    let k3 = k2 & !b;
    let k4 = k3 & !c;
    assert(res == k4 & !d);
    let neg = (cx & 0x3cu32 != 0) != (cy & 0x3cu32 != 0);
    assert(res & cr != 0) by (bit_vector)
        requires
            res == (((0x3ffu32 & !n) & !a) & !b & !c) & !d,
            n == (if nan_out { 3u32 } else { 0u32 }),
            nan_out ==> (l & 3u32 == 0 && r & 3u32 == 0 && (l & 0x204u32 == 0 || r & 0x204u32 == 0) && (l & 0x60u32 == 0 || r & 0x60u32 == 0)),
            a == (if (l & 0x3cu32 == 0 && r & 0x3cu32 == 0) || (l & 0x3c0u32 == 0 && r & 0x3c0u32 == 0) { 0x3cu32 } else { 0u32 }),
            b == (if (l & 0x3c0u32 == 0 && r & 0x3cu32 == 0) || (l & 0x3cu32 == 0 && r & 0x3c0u32 == 0) { 0x3c0u32 } else { 0u32 }),
            c == (if l & !0x60u32 == 0 { 0x39cu32 } else { 0u32 }),
            d == (if r & !0x60u32 == 0 { 0x1f8u32 } else { 0u32 }),
            cx == 1u32 || cx == 2u32 || cx == 4u32 || cx == 8u32 || cx == 0x10u32 || cx == 0x20u32 || cx == 0x40u32
                || cx == 0x80u32 || cx == 0x100u32 || cx == 0x200u32,
            cy == 1u32 || cy == 2u32 || cy == 4u32 || cy == 8u32 || cy == 0x10u32 || cy == 0x20u32 || cy == 0x40u32
                || cy == 0x80u32 || cy == 0x100u32 || cy == 0x200u32,
            l & cx != 0,
            r & cy != 0,
            neg == ((cx & 0x3cu32 != 0) != (cy & 0x3cu32 != 0)),
            (if cx & 3u32 != 0 || cy & 3u32 != 0 || (cx & 0x60u32 != 0 && cy & 0x60u32 != 0) || (cx & 0x204u32 != 0 && cy & 0x204u32 != 0) {
                cr == 2u32
            } else if cy & 0x60u32 != 0 {
                cr == (if neg { 4u32 } else { 0x200u32 })
            } else if cx & 0x60u32 != 0 || cy & 0x204u32 != 0 {
                cr == (if neg { 0x20u32 } else { 0x40u32 })
            } else if cx & 0x204u32 != 0 {
                cr == (if neg { 4u32 } else { 0x200u32 })
            } else if cx & 0x108u32 != 0 && cy & 0x108u32 != 0 {
                cr == (if neg { 8u32 } else { 0x100u32 })
            } else {
                false
            }),
    ;
}

/// `exp x` for some `x` of class `cx` has class `cr`: NaN for NaN, `+0`
/// for `-inf`, `+inf` for `+inf`, `1.0` for a zero, and for a finite
/// value a positive normal (`exp 0.5`) or, past the range, `+inf`
/// (from above) or a positive zero (from below).
pub open spec fn exp_outcome(cx: u32, cr: u32) -> bool {
    if cx & FC_NAN != 0 { cr == FC_QNAN }
    else if cx == FC_NEG_INF { cr == FC_POS_ZERO }
    else if cx == FC_POS_INF { cr == FC_POS_INF }
    else if cx & FC_ZERO != 0 || cx & FC_SUBNORMAL != 0 { cr == FC_POS_NORMAL }
    else if cx == FC_POS_NORMAL { cr == FC_POS_NORMAL || cr == FC_POS_INF }
    else if cx == FC_NEG_NORMAL { cr == FC_POS_NORMAL || cr == FC_POS_ZERO }
    else { false }
}

/// The exponential rule keeps possible every class `exp` can give for a
/// source of the known classes.
pub proof fn law_exp_sound(src: KnownFpClass, cx: u32, cr: u32)
    requires
        is_class(cx),
        src.classes.bits & cx != 0,
        exp_outcome(cx, cr),
    ensures
        exp_model(src).classes.bits & cr != 0,
{
    let c = src.classes.bits;
    let res = exp_model(src).classes.bits;
    assert(res == 0x3ffu32 & !0x3cu32 || (c & 3u32 == 0 && res == ((0x3ffu32 & !0x3cu32) & !3u32) & (0x3c0u32 | 3u32)));
    assert(res & cr != 0) by (bit_vector)
        requires
            res == 0x3ffu32 & !0x3cu32 || (c & 3u32 == 0 && res == ((0x3ffu32 & !0x3cu32) & !3u32) & (0x3c0u32 | 3u32)),
            cx == 1u32 || cx == 2u32 || cx == 4u32 || cx == 8u32 || cx == 0x10u32 || cx == 0x20u32 || cx == 0x40u32
                || cx == 0x80u32 || cx == 0x100u32 || cx == 0x200u32,
            c & cx != 0,
            (if cx & 3u32 != 0 { cr == 2u32 } else if cx == 4u32 { cr == 0x40u32 } else if cx == 0x200u32 { cr == 0x200u32 }
            else if cx & 0x60u32 != 0 || cx & 0x90u32 != 0 { cr == 0x100u32 }
            else if cx == 0x100u32 { cr == 0x100u32 || cr == 0x200u32 }
            else if cx == 8u32 { cr == 0x100u32 || cr == 0x40u32 } else { false }),
    ;
}

/// `log x` for some `x` of class `cx` has class `cr`: NaN for NaN and for
/// values below zero, `-inf` for a zero, `+inf` for `+inf`, and for a
/// positive normal a normal of either sign (`log 2.0`, `log 0.5`) or
/// `+0` (`log 1.0`).
pub open spec fn log_outcome(cx: u32, cr: u32) -> bool {
    if cx & FC_NAN != 0 || cx == FC_NEG_INF || cx == FC_NEG_NORMAL { cr == FC_QNAN }
    else if cx & FC_ZERO != 0 { cr == FC_NEG_INF }
    else if cx == FC_POS_INF { cr == FC_POS_INF }
    else if cx == FC_POS_NORMAL { cr == FC_POS_NORMAL || cr == FC_NEG_NORMAL || cr == FC_POS_ZERO }
    else { false }
}

/// The logarithm rule keeps possible every class `log` can give for a
/// source of the known classes.
pub proof fn law_log_sound(src: KnownFpClass, mode: DenormalMode, cx: u32, cr: u32)
    requires
        is_class(cx),
        src.classes.bits & cx != 0,
        log_outcome(cx, cr),
    ensures
        log_model(src, mode).classes.bits & cr != 0,
{
    let c = src.classes.bits;
    let res = log_model(src, mode).classes.bits;
    assert forall|x: u32| #[trigger] (x & !0u32) == x by {
        assert(x & !0u32 == x) by (bit_vector);
    }
    let p: u32 = if c & 0x200u32 == 0 { 0x200u32 } else { 0u32 };
    let n: u32 = if c & 3u32 == 0 && c & 0x1cu32 == 0 { 3u32 } else { 0u32 };
    let z: u32 = if crate::fp_class::never_logical_zero(src, mode) { 4u32 } else { 0u32 };
    assert(z != 0 ==> c & 0x60u32 == 0);
    let k1 = 0x3ffu32 & !p;
    let k2 = k1 & !n;
    assert(res == k2 & !z);
    assert(res & cr != 0) by (bit_vector)
        requires
            res == ((0x3ffu32 & !p) & !n) & !z,
            p == (if c & 0x200u32 == 0 { 0x200u32 } else { 0u32 }),
            n == (if c & 3u32 == 0 && c & 0x1cu32 == 0 { 3u32 } else { 0u32 }),
            z == 0u32 || (z == 4u32 && c & 0x60u32 == 0),
            cx == 1u32 || cx == 2u32 || cx == 4u32 || cx == 8u32 || cx == 0x10u32 || cx == 0x20u32 || cx == 0x40u32
                || cx == 0x80u32 || cx == 0x100u32 || cx == 0x200u32,
            c & cx != 0,
            (if cx & 3u32 != 0 || cx == 4u32 || cx == 8u32 { cr == 2u32 } else if cx & 0x60u32 != 0 { cr == 4u32 }
            else if cx == 0x200u32 { cr == 0x200u32 }
            else if cx == 0x100u32 { cr == 0x100u32 || cr == 8u32 || cr == 0x40u32 } else { false }),
    ;
}

/// `c` is a class whose values have the sign bit set (NaNs aside).
pub open spec fn is_negative_class(c: u32) -> bool {
    c == FC_NEG_INF || c == FC_NEG_NORMAL || c == FC_NEG_SUBNORMAL || c == FC_NEG_ZERO
}

/// The class of `|x|` for `x` of class `c`.
pub open spec fn abs_class(c: u32) -> u32 {
    if is_negative_class(c) { negated_class(c) } else { c }
}

/// The absolute-value rule keeps the class of `|x|` possible for every
/// `x` of a known class, and leaves no negative class.
pub proof fn law_fabs_sound(k: KnownFpClass, cx: u32)
    requires
        is_class(cx),
        k.classes.bits & cx != 0,
    ensures
        absolute_model(k).classes.bits & abs_class(cx) != 0,
        absolute_model(k).classes.bits & FC_NEGATIVE == 0,
{
    let c = k.classes.bits;
    let res = absolute_model(k).classes.bits;
    let w = c | (if c & 0x20u32 != 0 { 0x40u32 } else { 0u32 }) | (if c & 4u32 != 0 { 0x200u32 } else { 0u32 })
        | (if c & 0x10u32 != 0 { 0x80u32 } else { 0u32 }) | (if c & 8u32 != 0 { 0x100u32 } else { 0u32 });
    assert(res == w & (0x3c0u32 | 3u32));
    let ac = abs_class(cx);
    assert(res & ac != 0 && res & 0x3cu32 == 0) by (bit_vector)
        requires
            res == w & (0x3c0u32 | 3u32),
            w == c | (if c & 0x20u32 != 0 { 0x40u32 } else { 0u32 }) | (if c & 4u32 != 0 { 0x200u32 } else { 0u32 })
                | (if c & 0x10u32 != 0 { 0x80u32 } else { 0u32 }) | (if c & 8u32 != 0 { 0x100u32 } else { 0u32 }),
            cx == 1u32 || cx == 2u32 || cx == 4u32 || cx == 8u32 || cx == 0x10u32 || cx == 0x20u32 || cx == 0x40u32
                || cx == 0x80u32 || cx == 0x100u32 || cx == 0x200u32,
            c & cx != 0,
            ac == (if cx == 4u32 || cx == 8u32 || cx == 0x10u32 || cx == 0x20u32 {
                if cx == 4u32 { 0x200u32 } else if cx == 8u32 { 0x100u32 } else if cx == 0x10u32 { 0x80u32 } else { 0x40u32 }
            } else { cx }),
    ;
}

/// `k` holds no sign bit that its classes contradict.
pub open spec fn sign_consistent(k: KnownFpClass) -> bool {
    &&& (k.sign_bit == Some(true) ==> k.classes.bits & FC_POSITIVE == 0)
    &&& (k.sign_bit == Some(false) ==> k.classes.bits & FC_NEGATIVE == 0)
}

/// The class of `copysign(x, y)` for `x` of class `cx` and a `y` of class
/// `cy` that is no NaN: the magnitude of `x` with the sign of `y`.
pub open spec fn copysign_class(cx: u32, cy: u32) -> u32 {
    if cx == FC_SNAN || cx == FC_QNAN { cx }
    else if is_negative_class(cy) == is_negative_class(cx) { cx }
    else { negated_class(cx) }
}

/// The copy-sign rule keeps possible the magnitude of every `x` of a known
/// class with the sign of every `y` of a known class.
pub proof fn law_copysign_sound(k: KnownFpClass, sign: KnownFpClass, cx: u32, cy: u32)
    requires
        is_class(cx),
        is_class(cy),
        cy & FC_NAN == 0,
        k.classes.bits & cx != 0,
        sign.classes.bits & cy != 0,
        sign_consistent(sign),
    ensures
        copy_sign_model(k, sign).classes.bits & copysign_class(cx, cy) != 0,
{
    let c = k.classes.bits;
    let y = sign.classes.bits;
    let res = copy_sign_model(k, sign).classes.bits;
    let st = sign.sign_bit == Some(true);
    let sf = sign.sign_bit == Some(false);
    let c1 = c | (if c & 0x60u32 != 0 { 0x60u32 } else { 0u32 }) | (if c & 0x90u32 != 0 { 0x90u32 } else { 0u32 })
        | (if c & 0x108u32 != 0 { 0x108u32 } else { 0u32 }) | (if c & 0x204u32 != 0 { 0x204u32 } else { 0u32 });
    let c2 = if y & (0x3c0u32 | 3u32) == 0 || st { c1 & (0x3cu32 | 3u32) } else { c1 };
    assert(res == (if y & (0x3cu32 | 3u32) == 0 || sf { c2 & (0x3c0u32 | 3u32) } else { c2 }));
    let cc = copysign_class(cx, cy);
    assert(res & cc != 0) by (bit_vector)
        requires
            res == (if y & (0x3cu32 | 3u32) == 0 || sf { c2 & (0x3c0u32 | 3u32) } else { c2 }),
            c2 == (if y & (0x3c0u32 | 3u32) == 0 || st { c1 & (0x3cu32 | 3u32) } else { c1 }),
            c1 == c | (if c & 0x60u32 != 0 { 0x60u32 } else { 0u32 }) | (if c & 0x90u32 != 0 { 0x90u32 } else { 0u32 })
                | (if c & 0x108u32 != 0 { 0x108u32 } else { 0u32 }) | (if c & 0x204u32 != 0 { 0x204u32 } else { 0u32 }),
            st ==> y & 0x3c0u32 == 0,
            sf ==> y & 0x3cu32 == 0,
            cx == 1u32 || cx == 2u32 || cx == 4u32 || cx == 8u32 || cx == 0x10u32 || cx == 0x20u32 || cx == 0x40u32
                || cx == 0x80u32 || cx == 0x100u32 || cx == 0x200u32,
            cy == 1u32 || cy == 2u32 || cy == 4u32 || cy == 8u32 || cy == 0x10u32 || cy == 0x20u32 || cy == 0x40u32
                || cy == 0x80u32 || cy == 0x100u32 || cy == 0x200u32,
            cy & 3u32 == 0,
            c & cx != 0,
            y & cy != 0,
            cc == (if cx == 1u32 || cx == 2u32 { cx } else if (cy == 4u32 || cy == 8u32 || cy == 0x10u32 || cy == 0x20u32)
                == (cx == 4u32 || cx == 8u32 || cx == 0x10u32 || cx == 0x20u32) { cx } else {
                if cx == 4u32 { 0x200u32 } else if cx == 0x200u32 { 4u32 } else if cx == 8u32 { 0x100u32 }
                else if cx == 0x100u32 { 8u32 } else if cx == 0x10u32 { 0x80u32 } else if cx == 0x80u32 { 0x10u32 }
                else if cx == 0x20u32 { 0x40u32 } else { 0x20u32 }
            }),
    ;
}

/// Negation keeps exactly the negated class of every known class.
pub proof fn law_negate_sound(k: KnownFpClass, cx: u32)
    requires
        is_class(cx),
        k.classes.bits & cx != 0,
    ensures
        negate_model(k).classes.bits & negated_class(cx) != 0,
{
    let c = k.classes.bits;
    let res = negate_model(k).classes.bits;
    let nc = negated_class(cx);
    assert(res & nc != 0) by (bit_vector)
        requires
            res == (c & 3u32)
                | (if c & 4u32 != 0 { 0x200u32 } else { 0u32 }) | (if c & 0x200u32 != 0 { 4u32 } else { 0u32 })
                | (if c & 8u32 != 0 { 0x100u32 } else { 0u32 }) | (if c & 0x100u32 != 0 { 8u32 } else { 0u32 })
                | (if c & 0x10u32 != 0 { 0x80u32 } else { 0u32 }) | (if c & 0x80u32 != 0 { 0x10u32 } else { 0u32 })
                | (if c & 0x20u32 != 0 { 0x40u32 } else { 0u32 }) | (if c & 0x40u32 != 0 { 0x20u32 } else { 0u32 }),
            cx == 1u32 || cx == 2u32 || cx == 4u32 || cx == 8u32 || cx == 0x10u32 || cx == 0x20u32 || cx == 0x40u32
                || cx == 0x80u32 || cx == 0x100u32 || cx == 0x200u32,
            c & cx != 0,
            nc == (if cx == 4u32 { 0x200u32 } else if cx == 0x200u32 { 4u32 } else if cx == 8u32 { 0x100u32 }
                else if cx == 0x100u32 { 8u32 } else if cx == 0x10u32 { 0x80u32 } else if cx == 0x80u32 { 0x10u32 }
                else if cx == 0x20u32 { 0x40u32 } else if cx == 0x40u32 { 0x20u32 } else { cx }),
    ;
}

/// `x / x` (`is_divide`) or `x % x` for some `x` of class `cx` has class
/// `cr`: NaN for a NaN, a zero or an infinity; otherwise `1.0` for a
/// quotient and a zero of `x`'s sign for a remainder.
pub open spec fn self_div_outcome(cx: u32, is_divide: bool, cr: u32) -> bool {
    if cx & (FC_NAN | FC_ZERO | FC_INF) != 0 { cr == FC_QNAN }
    else if is_divide { cr == FC_POS_NORMAL }
    else { cr == (if cx & FC_NEGATIVE != 0 { FC_NEG_ZERO } else { FC_POS_ZERO }) }
}

/// The rule for dividing a value by itself keeps possible every class the
/// quotient or remainder can take.
pub proof fn law_self_div_sound(src: KnownFpClass, is_divide: bool, interested: u32, mode: DenormalMode, cx: u32, cr: u32)
    requires
        is_class(cx),
        src.classes.bits & cx != 0,
        self_div_outcome(cx, is_divide, cr),
    ensures
        self_div_model(src, is_divide, interested, mode).classes.bits & cr != 0,
{
    let c = src.classes.bits;
    let res = self_div_model(src, is_divide, interested, mode).classes.bits;
    let base: u32 = if is_divide { 3u32 | 0x100u32 } else { 3u32 | 0x60u32 };
    let nan_out = c & (0x204u32 | 3u32) == 0 && crate::fp_class::never_logical_zero(src, mode);
    assert(nan_out ==> c & 0x60u32 == 0);
    assert(res == base || (nan_out && res == base & !3u32) || res == base & !1u32);
    assert(res & cr != 0) by (bit_vector)
        requires
            base == (if is_divide { 3u32 | 0x100u32 } else { 3u32 | 0x60u32 }),
            res == base || (nan_out && res == base & !3u32) || res == base & !1u32,
            nan_out ==> (c & (0x204u32 | 3u32) == 0 && c & 0x60u32 == 0),
            cx == 1u32 || cx == 2u32 || cx == 4u32 || cx == 8u32 || cx == 0x10u32 || cx == 0x20u32 || cx == 0x40u32
                || cx == 0x80u32 || cx == 0x100u32 || cx == 0x200u32,
            c & cx != 0,
            (if cx & (3u32 | 0x60u32 | 0x204u32) != 0 { cr == 2u32 } else if is_divide { cr == 0x100u32 }
            else { cr == (if cx & 0x3cu32 != 0 { 0x20u32 } else { 0x40u32 }) }),
    ;
}

/// Refining by a sign-bit test of `value`'s bits keeps every class of
/// `value` that agrees with the test's outcome: a NaN of either sign, and
/// otherwise a class whose sign bit is the one the test, taken as
/// `is_true`, says.
pub proof fn law_sign_test_refinement_sound(m: Module, value: ValueId, c: ValueId, is_true: bool, k: KnownFpClass,
    depth: nat, cx: u32)
    requires
        sign_test(m, c, value) is Some,
        is_class(cx),
        k.classes.bits & cx != 0,
        cx == FC_SNAN || cx == FC_QNAN || is_negative_class(cx) == (sign_test(m, c, value).unwrap() == is_true),
    ensures
        cond_model(m, value, c, is_true, k, depth).classes.bits & cx != 0,
{
    assert(logical_parts(m, c) is None);
    assert(not_operand(m, c) is None);
    assert(is_fpclass_parts(m, c) is None);
    let one = sign_test(m, c, value).unwrap() == is_true;
    let kb = k.classes.bits;
    assert(cond_model(m, value, c, is_true, k, depth).classes.bits == kb & (if one { FC_NEGATIVE | FC_NAN } else { FC_POSITIVE | FC_NAN }));
    let neg = is_negative_class(cx);
    assert((kb & (if one { 0x3cu32 | 3u32 } else { 0x3c0u32 | 3u32 })) & cx != 0) by (bit_vector)
        requires
            cx == 1u32 || cx == 2u32 || cx == 4u32 || cx == 8u32 || cx == 0x10u32 || cx == 0x20u32 || cx == 0x40u32
                || cx == 0x80u32 || cx == 0x100u32 || cx == 0x200u32,
            kb & cx != 0,
            neg == (cx == 4u32 || cx == 8u32 || cx == 0x10u32 || cx == 0x20u32),
            cx == 1u32 || cx == 2u32 || neg == one,
    ;
}

/// Refining by an `llvm.is.fpclass(value, mask)` test keeps every class of
/// `value` that passes the test when it holds, and every class that fails
/// it when it does not.
pub proof fn law_is_fpclass_refinement_sound(m: Module, value: ValueId, c: ValueId, is_true: bool, k: KnownFpClass,
    depth: nat, cx: u32)
    requires
        is_fpclass_parts(m, c) is Some,
        is_fpclass_parts(m, c).unwrap().0 == value,
        is_class(cx),
        k.classes.bits & cx != 0,
        (cx & is_fpclass_parts(m, c).unwrap().1 != 0) == is_true,
    ensures
        cond_model(m, value, c, is_true, k, depth).classes.bits & cx != 0,
{
    assert(logical_parts(m, c) is None);
    assert(not_operand(m, c) is None);
    let mask = is_fpclass_parts(m, c).unwrap().1;
    let kb = k.classes.bits;
    let out = if is_true { !mask & FC_ALL } else { mask };
    assert(cond_model(m, value, c, is_true, k, depth).classes.bits == kb & !out);
    assert((kb & !(if is_true { !mask & 0x3ffu32 } else { mask })) & cx != 0) by (bit_vector)
        requires
            cx == 1u32 || cx == 2u32 || cx == 4u32 || cx == 8u32 || cx == 0x10u32 || cx == 0x20u32 || cx == 0x40u32
                || cx == 0x80u32 || cx == 0x100u32 || cx == 0x200u32,
            kb & cx != 0,
            (cx & mask != 0) == is_true,
    ;
}

/// `x + x` for some `x` of class `cx` has class `cr`: NaN for NaN, and
/// the class of `x` itself for an infinity, a zero (`-0 + -0 == -0`) or a
/// normal (`1.0 + 1.0`).
pub open spec fn fadd_self_outcome(cx: u32, cr: u32) -> bool {
    if cx & FC_NAN != 0 { cr == FC_QNAN }
    else if cx & (FC_INF | FC_ZERO | FC_NORMAL) != 0 { cr == cx }
    else { false }
}

/// Adding a value to itself keeps possible every class `x + x` can take
/// for an `x` of a known class.
pub proof fn law_fadd_self_sound(k: KnownFpClass, interested: u32, mode: Option<DenormalMode>, cx: u32, cr: u32)
    requires
        is_class(cx),
        k.classes.bits & cx != 0,
        fadd_self_outcome(cx, cr),
    ensures
        add_sub_model(k, k, true, true, interested, mode).classes.bits & cr != 0,
{
    let l = k.classes.bits;
    let res = add_sub_model(k, k, true, true, interested, mode).classes.bits;
    assert forall|x: u32| #[trigger] (x & !0u32) == x by {
        assert(x & !0u32 == x) by (bit_vector);
    }
    let n: u32 = if l & 3u32 == 0 && l & 0x204u32 == 0 { 3u32 } else { 0u32 };
    let a: u32 = if l & 0x1cu32 == 0 { 0x1cu32 } else { 0u32 };
    let b: u32 = if l & 0x380u32 == 0 { 0x380u32 } else { 0u32 };
    let k3 = ((0x3ffu32 & !n) & !a) & !b;
    assert(crate::fp_class::never_logical_pos_zero(k, mode->0) ==> l & 0x40u32 == 0);
    assert(crate::fp_class::never_logical_neg_zero(k, mode->0) ==> l & 0x20u32 == 0);
    assert(res == 0x3ffu32 || res == k3 || (l & 0x40u32 == 0 && res == k3 & !0x40u32) || (l & 0x20u32 == 0 && res == k3 & !0x20u32)
        || (l & 0x40u32 == 0 && l & 0x20u32 == 0 && res == (k3 & !0x40u32) & !0x20u32));
    assert(res & cr != 0) by (bit_vector)
        requires
            res == 0x3ffu32 || res == k3 || (l & 0x40u32 == 0 && res == k3 & !0x40u32) || (l & 0x20u32 == 0 && res == k3 & !0x20u32)
                || (l & 0x40u32 == 0 && l & 0x20u32 == 0 && res == (k3 & !0x40u32) & !0x20u32),
            k3 == ((0x3ffu32 & !n) & !a) & !b,
            n == (if l & 3u32 == 0 && l & 0x204u32 == 0 { 3u32 } else { 0u32 }),
            a == (if l & 0x1cu32 == 0 { 0x1cu32 } else { 0u32 }),
            b == (if l & 0x380u32 == 0 { 0x380u32 } else { 0u32 }),
            cx == 1u32 || cx == 2u32 || cx == 4u32 || cx == 8u32 || cx == 0x10u32 || cx == 0x20u32 || cx == 0x40u32
                || cx == 0x80u32 || cx == 0x100u32 || cx == 0x200u32,
            l & cx != 0,
            (if cx & 3u32 != 0 { cr == 2u32 } else if cx & (0x204u32 | 0x60u32 | 0x108u32) != 0 { cr == cx } else { false }),
    ;
}

} // verus!
