//! Soundness of the known-bits multiplication transfers: the product of
//! admitted values, and the high halves of their double-width products.

use vstd::prelude::*;
use vstd::arithmetic::power2::{pow2, lemma_pow2_pos, lemma_pow2_adds};
use vstd::arithmetic::div_mod::lemma_mod_multiples_vanish;
use crate::ap_int::{seq_mul, seq_resize, seq_sext, seq_extract};
use crate::bitseq::{
    nat_of, from_nat, bit_at, splat, seq_not, seq_and, seq_or, range_mask, trailing, leading,
    lemma_nat_of_split, lemma_nat_of_all_false, lemma_nat_of_from_nat, lemma_trailing_props,
    lemma_nat_of_bound,
};
use crate::known_bits::{
    KnownBitsModel, admits, mul_model, set_high, sat_add_u32, sat_sub, min_nat, zext_model,
    sext_model, double_sat,
};
use crate::known_bits_laws::{
    lemma_admits_at, lemma_top_zero_below, lemma_low_bits_mod, law_unsigned_bounds,
    law_zext_sound, law_sext_sound, law_extract_bits_sound,
};

verus! {

/// The low `kk` bits of an admitted value are the fact's known ones there
/// when all of them are known, and its low `a` bits are clear when those
/// are known zero: the value splits as `2^a * low' + 2^kk * high`.
proof fn lemma_known_low_part(k: KnownBitsModel, x: Seq<bool>, a: nat, kk: nat)
    requires
        k.0.len() == k.1.len(),
        admits(k, x),
        a <= kk <= x.len(),
        forall|i: int| 0 <= i < kk ==> #[trigger] k.0[i] || k.1[i],
        forall|i: int| 0 <= i < a ==> #[trigger] k.0[i],
    ensures
        nat_of(seq_and(k.1, range_mask(x.len() as nat, 0, kk as int)))
            == pow2(a) * nat_of(x.take(kk as int).skip(a as int)),
        nat_of(x) == nat_of(seq_and(k.1, range_mask(x.len() as nat, 0, kk as int))) + pow2(kk) * nat_of(x.skip(kk as int)),
{
    let w = x.len() as nat;
    let b = seq_and(k.1, range_mask(w, 0, kk as int));
    lemma_nat_of_split(x, kk as int);
    lemma_nat_of_split(b, kk as int);
    assert(b.take(kk as int) =~= x.take(kk as int)) by {
        assert forall|i: int| 0 <= i < kk implies b.take(kk as int)[i] == x.take(kk as int)[i] by {
            lemma_admits_at(k, x, i);
        }
    }
    assert forall|j: int| 0 <= j < b.skip(kk as int).len() implies !b.skip(kk as int)[j] by {
    }
    lemma_nat_of_all_false(b.skip(kk as int));
    let t = x.take(kk as int);
    lemma_nat_of_split(t, a as int);
    assert forall|j: int| 0 <= j < t.take(a as int).len() implies !t.take(a as int)[j] by {
        lemma_admits_at(k, x, j);
    }
    lemma_nat_of_all_false(t.take(a as int));
    assert(pow2(kk) * 0 == 0);
}

/// Splitting both factors into a known low part and the rest, the product
/// agrees with the product of the known low parts modulo `2^e`, for `e`
/// within the factors' known and zero low bits.
proof fn lemma_product_low(xk: nat, xk1: nat, xh: nat, yk: nat, yk1: nat, yh: nat, a: nat, b: nat, kl: nat, kr: nat, e: nat) -> (q: nat)
    requires
        xk == pow2(a) * xk1,
        yk == pow2(b) * yk1,
        a + b <= e,
        e <= a + kr,
        e <= kl + b,
    ensures
        (xk + pow2(kl) * xh) * (yk + pow2(kr) * yh) == xk * yk + pow2(e) * q,
{
    let pa = pow2(a) as int;
    let pb = pow2(b) as int;
    let pkl = pow2(kl) as int;
    let pkr = pow2(kr) as int;
    let pe = pow2(e) as int;
    lemma_pow2_adds(e, (a + kr - e) as nat);
    lemma_pow2_adds(e, (kl + b - e) as nat);
    lemma_pow2_adds(e, (kl + kr - e) as nat);
    lemma_pow2_adds(a, kr);
    lemma_pow2_adds(kl, b);
    lemma_pow2_adds(kl, kr);
    let c1 = pow2((a + kr - e) as nat) as int;
    let c2 = pow2((kl + b - e) as nat) as int;
    let c3 = pow2((kl + kr - e) as nat) as int;
    lemma_pow2_pos((a + kr - e) as nat);
    lemma_pow2_pos((kl + b - e) as nat);
    lemma_pow2_pos((kl + kr - e) as nat);
    let qq: int = c1 * xk1 * yh + c2 * xh * yk1 + c3 * xh * yh;
    assert(qq >= 0) by (nonlinear_arith)
        requires
            c1 > 0,
            c2 > 0,
            c3 > 0,
            xk1 >= 0,
            yh >= 0,
            xh >= 0,
            yk1 >= 0,
            qq == c1 * xk1 * yh + c2 * xh * yk1 + c3 * xh * yh,
    ;
    let aa = pkl * xh;
    let bb = pkr * yh;
    assert((xk + aa) * (yk + bb) == xk * yk + xk * bb + aa * yk + aa * bb) by (nonlinear_arith);
    assert(xk * bb == pe * (c1 * xk1 * yh)) by (nonlinear_arith)
        requires
            xk == pa * xk1,
            bb == pkr * yh,
            pa * pkr == pe * c1,
    ;
    assert(aa * yk == pe * (c2 * xh * yk1)) by (nonlinear_arith)
        requires
            yk == pb * yk1,
            aa == pkl * xh,
            pkl * pb == pe * c2,
    ;
    assert(aa * bb == pe * (c3 * xh * yh)) by (nonlinear_arith)
        requires
            aa == pkl * xh,
            bb == pkr * yh,
            pkl * pkr == pe * c3,
    ;
    assert(pe * (c1 * xk1 * yh) + pe * (c2 * xh * yk1) + pe * (c3 * xh * yh) == pe * qq) by (nonlinear_arith)
        requires
            qq == c1 * xk1 * yh + c2 * xh * yk1 + c3 * xh * yh,
    ;
    qq as nat
}

/// A run of set bits at the bottom of `s` of length `a` is within its
/// trailing ones.
proof fn lemma_trailing_at_least(s: Seq<bool>, a: nat)
    requires
        a <= s.len(),
        forall|i: int| 0 <= i < a ==> #[trigger] s[i],
    ensures
        trailing(s, true) >= a,
{
    lemma_trailing_props(s, true);
    if trailing(s, true) < a {
        assert(s[trailing(s, true) as int]);
    }
}

/// The multiplication transfer admits the wrapping product of every pair
/// of admitted values.
pub proof fn law_mul_sound(l: KnownBitsModel, r: KnownBitsModel, x: Seq<bool>, y: Seq<bool>)
    requires
        l.0.len() == l.1.len(),
        r.0.len() == r.1.len(),
        l.0.len() == r.0.len(),
        admits(l, x),
        admits(r, y),
    ensures
        admits(mul_model(l, r, false), seq_mul(x, y)),
{
    let w = x.len() as nat;
    let nx = nat_of(x);
    let ny = nat_of(y);
    let z = seq_mul(x, y);
    let k = mul_model(l, r, false);
    // High bits: the product is at most the product of the largest values.
    let ml = seq_not(l.0);
    let mr = seq_not(r.0);
    law_unsigned_bounds(l, x);
    law_unsigned_bounds(r, y);
    let overflow = nat_of(ml) * nat_of(mr) >= pow2(w);
    if !overflow {
        assert(nx * ny <= nat_of(ml) * nat_of(mr)) by (nonlinear_arith)
            requires
                nx <= nat_of(ml),
                ny <= nat_of(mr),
        ;
        let pm = seq_mul(ml, mr);
        lemma_nat_of_from_nat(w, nat_of(ml) * nat_of(mr));
        vstd::arithmetic::div_mod::lemma_small_mod(nat_of(ml) * nat_of(mr), pow2(w));
        lemma_nat_of_from_nat(w, nx * ny);
        vstd::arithmetic::div_mod::lemma_small_mod(nx * ny, pow2(w));
        lemma_top_zero_below(z, pm);
    }
    // Low bits: the product of the known low parts.
    let kl = trailing(seq_or(l.0, l.1), true);
    let kr = trailing(seq_or(r.0, r.1), true);
    let a = trailing(l.0, true);
    let b = trailing(r.0, true);
    lemma_trailing_props(seq_or(l.0, l.1), true);
    lemma_trailing_props(seq_or(r.0, r.1), true);
    lemma_trailing_props(l.0, true);
    lemma_trailing_props(r.0, true);
    assert forall|i: int| 0 <= i < a implies #[trigger] seq_or(l.0, l.1)[i] by {
    }
    assert forall|i: int| 0 <= i < b implies #[trigger] seq_or(r.0, r.1)[i] by {
    }
    lemma_trailing_at_least(seq_or(l.0, l.1), a);
    lemma_trailing_at_least(seq_or(r.0, r.1), b);
    assert forall|i: int| 0 <= i < kl implies #[trigger] l.0[i] || l.1[i] by {
        assert(seq_or(l.0, l.1)[i]);
    }
    assert forall|i: int| 0 <= i < kr implies #[trigger] r.0[i] || r.1[i] by {
        assert(seq_or(r.0, r.1)[i]);
    }
    lemma_known_low_part(l, x, a, kl);
    lemma_known_low_part(r, y, b, kr);
    let bl = seq_and(l.1, range_mask(w, 0, kl as int));
    let br = seq_and(r.1, range_mask(w, 0, kr as int));
    let xk = nat_of(bl);
    let yk = nat_of(br);
    let xk1 = nat_of(x.take(kl as int).skip(a as int));
    let yk1 = nat_of(y.take(kr as int).skip(b as int));
    let xh = nat_of(x.skip(kl as int));
    let yh = nat_of(y.skip(kr as int));
    let sm = min_nat(sat_sub(kl as int, a as int), sat_sub(kr as int, b as int));
    let e = a + b + sm;
    let rb = min_nat(sat_add_u32(sm, sat_add_u32(a, b)), w);
    let q = lemma_product_low(xk, xk1, xh, yk, yk1, yh, a, b, kl, kr, e);
    assert(nx * ny == xk * yk + pow2(e) * q);
    lemma_pow2_adds(rb, (e - rb) as nat);
    lemma_pow2_pos(rb);
    let q2 = pow2((e - rb) as nat) * q;
    assert(pow2(e) * q == pow2(rb) * q2) by (nonlinear_arith)
        requires
            pow2(e) == pow2(rb) * pow2((e - rb) as nat),
            q2 == pow2((e - rb) as nat) * q,
    ;
    lemma_mod_multiples_vanish(q2 as int, (xk * yk) as int, pow2(rb) as int);
    let bk = seq_mul(bl, br);
    assert forall|i: int| 0 <= i < rb implies z[i] == bk[i] by {
        lemma_low_bits_mod(nx * ny, rb, i);
        lemma_low_bits_mod(xk * yk, rb, i);
    }
    assert forall|i: int| 0 <= i < z.len() implies (k.0[i] ==> !z[i]) && (k.1[i] ==> z[i]) by {
    }
}

/// The unsigned high-half multiplication transfer admits the high half of
/// the double-width product of every pair of admitted values.
pub proof fn law_mulhu_sound(l: KnownBitsModel, r: KnownBitsModel, x: Seq<bool>, y: Seq<bool>)
    requires
        l.0.len() == l.1.len(),
        r.0.len() == r.1.len(),
        l.0.len() == r.0.len(),
        2 * l.0.len() <= u32::MAX,
        admits(l, x),
        admits(r, y),
    ensures
        ({
            let w = x.len() as nat;
            let p = mul_model(zext_model(l, double_sat(w)), zext_model(r, double_sat(w)), false);
            admits((seq_extract(p.0, w, w), seq_extract(p.1, w, w)),
                seq_extract(seq_mul(seq_resize(x, 2 * w), seq_resize(y, 2 * w)), w, w))
        }),
{
    let w = x.len() as nat;
    let ww = double_sat(w);
    law_zext_sound(l, x, ww);
    law_zext_sound(r, y, ww);
    law_mul_sound(zext_model(l, ww), zext_model(r, ww), seq_resize(x, ww), seq_resize(y, ww));
    let p = mul_model(zext_model(l, ww), zext_model(r, ww), false);
    law_extract_bits_sound(p, seq_mul(seq_resize(x, ww), seq_resize(y, ww)), w, w);
}

/// The signed high-half multiplication transfer admits the high half of
/// the double-width product of every pair of admitted values.
pub proof fn law_mulhs_sound(l: KnownBitsModel, r: KnownBitsModel, x: Seq<bool>, y: Seq<bool>)
    requires
        l.0.len() == l.1.len(),
        r.0.len() == r.1.len(),
        l.0.len() == r.0.len(),
        l.0.len() > 0,
        2 * l.0.len() <= u32::MAX,
        admits(l, x),
        admits(r, y),
    ensures
        ({
            let w = x.len() as nat;
            let p = mul_model(sext_model(l, double_sat(w)), sext_model(r, double_sat(w)), false);
            admits((seq_extract(p.0, w, w), seq_extract(p.1, w, w)),
                seq_extract(seq_mul(seq_sext(x, 2 * w), seq_sext(y, 2 * w)), w, w))
        }),
{
    let w = x.len() as nat;
    let ww = double_sat(w);
    law_sext_sound(l, x, ww);
    law_sext_sound(r, y, ww);
    law_mul_sound(sext_model(l, ww), sext_model(r, ww), seq_sext(x, ww), seq_sext(y, ww));
    let p = mul_model(sext_model(l, ww), sext_model(r, ww), false);
    law_extract_bits_sound(p, seq_mul(seq_sext(x, ww), seq_sext(y, ww)), w, w);
}

} // verus!
