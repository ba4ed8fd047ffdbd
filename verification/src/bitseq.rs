//! Mathematical model of fixed-width bit strings.
//!
//! A bit string is a `Seq<bool>` stored least-significant bit first: index
//! `i` holds the bit of weight `2^i`. The unsigned value of a bit string is
//! [`nat_of`], and [`from_nat`] is the width-`w` bit string of a natural
//! number taken modulo `2^w`.

use vstd::prelude::*;
use vstd::arithmetic::power2::{pow2, lemma_pow2_pos, lemma_pow2_unfold, lemma_pow2_adds};
use vstd::arithmetic::div_mod::{
    lemma_mod_breakdown, lemma_fundamental_div_mod_converse_div, lemma_small_mod,
    lemma_hoist_over_denominator, lemma_mod_multiples_vanish, lemma_div_pos_is_pos,
};
use vstd::arithmetic::mul::{lemma_mul_nonnegative, lemma_mul_is_associative};

verus! {

/// Numeric weight of a single bit.
pub open spec fn bit_val(b: bool) -> nat {
    if b { 1 } else { 0 }
}

/// Unsigned value of a least-significant-bit-first bit string.
pub open spec fn nat_of(s: Seq<bool>) -> nat
    decreases s.len(),
{
    if s.len() == 0 {
        0
    } else {
        nat_of(s.drop_last()) + bit_val(s.last()) * pow2((s.len() - 1) as nat)
    }
}

/// The width-`w` bit string of `v` (bits of `v` above `w` are dropped).
pub open spec fn from_nat(w: nat, v: nat) -> Seq<bool> {
    Seq::new(w, |i: int| (v / pow2(i as nat)) % 2 == 1)
}

/// Signed (two's complement) value of a bit string.
pub open spec fn int_of(s: Seq<bool>) -> int {
    if s.len() > 0 && s.last() {
        nat_of(s) - pow2(s.len() as nat)
    } else {
        nat_of(s) as int
    }
}

/// The width-`w` two's complement bit string of `v`.
pub open spec fn from_int(w: nat, v: int) -> Seq<bool> {
    from_nat(w, (v % (pow2(w) as int)) as nat)
}

/// Bit string of width `w` with every bit equal to `b`.
pub open spec fn splat(w: nat, b: bool) -> Seq<bool> {
    Seq::new(w, |i: int| b)
}

/// Bit string of width `w` whose bits `lo <= i < hi` are set.
pub open spec fn range_mask(w: nat, lo: int, hi: int) -> Seq<bool> {
    Seq::new(w, |i: int| lo <= i && i < hi)
}

/// Pointwise complement.
pub open spec fn seq_not(a: Seq<bool>) -> Seq<bool> {
    Seq::new(a.len(), |i: int| !a[i])
}

/// Bit `i` of `b`, false beyond its width.
pub open spec fn bit_at(b: Seq<bool>, i: int) -> bool {
    0 <= i < b.len() && b[i]
}

/// Pointwise conjunction (width of the left operand).
pub open spec fn seq_and(a: Seq<bool>, b: Seq<bool>) -> Seq<bool> {
    Seq::new(a.len(), |i: int| a[i] && bit_at(b, i))
}

/// Pointwise disjunction (width of the left operand).
pub open spec fn seq_or(a: Seq<bool>, b: Seq<bool>) -> Seq<bool> {
    Seq::new(a.len(), |i: int| a[i] || bit_at(b, i))
}

/// Pointwise exclusive or (width of the left operand).
pub open spec fn seq_xor(a: Seq<bool>, b: Seq<bool>) -> Seq<bool> {
    Seq::new(a.len(), |i: int| a[i] != bit_at(b, i))
}

/// Number of set bits.
pub open spec fn popcount(s: Seq<bool>) -> nat
    decreases s.len(),
{
    if s.len() == 0 {
        0
    } else {
        popcount(s.drop_last()) + bit_val(s.last())
    }
}

/// Length of the run of bits equal to `b` starting at the least significant end.
pub open spec fn trailing(s: Seq<bool>, b: bool) -> nat
    decreases s.len(),
{
    if s.len() == 0 {
        0
    } else if s[0] == b {
        1 + trailing(s.drop_first(), b)
    } else {
        0
    }
}

/// Length of the run of bits equal to `b` starting at the most significant end.
pub open spec fn leading(s: Seq<bool>, b: bool) -> nat
    decreases s.len(),
{
    if s.len() == 0 {
        0
    } else if s.last() == b {
        1 + leading(s.drop_last(), b)
    } else {
        0
    }
}

/// True when some bit is set in both strings.
pub open spec fn seq_intersects(a: Seq<bool>, b: Seq<bool>) -> bool {
    exists|i: int| 0 <= i < a.len() && #[trigger] a[i] && bit_at(b, i)
}

/// True when no bit is set.
pub open spec fn all_false(s: Seq<bool>) -> bool {
    forall|i: int| 0 <= i < s.len() ==> !s[i]
}

/// True when every bit is set.
pub open spec fn all_true(s: Seq<bool>) -> bool {
    forall|i: int| 0 <= i < s.len() ==> s[i]
}

pub proof fn lemma_nat_of_bound(s: Seq<bool>)
    ensures
        nat_of(s) < pow2(s.len() as nat),
    decreases s.len(),
{
    if s.len() == 0 {
        assert(pow2(0) == 1) by { vstd::arithmetic::power2::lemma2_to64(); }
    } else {
        let n = (s.len() - 1) as nat;
        lemma_nat_of_bound(s.drop_last());
        lemma_pow2_unfold(n + 1);
        lemma_pow2_pos(n);
    }
}

pub proof fn lemma_nat_of_take(s: Seq<bool>, i: int)
    requires
        0 <= i < s.len(),
    ensures
        nat_of(s.take(i + 1)) == nat_of(s.take(i)) + bit_val(s[i]) * pow2(i as nat),
{
    assert(s.take(i + 1).drop_last() =~= s.take(i));
}

/// Bit `i` of a bit string is the `i`-th binary digit of its value.
pub proof fn lemma_nat_of_bit(s: Seq<bool>, i: int)
    requires
        0 <= i < s.len(),
    ensures
        s[i] == ((nat_of(s) / pow2(i as nat)) % 2 == 1),
    decreases s.len(),
{
    let n = (s.len() - 1) as nat;
    let t = s.drop_last();
    let x = nat_of(t);
    let b = bit_val(s.last());
    lemma_nat_of_bound(t);
    lemma_pow2_pos(n);
    lemma_pow2_pos(i as nat);
    if i == n {
        lemma_fundamental_div_mod_converse_div((x + b * pow2(n)) as int, pow2(n) as int, b as int, x as int);
    } else {
        lemma_nat_of_bit(t, i);
        let k = (n - i) as nat;
        lemma_pow2_adds(i as nat, k);
        let d = pow2(i as nat) as int;
        let kk = pow2(k) as int;
        assert(b * pow2(n) == (b * kk) * d) by {
            lemma_mul_is_associative(b as int, kk, d);
        }
        lemma_hoist_over_denominator(x as int, b * kk, pow2(i as nat));
        lemma_pow2_unfold(k);
        let half = pow2((k - 1) as nat) as int;
        assert(b * kk == 2 * (b * half)) by {
            lemma_mul_is_associative(b as int, 2, half);
            lemma_mul_is_associative(2, b as int, half);
        }
        lemma_div_pos_is_pos(x as int, d);
        lemma_mul_nonnegative(b as int, half);
        lemma_mod_multiples_vanish(b * half, x as int / d, 2);
    }
}

pub proof fn lemma_nat_of_from_nat(w: nat, v: nat)
    ensures
        nat_of(from_nat(w, v)) == v % pow2(w),
        from_nat(w, v).len() == w,
    decreases w,
{
    if w == 0 {
        assert(pow2(0) == 1) by { vstd::arithmetic::power2::lemma2_to64(); }
    } else {
        let m = (w - 1) as nat;
        assert(from_nat(w, v).drop_last() =~= from_nat(m, v));
        lemma_nat_of_from_nat(m, v);
        lemma_pow2_pos(m);
        lemma_pow2_unfold(w);
        lemma_mod_breakdown(v as int, pow2(m) as int, 2);
    }
}

/// A bit string is the width-preserving encoding of its own value.
pub proof fn lemma_canonical(s: Seq<bool>)
    ensures
        s =~= from_nat(s.len(), nat_of(s)),
{
    assert forall|i: int| 0 <= i < s.len() implies s[i] == from_nat(s.len(), nat_of(s))[i] by {
        lemma_nat_of_bit(s, i);
    }
}

/// Equal values of equal width give equal bit strings.
pub proof fn lemma_nat_of_injective(a: Seq<bool>, b: Seq<bool>)
    requires
        a.len() == b.len(),
        nat_of(a) == nat_of(b),
    ensures
        a == b,
{
    lemma_canonical(a);
    lemma_canonical(b);
}

/// `from_nat` only depends on the value modulo `2^w`.
pub proof fn lemma_from_nat_mod(w: nat, v: nat)
    ensures
        from_nat(w, v) == from_nat(w, v % pow2(w)),
{
    lemma_nat_of_from_nat(w, v);
    lemma_canonical(from_nat(w, v));
}

/// A bit string whose value is `v mod 2^w` is `from_nat(w, v)`.
pub proof fn lemma_from_nat_of_value(s: Seq<bool>, v: nat)
    requires
        nat_of(s) == v % pow2(s.len() as nat),
    ensures
        s == from_nat(s.len(), v),
{
    lemma_canonical(s);
    lemma_from_nat_mod(s.len(), v);
}

pub proof fn lemma_from_nat_small(w: nat, v: nat)
    requires
        v < pow2(w),
    ensures
        nat_of(from_nat(w, v)) == v,
{
    lemma_nat_of_from_nat(w, v);
    lemma_small_mod(v, pow2(w));
}

/// A run of `r` bits equal to `b` at the low end, ended by the top or a
/// differing bit, has length `trailing(s, b)`.
pub proof fn lemma_trailing_char(s: Seq<bool>, b: bool, r: nat)
    requires
        r <= s.len(),
        forall|j: int| 0 <= j < r ==> s[j] == b,
        r < s.len() ==> s[r as int] != b,
    ensures
        trailing(s, b) == r,
    decreases s.len(),
{
    if s.len() > 0 && r > 0 {
        let t = s.drop_first();
        assert forall|j: int| 0 <= j < (r - 1) as nat implies t[j] == b by {
            assert(s[j + 1] == b);
        }
        lemma_trailing_char(t, b, (r - 1) as nat);
    }
}

/// A run of `r` bits equal to `b` at the high end, ended by the bottom or a
/// differing bit, has length `leading(s, b)`.
pub proof fn lemma_leading_char(s: Seq<bool>, b: bool, r: nat)
    requires
        r <= s.len(),
        forall|j: int| s.len() - r <= j < s.len() ==> s[j] == b,
        r < s.len() ==> s[s.len() - 1 - r] != b,
    ensures
        leading(s, b) == r,
    decreases s.len(),
{
    if s.len() > 0 && r > 0 {
        let t = s.drop_last();
        lemma_leading_char(t, b, (r - 1) as nat);
    }
}

/// Characterisation of `trailing`.
pub proof fn lemma_trailing_props(s: Seq<bool>, b: bool)
    ensures
        trailing(s, b) <= s.len(),
        forall|j: int| 0 <= j < trailing(s, b) ==> s[j] == b,
        trailing(s, b) < s.len() ==> s[trailing(s, b) as int] != b,
    decreases s.len(),
{
    if s.len() > 0 && s[0] == b {
        let t = s.drop_first();
        lemma_trailing_props(t, b);
        assert forall|j: int| 0 <= j < trailing(s, b) implies s[j] == b by {
            if j > 0 {
                assert(s[j] == t[j - 1]);
            }
        }
    }
}

/// Characterisation of `leading`.
pub proof fn lemma_leading_props(s: Seq<bool>, b: bool)
    ensures
        leading(s, b) <= s.len(),
        forall|j: int| s.len() - leading(s, b) <= j < s.len() ==> s[j] == b,
        leading(s, b) < s.len() ==> s[s.len() - 1 - leading(s, b)] != b,
    decreases s.len(),
{
    if s.len() > 0 && s.last() == b {
        let t = s.drop_last();
        lemma_leading_props(t, b);
        assert forall|j: int| s.len() - leading(s, b) <= j < s.len() implies s[j] == b by {
            if j < s.len() - 1 {
                assert(s[j] == t[j]);
            }
        }
    }
}

pub proof fn lemma_popcount_take(s: Seq<bool>, i: int)
    requires
        0 <= i < s.len(),
    ensures
        popcount(s.take(i + 1)) == popcount(s.take(i)) + bit_val(s[i]),
{
    assert(s.take(i + 1).drop_last() =~= s.take(i));
}

pub proof fn lemma_popcount_bound(s: Seq<bool>)
    ensures
        popcount(s) <= s.len(),
    decreases s.len(),
{
    if s.len() > 0 {
        lemma_popcount_bound(s.drop_last());
    }
}

pub proof fn lemma_nat_of_not(s: Seq<bool>)
    ensures
        nat_of(seq_not(s)) + nat_of(s) + 1 == pow2(s.len() as nat),
    decreases s.len(),
{
    if s.len() == 0 {
        vstd::arithmetic::power2::lemma2_to64();
    } else {
        let n = (s.len() - 1) as nat;
        assert(seq_not(s).drop_last() =~= seq_not(s.drop_last()));
        lemma_nat_of_not(s.drop_last());
        lemma_pow2_unfold(n + 1);
    }
}

/// The value splits at bit `k` into a low and a high part.
pub proof fn lemma_nat_of_split(s: Seq<bool>, k: int)
    requires
        0 <= k <= s.len(),
    ensures
        nat_of(s) == nat_of(s.take(k)) + pow2(k as nat) * nat_of(s.skip(k)),
    decreases s.len(),
{
    if k == s.len() {
        assert(s.take(k) =~= s);
        assert(s.skip(k).len() == 0);
        assert(nat_of(s.skip(k)) == 0);
        assert(pow2(k as nat) * 0 == 0);
    } else {
        let n = (s.len() - 1) as int;
        let t = s.drop_last();
        lemma_nat_of_split(t, k);
        assert(t.take(k) =~= s.take(k));
        assert(s.skip(k).drop_last() =~= t.skip(k));
        assert(s.skip(k).last() == s.last());
        let hi = nat_of(t.skip(k));
        let b = bit_val(s.last());
        assert(nat_of(s.skip(k)) == hi + b * pow2((n - k) as nat));
        assert(nat_of(s) == nat_of(t) + b * pow2(n as nat));
        lemma_pow2_adds(k as nat, (n - k) as nat);
        assert(pow2(k as nat) * (hi + b * pow2((n - k) as nat)) == pow2(k as nat) * hi + b * pow2(n as nat)) by {
            vstd::arithmetic::mul::lemma_mul_is_distributive_add(pow2(k as nat) as int, hi as int, (b * pow2((n - k) as nat)) as int);
            vstd::arithmetic::mul::lemma_mul_is_associative(pow2(k as nat) as int, b as int, pow2((n - k) as nat) as int);
            vstd::arithmetic::mul::lemma_mul_is_associative(b as int, pow2(k as nat) as int, pow2((n - k) as nat) as int);
            vstd::arithmetic::mul::lemma_mul_is_commutative(b as int, pow2(k as nat) as int);
        }
    }
}

/// A bit string has value zero exactly when no bit is set.
pub proof fn lemma_nat_of_zero_iff(s: Seq<bool>)
    ensures
        (nat_of(s) == 0) == all_false(s),
{
    if nat_of(s) == 0 {
        assert forall|i: int| 0 <= i < s.len() implies !s[i] by {
            lemma_nat_of_bit(s, i);
            lemma_pow2_pos(i as nat);
        }
    }
    if all_false(s) {
        lemma_nat_of_all_false(s);
    }
}

pub proof fn lemma_nat_of_all_false(s: Seq<bool>)
    requires
        all_false(s),
    ensures
        nat_of(s) == 0,
    decreases s.len(),
{
    if s.len() > 0 {
        lemma_nat_of_all_false(s.drop_last());
    }
}

/// Shifting left by `n` multiplies by `2^n` modulo `2^width`.
pub proof fn lemma_nat_of_shl(s: Seq<bool>, n: nat)
    ensures
        Seq::new(s.len(), |i: int| i >= n && s[i - n]) == from_nat(s.len(), nat_of(s) * pow2(n)),
{
    let t = Seq::new(s.len(), |i: int| i >= n && s[i - n]);
    let x = nat_of(s);
    lemma_pow2_pos(n);
    assert forall|i: int| 0 <= i < s.len() implies t[i] == from_nat(s.len(), x * pow2(n))[i] by {
        lemma_pow2_pos(i as nat);
        if i >= n {
            let k = (i - n) as nat;
            lemma_pow2_adds(n, k);
            lemma_pow2_pos(k);
            vstd::arithmetic::mul::lemma_mul_nonnegative(x as int, pow2(n) as int);
            vstd::arithmetic::div_mod::lemma_div_denominator((x * pow2(n)) as int, pow2(n) as int, pow2(k) as int);
            vstd::arithmetic::mul::lemma_mul_is_commutative(pow2(n) as int, pow2(k) as int);
            vstd::arithmetic::div_mod::lemma_div_multiples_vanish(x as int, pow2(n) as int);
            vstd::arithmetic::mul::lemma_mul_is_commutative(x as int, pow2(n) as int);
            lemma_nat_of_bit(s, i - n);
        } else {
            let k = (n - i) as nat;
            lemma_pow2_adds(i as nat, k);
            // x * 2^n / 2^i == x * 2^k, an even number
            assert(x * pow2(n) == (x * pow2(k)) * pow2(i as nat)) by {
                vstd::arithmetic::mul::lemma_mul_is_associative(x as int, pow2(k) as int, pow2(i as nat) as int);
            }
            vstd::arithmetic::div_mod::lemma_div_multiples_vanish((x * pow2(k)) as int, pow2(i as nat) as int);
            vstd::arithmetic::mul::lemma_mul_is_commutative((x * pow2(k)) as int, pow2(i as nat) as int);
            lemma_pow2_unfold(k);
            assert(x * pow2(k) == 2 * (x * pow2((k - 1) as nat))) by {
                vstd::arithmetic::mul::lemma_mul_is_associative(x as int, 2, pow2((k - 1) as nat) as int);
                vstd::arithmetic::mul::lemma_mul_is_commutative(x as int, 2);
                vstd::arithmetic::mul::lemma_mul_is_associative(2, x as int, pow2((k - 1) as nat) as int);
            }
            vstd::arithmetic::mul::lemma_mul_nonnegative(x as int, pow2((k - 1) as nat) as int);
            vstd::arithmetic::div_mod::lemma_mod_multiples_basic((x * pow2((k - 1) as nat)) as int, 2);
            vstd::arithmetic::mul::lemma_mul_is_commutative((x * pow2((k - 1) as nat)) as int, 2);
        }
    }
    assert(t =~= from_nat(s.len(), x * pow2(n)));
}

/// Shifting left by `n <= width` loses a set bit exactly when fewer than
/// `n` leading bits are clear.
pub proof fn lemma_shl_overflow(s: Seq<bool>, n: nat)
    requires
        n <= s.len(),
    ensures
        (nat_of(s) * pow2(n) >= pow2(s.len() as nat)) == (leading(s, false) < n),
{
    let w = s.len() as nat;
    let k = (w - n) as nat;
    lemma_nat_of_split(s, k as int);
    let lo = nat_of(s.take(k as int));
    let hi = nat_of(s.skip(k as int));
    lemma_nat_of_bound(s.take(k as int));
    lemma_pow2_adds(k, n);
    lemma_pow2_pos(k);
    lemma_pow2_pos(n);
    lemma_nat_of_zero_iff(s.skip(k as int));
    lemma_leading_props(s, false);
    if hi == 0 {
        // value below 2^k, so value * 2^n < 2^w
        assert(nat_of(s) < pow2(k));
        vstd::arithmetic::mul::lemma_mul_strict_inequality(nat_of(s) as int, pow2(k) as int, pow2(n) as int);
        assert forall|j: int| w - n <= j < w implies !s[j] by {
            assert(s[j] == s.skip(k as int)[j - k]);
        }
        if leading(s, false) < n {
            let j = s.len() - 1 - leading(s, false);
            assert(!s[j]);
        }
    } else {
        assert(nat_of(s) >= pow2(k)) by {
            vstd::arithmetic::mul::lemma_mul_inequality(1, hi as int, pow2(k) as int);
            vstd::arithmetic::mul::lemma_mul_is_commutative(hi as int, pow2(k) as int);
        }
        vstd::arithmetic::mul::lemma_mul_inequality(pow2(k) as int, nat_of(s) as int, pow2(n) as int);
        let j = choose|j: int| 0 <= j < s.skip(k as int).len() && s.skip(k as int)[j];
        assert(s[j + k]);
        if leading(s, false) >= n {
            assert(!s[j + k]);
        }
    }
}

/// The value is the bottom bit plus twice the value of the rest.
pub proof fn lemma_nat_of_low_bit(s: Seq<bool>)
    requires
        s.len() > 0,
    ensures
        nat_of(s) == bit_val(s[0]) + 2 * nat_of(s.skip(1)),
{
    lemma_nat_of_split(s, 1);
    let t = s.take(1);
    assert(t.drop_last() =~= Seq::<bool>::empty());
    assert(nat_of(t.drop_last()) == 0);
    vstd::arithmetic::power2::lemma2_to64();
    assert(t.last() == s[0]);
    assert(bit_val(s[0]) * 1 == bit_val(s[0]));
    assert(nat_of(t) == bit_val(s[0]));
}

} // verus!
