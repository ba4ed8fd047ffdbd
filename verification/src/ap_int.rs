//! Arbitrary-width integers, the value type of known-bits facts.
//!
//! An [`ApInt`] is a bit string of a fixed width (at most `u32::MAX` bits).
//! Its view is the least-significant-bit-first `Seq<bool>` of its bits; the
//! unsigned value is [`nat_of`] of the view and the signed value
//! [`int_of`].

use vstd::prelude::*;
use vstd::arithmetic::power2::{pow2, lemma_pow2_pos, lemma_pow2_unfold, lemma_pow2_adds};
use vstd::arithmetic::div_mod::{lemma_div_denominator, lemma_small_mod};
use crate::bitseq::{
    lemma_nat_of_low_bit,
    lemma_nat_of_zero_iff, lemma_nat_of_shl, lemma_shl_overflow,
    from_int,
    lemma_nat_of_not, lemma_nat_of_split,
    bit_at, lemma_trailing_char, lemma_leading_char, lemma_popcount_take, lemma_popcount_bound,
    nat_of, from_nat, int_of, splat, range_mask, seq_not, seq_and, seq_or, seq_xor, popcount,
    trailing, leading, seq_intersects, all_false, all_true, bit_val, lemma_nat_of_bound,
    lemma_nat_of_take, lemma_canonical, lemma_nat_of_injective, lemma_from_nat_mod,
    lemma_from_nat_of_value, lemma_from_nat_small, lemma_nat_of_from_nat,
};

verus! {

/// Fixed-width integer stored as its bits, least significant first.
pub struct ApInt {
    bits: Vec<bool>,
}

impl View for ApInt {
    type V = Seq<bool>;

    closed spec fn view(&self) -> Seq<bool> {
        self.bits@
    }
}

impl ApInt {
    /// Every `ApInt` has a width that fits in `u32`.
    #[verifier::type_invariant]
    pub open spec fn width_fits(self) -> bool {
        self@.len() <= u32::MAX
    }

    /// Builds a value from bits that fit the width bound.
    fn from_bits(bits: Vec<bool>) -> (r: ApInt)
        requires
            bits@.len() <= u32::MAX,
        ensures
            r@ == bits@,
    {
        ApInt { bits }
    }

    /// Number of bits.
    pub fn bit_width(&self) -> (r: u32)
        ensures
            r == self@.len(),
    {
        proof { use_type_invariant(self); }
        self.bits.len() as u32
    }

    /// A copy with the same bits.
    pub fn duplicate(&self) -> (r: ApInt)
        ensures
            r@ == self@,
    {
        proof { use_type_invariant(self); }
        let mut bits: Vec<bool> = Vec::new();
        let n = self.bits.len();
        for i in 0..n
            invariant
                n == self@.len(),
                bits@ == self@.take(i as int),
        {
            bits.push(self.bits[i]);
            assert(bits@ =~= self@.take(i + 1));
        }
        assert(bits@ =~= self@);
        ApInt::from_bits(bits)
    }

    /// Value of bit `i` (false beyond the width).
    pub fn bit(&self, i: u32) -> (r: bool)
        ensures
            r == ((i as int) < self@.len() && self@[i as int]),
    {
        proof { use_type_invariant(self); }
        if (i as usize) < self.bits.len() {
            self.bits[i as usize]
        } else {
            false
        }
    }

    /// Bit string of `width` bits where bit `i` is set exactly when
    /// `lo <= i < hi`.
    pub fn bits_set(width: u32, lo: u32, hi: u32) -> (r: ApInt)
        ensures
            r@ == range_mask(width as nat, lo as int, hi as int),
    {
        let mut bits: Vec<bool> = Vec::new();
        for i in 0..width
            invariant
                bits@ == range_mask(width as nat, lo as int, hi as int).take(i as int),
        {
            bits.push(lo <= i && i < hi);
            assert(bits@ =~= range_mask(width as nat, lo as int, hi as int).take(i + 1));
        }
        assert(bits@ =~= range_mask(width as nat, lo as int, hi as int));
        ApInt::from_bits(bits)
    }

    /// All bits clear.
    pub fn zero(width: u32) -> (r: ApInt)
        ensures
            r@ == splat(width as nat, false),
            nat_of(r@) == 0,
    {
        let r = ApInt::bits_set(width, 0, 0);
        assert(r@ =~= splat(width as nat, false));
        proof { lemma_nat_of_splat_false(width as nat); }
        r
    }

    /// All bits set.
    pub fn all_ones(width: u32) -> (r: ApInt)
        ensures
            r@ == splat(width as nat, true),
    {
        let r = ApInt::bits_set(width, 0, width);
        assert(r@ =~= splat(width as nat, true));
        r
    }

    /// Largest unsigned value of the width (all ones).
    pub fn max_value(width: u32) -> (r: ApInt)
        ensures
            r@ == splat(width as nat, true),
    {
        ApInt::all_ones(width)
    }

    /// Only bit `bit` set (nothing set when `bit` is out of range).
    pub fn one_bit_set(width: u32, bit: u32) -> (r: ApInt)
        ensures
            r@ == range_mask(width as nat, bit as int, bit as int + 1),
    {
        if bit < u32::MAX {
            ApInt::bits_set(width, bit, bit + 1)
        } else {
            let r = ApInt::zero(width);
            assert(r@ =~= range_mask(width as nat, bit as int, bit as int + 1));
            r
        }
    }

    /// Bits from `lo` up to the top set.
    pub fn bits_set_from(width: u32, lo: u32) -> (r: ApInt)
        ensures
            r@ == range_mask(width as nat, lo as int, width as int),
    {
        ApInt::bits_set(width, lo, width)
    }

    /// The low `count` bits set.
    pub fn low_bits_set(width: u32, count: u32) -> (r: ApInt)
        ensures
            r@ == range_mask(width as nat, 0, count as int),
    {
        ApInt::bits_set(width, 0, count)
    }

    /// Smallest signed value: only the sign bit set.
    pub fn signed_min_value(width: u32) -> (r: ApInt)
        ensures
            r@ == range_mask(width as nat, width as int - 1, width as int),
    {
        if width == 0 {
            let r = ApInt::zero(0);
            assert(r@ =~= range_mask(0, -1, 0));
            r
        } else {
            ApInt::bits_set(width, width - 1, width)
        }
    }

    /// Largest signed value: every bit but the sign bit set.
    pub fn signed_max_value(width: u32) -> (r: ApInt)
        ensures
            r@ == range_mask(width as nat, 0, width as int - 1),
    {
        if width == 0 {
            let r = ApInt::zero(0);
            assert(r@ =~= range_mask(0, 0, -1));
            r
        } else {
            ApInt::bits_set(width, 0, width - 1)
        }
    }

    /// The width-`width` bit string of `value`.
    pub fn from_u64(width: u32, value: u64) -> (r: ApInt)
        ensures
            r@ == from_nat(width as nat, value as nat),
    {
        let mut bits: Vec<bool> = Vec::new();
        let mut cur: u64 = value;
        proof { vstd::arithmetic::power2::lemma2_to64(); }
        for i in 0..width
            invariant
                bits@ == from_nat(width as nat, value as nat).take(i as int),
                cur as nat == value as nat / pow2(i as nat),
        {
            bits.push(cur % 2 == 1);
            proof {
                lemma_pow2_pos(i as nat);
                lemma_pow2_unfold((i + 1) as nat);
                lemma_div_denominator(value as int, pow2(i as nat) as int, 2);
                vstd::arithmetic::mul::lemma_mul_is_commutative(pow2(i as nat) as int, 2);
            }
            cur = cur / 2;
            assert(bits@ =~= from_nat(width as nat, value as nat).take(i + 1));
        }
        assert(bits@ =~= from_nat(width as nat, value as nat));
        ApInt::from_bits(bits)
    }
}

/// The all-clear bit string has value zero.
pub proof fn lemma_nat_of_splat_false(w: nat)
    ensures
        nat_of(splat(w, false)) == 0,
    decreases w,
{
    if w > 0 {
        assert(splat(w, false).drop_last() =~= splat((w - 1) as nat, false));
        lemma_nat_of_splat_false((w - 1) as nat);
    }
}


impl ApInt {
    /// Sets (`value` true) or clears the bits `lo <= i < hi`.
    fn assign_range(&mut self, lo: u32, hi: u32, value: bool)
        ensures
            final(self)@ == Seq::new(old(self)@.len(), |i: int| if lo <= i && i < hi { value } else { old(self)@[i] }),
    {
        proof { use_type_invariant(&*self); }
        let n = self.bits.len();
        let ghost target = Seq::new(self@.len(), |i: int| if lo <= i && i < hi { value } else { self@[i] });
        let mut bits: Vec<bool> = Vec::new();
        for i in 0..n
            invariant
                n == self@.len(),
                n <= u32::MAX,
                target == Seq::new(self@.len(), |i: int| if lo <= i && i < hi { value } else { self@[i] }),
                bits@ == target.take(i as int),
        {
            if lo as usize <= i && i < hi as usize {
                bits.push(value);
            } else {
                bits.push(self.bits[i]);
            }
            assert(bits@ =~= target.take(i + 1));
        }
        assert(bits@ =~= target);
        *self = ApInt::from_bits(bits);
    }

    /// Sets bit `bit` (no effect beyond the width).
    pub fn set_bit(&mut self, bit: u32)
        ensures
            final(self)@ == seq_or(old(self)@, range_mask(old(self)@.len(), bit as int, bit as int + 1)),
    {
        proof { use_type_invariant(&*self); }
        let ghost start = self@;
        if bit < u32::MAX {
            self.assign_range(bit, bit + 1, true);
        }
        assert(self@ =~= seq_or(start, range_mask(start.len(), bit as int, bit as int + 1)));
    }

    /// Clears bit `bit` (no effect beyond the width).
    pub fn clear_bit(&mut self, bit: u32)
        ensures
            final(self)@ == seq_and(old(self)@, seq_not(range_mask(old(self)@.len(), bit as int, bit as int + 1))),
    {
        proof { use_type_invariant(&*self); }
        let ghost start = self@;
        if bit < u32::MAX {
            self.assign_range(bit, bit + 1, false);
        }
        assert(self@ =~= seq_and(start, seq_not(range_mask(start.len(), bit as int, bit as int + 1))));
    }

    /// Sets every bit from `lo` to the top.
    pub fn set_bits_from(&mut self, lo: u32)
        ensures
            final(self)@ == seq_or(old(self)@, range_mask(old(self)@.len(), lo as int, old(self)@.len() as int)),
    {
        proof { use_type_invariant(&*self); }
        let ghost start = self@;
        let w = self.bits.len() as u32;
        self.assign_range(lo, w, true);
        assert(self@ =~= seq_or(start, range_mask(start.len(), lo as int, start.len() as int)));
    }

    /// Sets the low `count` bits.
    pub fn set_low_bits(&mut self, count: u32)
        ensures
            final(self)@ == seq_or(old(self)@, range_mask(old(self)@.len(), 0, count as int)),
    {
        let ghost start = self@;
        self.assign_range(0, count, true);
        assert(self@ =~= seq_or(start, range_mask(start.len(), 0, count as int)));
    }

    /// Sets the high `count` bits (all bits when `count` exceeds the width).
    pub fn set_high_bits(&mut self, count: u32)
        ensures
            final(self)@ == seq_or(old(self)@, range_mask(old(self)@.len(), old(self)@.len() - count, old(self)@.len() as int)),
    {
        proof { use_type_invariant(&*self); }
        let ghost start = self@;
        let w = self.bits.len() as u32;
        let lo = if count <= w { w - count } else { 0 };
        self.assign_range(lo, w, true);
        assert(self@ =~= seq_or(start, range_mask(start.len(), start.len() - count, start.len() as int)));
    }

    /// Sets the top bit (no effect at width zero).
    pub fn set_sign_bit(&mut self)
        ensures
            final(self)@ == seq_or(old(self)@, range_mask(old(self)@.len(), old(self)@.len() - 1, old(self)@.len() as int)),
    {
        proof { use_type_invariant(&*self); }
        let ghost start = self@;
        let w = self.bits.len() as u32;
        if w > 0 {
            self.assign_range(w - 1, w, true);
        }
        assert(self@ =~= seq_or(start, range_mask(start.len(), start.len() - 1, start.len() as int)));
    }

    /// Clears the top bit (no effect at width zero).
    pub fn clear_sign_bit(&mut self)
        ensures
            final(self)@ == seq_and(old(self)@, seq_not(range_mask(old(self)@.len(), old(self)@.len() - 1, old(self)@.len() as int))),
    {
        proof { use_type_invariant(&*self); }
        let ghost start = self@;
        let w = self.bits.len() as u32;
        if w > 0 {
            self.assign_range(w - 1, w, false);
        }
        assert(self@ =~= seq_and(start, seq_not(range_mask(start.len(), start.len() - 1, start.len() as int))));
    }

    /// Bitwise complement.
    pub fn not(&self) -> (r: ApInt)
        ensures
            r@ == seq_not(self@),
    {
        proof { use_type_invariant(self); }
        let mut bits: Vec<bool> = Vec::new();
        let n = self.bits.len();
        for i in 0..n
            invariant
                n == self@.len(),
                bits@ == seq_not(self@).take(i as int),
        {
            bits.push(!self.bits[i]);
            assert(bits@ =~= seq_not(self@).take(i + 1));
        }
        assert(bits@ =~= seq_not(self@));
        ApInt::from_bits(bits)
    }

    /// Bitwise AND (width of `self`).
    pub fn bitand(&self, rhs: &ApInt) -> (r: ApInt)
        ensures
            r@ == seq_and(self@, rhs@),
    {
        proof { use_type_invariant(self); }
        let mut bits: Vec<bool> = Vec::new();
        let n = self.bits.len();
        for i in 0..n
            invariant
                n == self@.len(),
                n <= u32::MAX,
                bits@ == seq_and(self@, rhs@).take(i as int),
        {
            bits.push(self.bits[i] && rhs.bit(i as u32));
            assert(bits@ =~= seq_and(self@, rhs@).take(i + 1));
        }
        assert(bits@ =~= seq_and(self@, rhs@));
        ApInt::from_bits(bits)
    }

    /// Bitwise OR (width of `self`).
    pub fn bitor(&self, rhs: &ApInt) -> (r: ApInt)
        ensures
            r@ == seq_or(self@, rhs@),
    {
        proof { use_type_invariant(self); }
        let mut bits: Vec<bool> = Vec::new();
        let n = self.bits.len();
        for i in 0..n
            invariant
                n == self@.len(),
                n <= u32::MAX,
                bits@ == seq_or(self@, rhs@).take(i as int),
        {
            bits.push(self.bits[i] || rhs.bit(i as u32));
            assert(bits@ =~= seq_or(self@, rhs@).take(i + 1));
        }
        assert(bits@ =~= seq_or(self@, rhs@));
        ApInt::from_bits(bits)
    }

    /// Bitwise XOR (width of `self`).
    pub fn bitxor(&self, rhs: &ApInt) -> (r: ApInt)
        ensures
            r@ == seq_xor(self@, rhs@),
    {
        proof { use_type_invariant(self); }
        let mut bits: Vec<bool> = Vec::new();
        let n = self.bits.len();
        for i in 0..n
            invariant
                n == self@.len(),
                n <= u32::MAX,
                bits@ == seq_xor(self@, rhs@).take(i as int),
        {
            bits.push(self.bits[i] != rhs.bit(i as u32));
            assert(bits@ =~= seq_xor(self@, rhs@).take(i + 1));
        }
        assert(bits@ =~= seq_xor(self@, rhs@));
        ApInt::from_bits(bits)
    }

    /// True when some bit is set in both values.
    pub fn intersects(&self, rhs: &ApInt) -> (r: bool)
        ensures
            r == seq_intersects(self@, rhs@),
    {
        proof { use_type_invariant(self); }
        let n = self.bits.len();
        for i in 0..n
            invariant
                n == self@.len(),
                n <= u32::MAX,
                forall|j: int| 0 <= j < i ==> !(self@[j] && bit_at(rhs@, j)),
        {
            if self.bits[i] && rhs.bit(i as u32) {
                return true;
            }
        }
        false
    }

    /// True when every bit set in `self` is set in `rhs`.
    pub fn is_subset_of(&self, rhs: &ApInt) -> (r: bool)
        ensures
            r == (forall|i: int| 0 <= i < self@.len() && #[trigger] self@[i] ==> bit_at(rhs@, i)),
    {
        proof { use_type_invariant(self); }
        let n = self.bits.len();
        for i in 0..n
            invariant
                n == self@.len(),
                n <= u32::MAX,
                forall|j: int| 0 <= j < i && #[trigger] self@[j] ==> bit_at(rhs@, j),
        {
            if self.bits[i] && !rhs.bit(i as u32) {
                return false;
            }
        }
        true
    }

    /// True when no bit is set.
    pub fn is_zero(&self) -> (r: bool)
        ensures
            r == all_false(self@),
    {
        let n = self.bits.len();
        for i in 0..n
            invariant
                n == self@.len(),
                forall|j: int| 0 <= j < i ==> !self@[j],
        {
            if self.bits[i] {
                return false;
            }
        }
        true
    }

    /// True when every bit is set.
    pub fn is_all_ones(&self) -> (r: bool)
        ensures
            r == all_true(self@),
    {
        let n = self.bits.len();
        for i in 0..n
            invariant
                n == self@.len(),
                forall|j: int| 0 <= j < i ==> self@[j],
        {
            if !self.bits[i] {
                return false;
            }
        }
        true
    }

    /// Number of set bits.
    pub fn popcount(&self) -> (r: u32)
        ensures
            r == popcount(self@),
    {
        proof { use_type_invariant(self); }
        let n = self.bits.len();
        let mut c: u32 = 0;
        assert(self@.take(0) =~= Seq::<bool>::empty());
        for i in 0..n
            invariant
                n == self@.len(),
                n <= u32::MAX,
                c == popcount(self@.take(i as int)),
                c <= i,
        {
            proof { lemma_popcount_take(self@, i as int); }
            if self.bits[i] {
                c = c + 1;
            }
        }
        assert(self@.take(n as int) =~= self@);
        c
    }

    /// Length of the run of bits equal to `b` from the least significant end.
    fn count_trailing(&self, b: bool) -> (r: u32)
        ensures
            r == trailing(self@, b),
    {
        proof { use_type_invariant(self); }
        let n = self.bits.len();
        let mut i: usize = 0;
        while i < n && self.bits[i] == b
            invariant
                n == self@.len(),
                n <= u32::MAX,
                i <= n,
                forall|j: int| 0 <= j < i ==> self@[j] == b,
            decreases n - i,
        {
            i = i + 1;
        }
        proof { lemma_trailing_char(self@, b, i as nat); }
        i as u32
    }

    /// Length of the run of bits equal to `b` from the most significant end.
    fn count_leading(&self, b: bool) -> (r: u32)
        ensures
            r == leading(self@, b),
    {
        proof { use_type_invariant(self); }
        let n = self.bits.len();
        let mut k: usize = 0;
        while k < n && self.bits[n - 1 - k] == b
            invariant
                n == self@.len(),
                n <= u32::MAX,
                k <= n,
                forall|j: int| n - k <= j < n ==> self@[j] == b,
            decreases n - k,
        {
            k = k + 1;
        }
        proof { lemma_leading_char(self@, b, k as nat); }
        k as u32
    }

    /// Number of consecutive clear bits from the least significant end.
    pub fn count_trailing_zeros(&self) -> (r: u32)
        ensures
            r == trailing(self@, false),
    {
        self.count_trailing(false)
    }

    /// Number of consecutive set bits from the least significant end.
    pub fn count_trailing_ones(&self) -> (r: u32)
        ensures
            r == trailing(self@, true),
    {
        self.count_trailing(true)
    }

    /// Number of consecutive clear bits from the most significant end.
    pub fn count_leading_zeros(&self) -> (r: u32)
        ensures
            r == leading(self@, false),
    {
        self.count_leading(false)
    }

    /// Number of consecutive set bits from the most significant end.
    pub fn count_leading_ones(&self) -> (r: u32)
        ensures
            r == leading(self@, true),
    {
        self.count_leading(true)
    }

    /// Sign bit set.
    pub fn is_negative(&self) -> (r: bool)
        ensures
            r == (self@.len() > 0 && self@.last()),
    {
        let n = self.bits.len();
        n > 0 && self.bits[n - 1]
    }

    /// Sign bit clear (true at width zero).
    pub fn is_non_negative(&self) -> (r: bool)
        ensures
            r == !(self@.len() > 0 && self@.last()),
    {
        !self.is_negative()
    }

    /// Value is the smallest signed value: only the sign bit set.
    pub fn is_min_signed_value(&self) -> (r: bool)
        ensures
            r == (self@ == range_mask(self@.len(), self@.len() - 1, self@.len() as int)),
    {
        let n = self.bits.len();
        for i in 0..n
            invariant
                n == self@.len(),
                forall|j: int| 0 <= j < i ==> self@[j] == (j == n - 1),
        {
            if self.bits[i] != (i + 1 == n) {
                assert(self@[i as int] != range_mask(self@.len(), self@.len() - 1, self@.len() as int)[i as int]);
                return false;
            }
        }
        assert(self@ =~= range_mask(self@.len(), self@.len() - 1, self@.len() as int));
        true
    }

    /// The boolean held by a one-bit value: true when any bit is set.
    pub fn bool_value(&self) -> (r: bool)
        ensures
            r == !all_false(self@),
    {
        !self.is_zero()
    }
}


/// Bits of `a` moved up by `n` places, zeros shifted in.
pub open spec fn seq_shl(a: Seq<bool>, n: nat) -> Seq<bool> {
    Seq::new(a.len(), |i: int| i >= n && a[i - n])
}

/// Bits of `a` moved down by `n` places, zeros shifted in.
pub open spec fn seq_lshr(a: Seq<bool>, n: nat) -> Seq<bool> {
    Seq::new(a.len(), |i: int| i + n < a.len() && a[i + n])
}

/// Bits of `a` moved down by `n` places, copies of the sign bit shifted in.
pub open spec fn seq_ashr(a: Seq<bool>, n: nat) -> Seq<bool> {
    Seq::new(a.len(), |i: int| if i + n < a.len() { a[i + n] } else { a.len() > 0 && a.last() })
}

/// `a` cut or zero-padded to width `w`.
pub open spec fn seq_resize(a: Seq<bool>, w: nat) -> Seq<bool> {
    Seq::new(w, |i: int| bit_at(a, i))
}

/// `a` sign-extended to `w` bits (zero-extended when `a` is empty).
pub open spec fn seq_sext(a: Seq<bool>, w: nat) -> Seq<bool> {
    Seq::new(w, |i: int| if i < a.len() { a[i] } else { a.len() > 0 && a[a.len() - 1] })
}

/// `num` bits of `a` starting at `pos`, zero beyond the width of `a`.
pub open spec fn seq_extract(a: Seq<bool>, num: nat, pos: nat) -> Seq<bool> {
    Seq::new(num, |i: int| bit_at(a, pos + i))
}

/// `a` with the bits of `sub` written at `pos` (within the width of `a`).
pub open spec fn seq_insert(a: Seq<bool>, sub: Seq<bool>, pos: nat) -> Seq<bool> {
    Seq::new(a.len(), |i: int| if pos <= i < pos + sub.len() { sub[i - pos] } else { a[i] })
}

/// Bits of `a` in reverse order.
pub open spec fn seq_reverse(a: Seq<bool>) -> Seq<bool> {
    Seq::new(a.len(), |i: int| a[a.len() - 1 - i])
}

/// Bytes of `a` in reverse order; `a` unchanged when its width is not a
/// whole number of bytes.
pub open spec fn seq_byte_swap(a: Seq<bool>) -> Seq<bool> {
    if a.len() % 8 == 0 {
        Seq::new(a.len(), |i: int| a[(a.len() / 8 - 1 - i / 8) * 8 + i % 8])
    } else {
        a
    }
}

impl ApInt {
    /// Shift left by `n` bits (zero when `n` reaches the width).
    pub fn shl(&self, n: u32) -> (r: ApInt)
        ensures
            r@ == seq_shl(self@, n as nat),
    {
        proof { use_type_invariant(self); }
        let w = self.bits.len();
        let mut bits: Vec<bool> = Vec::new();
        for i in 0..w
            invariant
                w == self@.len(),
                w <= u32::MAX,
                bits@ == seq_shl(self@, n as nat).take(i as int),
        {
            bits.push(i >= n as usize && self.bits[i - n as usize]);
            assert(bits@ =~= seq_shl(self@, n as nat).take(i + 1));
        }
        assert(bits@ =~= seq_shl(self@, n as nat));
        ApInt::from_bits(bits)
    }

    /// Logical shift right by `n` bits.
    pub fn lshr(&self, n: u32) -> (r: ApInt)
        ensures
            r@ == seq_lshr(self@, n as nat),
    {
        proof { use_type_invariant(self); }
        let w = self.bits.len();
        let mut bits: Vec<bool> = Vec::new();
        for i in 0..w
            invariant
                w == self@.len(),
                w <= u32::MAX,
                bits@ == seq_lshr(self@, n as nat).take(i as int),
        {
            let src = i as u64 + n as u64;
            bits.push(src < w as u64 && self.bits[src as usize]);
            assert(bits@ =~= seq_lshr(self@, n as nat).take(i + 1));
        }
        assert(bits@ =~= seq_lshr(self@, n as nat));
        ApInt::from_bits(bits)
    }

    /// Arithmetic shift right by `n` bits.
    pub fn ashr(&self, n: u32) -> (r: ApInt)
        ensures
            r@ == seq_ashr(self@, n as nat),
    {
        proof { use_type_invariant(self); }
        let w = self.bits.len();
        let sign = w > 0 && self.bits[w - 1];
        let mut bits: Vec<bool> = Vec::new();
        for i in 0..w
            invariant
                w == self@.len(),
                w <= u32::MAX,
                sign == (self@.len() > 0 && self@.last()),
                bits@ == seq_ashr(self@, n as nat).take(i as int),
        {
            let src = i as u64 + n as u64;
            if src < w as u64 {
                bits.push(self.bits[src as usize]);
            } else {
                bits.push(sign);
            }
            assert(bits@ =~= seq_ashr(self@, n as nat).take(i + 1));
        }
        assert(bits@ =~= seq_ashr(self@, n as nat));
        ApInt::from_bits(bits)
    }

    /// `self` cut or zero-padded to `width` bits.
    pub fn zext_or_trunc(&self, width: u32) -> (r: ApInt)
        ensures
            r@ == seq_resize(self@, width as nat),
    {
        let mut bits: Vec<bool> = Vec::new();
        for i in 0..width
            invariant
                bits@ == seq_resize(self@, width as nat).take(i as int),
        {
            bits.push(self.bit(i));
            assert(bits@ =~= seq_resize(self@, width as nat).take(i + 1));
        }
        assert(bits@ =~= seq_resize(self@, width as nat));
        ApInt::from_bits(bits)
    }

    /// The low `width` bits, when `width` does not exceed the current width.
    pub fn trunc(&self, width: u32) -> (r: Option<ApInt>)
        ensures
            r is Some <==> width <= self@.len(),
            r matches Some(v) ==> v@ == self@.take(width as int),
    {
        proof { use_type_invariant(self); }
        if (width as usize) <= self.bits.len() {
            let v = self.zext_or_trunc(width);
            assert(v@ =~= self@.take(width as int));
            Some(v)
        } else {
            None
        }
    }

    /// Zero-extension to `width` bits, when `width` is not below the
    /// current width.
    pub fn zext(&self, width: u32) -> (r: Option<ApInt>)
        ensures
            r is Some <==> width >= self@.len(),
            r matches Some(v) ==> v@ == seq_resize(self@, width as nat),
    {
        proof { use_type_invariant(self); }
        if (width as usize) >= self.bits.len() {
            Some(self.zext_or_trunc(width))
        } else {
            None
        }
    }

    /// Sign-extension to `width` bits, when `width` is not below the
    /// current width.
    pub fn sext(&self, width: u32) -> (r: Option<ApInt>)
        ensures
            r is Some <==> width >= self@.len(),
            r matches Some(v) ==> v@ == seq_sext(self@, width as nat),
    {
        proof { use_type_invariant(self); }
        let w = self.bits.len();
        if (width as usize) < w {
            return None;
        }
        let sign = w > 0 && self.bits[w - 1];
        let mut bits: Vec<bool> = Vec::new();
        for i in 0..width
            invariant
                w == self@.len(),
                sign == (w > 0 && self@[w - 1]),
                bits@ == seq_sext(self@, width as nat).take(i as int),
        {
            let b = if (i as usize) < w { self.bits[i as usize] } else { sign };
            bits.push(b);
            assert(bits@ =~= seq_sext(self@, width as nat).take(i + 1));
        }
        assert(bits@ =~= seq_sext(self@, width as nat));
        Some(ApInt::from_bits(bits))
    }

    /// `num_bits` bits starting at `bit_position` (zero beyond the width).
    pub fn extract_bits(&self, num_bits: u32, bit_position: u32) -> (r: ApInt)
        ensures
            r@ == seq_extract(self@, num_bits as nat, bit_position as nat),
    {
        let mut bits: Vec<bool> = Vec::new();
        for i in 0..num_bits
            invariant
                bits@ == seq_extract(self@, num_bits as nat, bit_position as nat).take(i as int),
        {
            let src = bit_position as u64 + i as u64;
            if src <= u32::MAX as u64 {
                bits.push(self.bit(src as u32));
            } else {
                proof { use_type_invariant(self); }
                bits.push(false);
            }
            assert(bits@ =~= seq_extract(self@, num_bits as nat, bit_position as nat).take(i + 1));
        }
        assert(bits@ =~= seq_extract(self@, num_bits as nat, bit_position as nat));
        ApInt::from_bits(bits)
    }

    /// Overwrites the bits from `bit_position` with `sub` (bits falling
    /// beyond the width are dropped).
    pub fn insert_bits(&mut self, sub: &ApInt, bit_position: u32)
        ensures
            final(self)@ == seq_insert(old(self)@, sub@, bit_position as nat),
    {
        proof { use_type_invariant(&*self); use_type_invariant(sub); }
        let w = self.bits.len();
        let sw = sub.bits.len();
        let ghost target = seq_insert(self@, sub@, bit_position as nat);
        let mut bits: Vec<bool> = Vec::new();
        for i in 0..w
            invariant
                w == self@.len(),
                sw == sub@.len(),
                w <= u32::MAX,
                target == seq_insert(self@, sub@, bit_position as nat),
                bits@ == target.take(i as int),
        {
            let p = bit_position as usize;
            if p <= i && i - p < sw {
                bits.push(sub.bits[i - p]);
            } else {
                bits.push(self.bits[i]);
            }
            assert(bits@ =~= target.take(i + 1));
        }
        assert(bits@ =~= target);
        *self = ApInt::from_bits(bits);
    }

    /// `self` as the high part above `lo`.
    pub fn concat(&self, lo: &ApInt) -> (r: ApInt)
        requires
            self@.len() + lo@.len() <= u32::MAX,
        ensures
            r@ == lo@ + self@,
    {
        let mut bits: Vec<bool> = Vec::new();
        let nl = lo.bits.len();
        for i in 0..nl
            invariant
                nl == lo@.len(),
                bits@ == lo@.take(i as int),
        {
            bits.push(lo.bits[i]);
            assert(bits@ =~= lo@.take(i + 1));
        }
        let nh = self.bits.len();
        for i in 0..nh
            invariant
                nl == lo@.len(),
                nh == self@.len(),
                bits@ == lo@ + self@.take(i as int),
        {
            bits.push(self.bits[i]);
            assert(bits@ =~= lo@ + self@.take(i + 1));
        }
        assert(bits@ =~= lo@ + self@);
        ApInt::from_bits(bits)
    }

    /// Bits in reverse order.
    pub fn reverse_bits(&self) -> (r: ApInt)
        ensures
            r@ == seq_reverse(self@),
    {
        proof { use_type_invariant(self); }
        let w = self.bits.len();
        let mut bits: Vec<bool> = Vec::new();
        for i in 0..w
            invariant
                w == self@.len(),
                w <= u32::MAX,
                bits@ == seq_reverse(self@).take(i as int),
        {
            bits.push(self.bits[w - 1 - i]);
            assert(bits@ =~= seq_reverse(self@).take(i + 1));
        }
        assert(bits@ =~= seq_reverse(self@));
        ApInt::from_bits(bits)
    }

    /// Bytes in reverse order (unchanged when the width is not a whole
    /// number of bytes).
    pub fn byte_swap(&self) -> (r: ApInt)
        ensures
            r@ == seq_byte_swap(self@),
    {
        proof { use_type_invariant(self); }
        let w = self.bits.len();
        if w % 8 != 0 {
            return self.duplicate();
        }
        let nbytes = w / 8;
        let mut bits: Vec<bool> = Vec::new();
        for i in 0..w
            invariant
                w == self@.len(),
                w % 8 == 0,
                nbytes == w / 8,
                w <= u32::MAX,
                bits@ == seq_byte_swap(self@).take(i as int),
        {
            let src = (nbytes - 1 - i / 8) * 8 + i % 8;
            assert(src < w) by (nonlinear_arith)
                requires src == (nbytes - 1 - i / 8) * 8 + i % 8, i < w, nbytes == w / 8, w % 8 == 0;
            bits.push(self.bits[src]);
            assert(bits@ =~= seq_byte_swap(self@).take(i + 1));
        }
        assert(bits@ =~= seq_byte_swap(self@));
        ApInt::from_bits(bits)
    }
}


/// Wrapping sum at the width of `a`.
pub open spec fn seq_add(a: Seq<bool>, b: Seq<bool>) -> Seq<bool> {
    from_nat(a.len(), nat_of(a) + nat_of(b))
}

/// Wrapping difference at the width of `a`.
pub open spec fn seq_sub(a: Seq<bool>, b: Seq<bool>) -> Seq<bool> {
    from_nat(a.len(), (nat_of(a) + pow2(a.len()) - nat_of(b)) as nat)
}

/// Wrapping product at the width of `a`.
pub open spec fn seq_mul(a: Seq<bool>, b: Seq<bool>) -> Seq<bool> {
    from_nat(a.len(), nat_of(a) * nat_of(b))
}

/// Unsigned saturating sum at the width of `a`.
pub open spec fn seq_uadd_sat(a: Seq<bool>, b: Seq<bool>) -> Seq<bool> {
    if nat_of(a) + nat_of(b) >= pow2(a.len() as nat) { splat(a.len(), true) } else { seq_add(a, b) }
}

/// Unsigned saturating difference at the width of `a`.
pub open spec fn seq_usub_sat(a: Seq<bool>, b: Seq<bool>) -> Seq<bool> {
    if nat_of(a) < nat_of(b) { splat(a.len(), false) } else { seq_sub(a, b) }
}

/// One bit position of an addition: sum bit plus twice the carry out.
pub proof fn lemma_full_adder(a: bool, b: bool, c: bool, p: nat)
    ensures
        bit_val(a != (b != c)) * p + bit_val((a && b) || (a && c) || (b && c)) * (2 * p)
            == bit_val(a) * p + bit_val(b) * p + bit_val(c) * p,
{
}

proof fn lemma_push_value(s: Seq<bool>, x: bool)
    ensures
        nat_of(s.push(x)) == nat_of(s) + bit_val(x) * pow2(s.len() as nat),
{
    assert(s.push(x).drop_last() =~= s);
}

impl ApInt {
    /// Ripple-carry addition of equal-width values with carry in; returns the
    /// wrapped sum and the carry out.
    fn add_carry(&self, rhs: &ApInt, cin: bool) -> (r: (ApInt, bool))
        requires
            self@.len() == rhs@.len(),
        ensures
            r.0@.len() == self@.len(),
            nat_of(r.0@) + bit_val(r.1) * pow2(self@.len() as nat)
                == nat_of(self@) + nat_of(rhs@) + bit_val(cin),
    {
        proof { use_type_invariant(self); vstd::arithmetic::power2::lemma2_to64(); }
        let w = self.bits.len();
        let mut bits: Vec<bool> = Vec::new();
        let mut carry = cin;
        assert(self@.take(0) =~= Seq::<bool>::empty());
        assert(rhs@.take(0) =~= Seq::<bool>::empty());
        for i in 0..w
            invariant
                w == self@.len(),
                w == rhs@.len(),
                w <= u32::MAX,
                bits@.len() == i,
                nat_of(bits@) + bit_val(carry) * pow2(i as nat)
                    == nat_of(self@.take(i as int)) + nat_of(rhs@.take(i as int)) + bit_val(cin),
        {
            let a = self.bits[i];
            let b = rhs.bits[i];
            let sum = a != (b != carry);
            let c = (a && b) || (a && carry) || (b && carry);
            proof {
                lemma_nat_of_take(self@, i as int);
                lemma_nat_of_take(rhs@, i as int);
                lemma_push_value(bits@, sum);
                lemma_pow2_unfold((i + 1) as nat);
                lemma_full_adder(a, b, carry, pow2(i as nat));
            }
            bits.push(sum);
            carry = c;
        }
        assert(self@.take(w as int) =~= self@);
        assert(rhs@.take(w as int) =~= rhs@);
        (ApInt::from_bits(bits), carry)
    }

    /// Sum modulo `2^width` of equal-width values.
    pub fn wrapping_add(&self, rhs: &ApInt) -> (r: ApInt)
        requires
            self@.len() == rhs@.len(),
        ensures
            r@ == seq_add(self@, rhs@),
    {
        let (r, c) = self.add_carry(rhs, false);
        proof {
            lemma_nat_of_bound(r@);
            let w = self@.len() as nat;
            vstd::arithmetic::div_mod::lemma_fundamental_div_mod_converse_mod(
                (nat_of(self@) + nat_of(rhs@)) as int, pow2(w) as int, bit_val(c) as int, nat_of(r@) as int);
            lemma_from_nat_of_value(r@, nat_of(self@) + nat_of(rhs@));
        }
        r
    }

    /// Wrapped sum and whether the true sum reaches `2^width`.
    pub fn uadd_ov(&self, rhs: &ApInt) -> (r: (ApInt, bool))
        requires
            self@.len() == rhs@.len(),
        ensures
            r.0@ == seq_add(self@, rhs@),
            r.1 == (nat_of(self@) + nat_of(rhs@) >= pow2(self@.len() as nat)),
    {
        let (r, c) = self.add_carry(rhs, false);
        proof {
            lemma_nat_of_bound(r@);
            let w = self@.len() as nat;
            lemma_pow2_pos(w);
            vstd::arithmetic::div_mod::lemma_fundamental_div_mod_converse_mod(
                (nat_of(self@) + nat_of(rhs@)) as int, pow2(w) as int, bit_val(c) as int, nat_of(r@) as int);
            lemma_from_nat_of_value(r@, nat_of(self@) + nat_of(rhs@));
            if c {
                assert(nat_of(self@) + nat_of(rhs@) >= pow2(w));
            } else {
                assert(nat_of(self@) + nat_of(rhs@) < pow2(w));
            }
        }
        (r, c)
    }

    /// Difference modulo `2^width` of equal-width values, with whether the
    /// true difference is negative.
    pub fn usub_ov(&self, rhs: &ApInt) -> (r: (ApInt, bool))
        requires
            self@.len() == rhs@.len(),
        ensures
            r.0@ == seq_sub(self@, rhs@),
            r.1 == (nat_of(self@) < nat_of(rhs@)),
    {
        let nb = rhs.not();
        let (r, c) = self.add_carry(&nb, true);
        proof {
            let w = self@.len() as nat;
            lemma_nat_of_not(rhs@);
            lemma_nat_of_bound(r@);
            lemma_nat_of_bound(rhs@);
            let v = (nat_of(self@) + pow2(w) - nat_of(rhs@)) as nat;
            vstd::arithmetic::div_mod::lemma_fundamental_div_mod_converse_mod(
                v as int, pow2(w) as int, bit_val(c) as int, nat_of(r@) as int);
            lemma_from_nat_of_value(r@, v);
            assert(nat_of(nb@) + nat_of(rhs@) + 1 == pow2(w));
            assert(nat_of(r@) + bit_val(c) * pow2(w) == nat_of(self@) + pow2(w) - nat_of(rhs@));
            if c {
                assert(bit_val(c) == 1);
                assert(1 * pow2(w) == pow2(w));
                assert(nat_of(self@) >= nat_of(rhs@));
            } else {
                assert(bit_val(c) == 0);
                assert(0 * pow2(w) == 0);
                assert(nat_of(self@) < nat_of(rhs@));
            }
        }
        (r, !c)
    }

    /// Difference modulo `2^width` of equal-width values.
    pub fn wrapping_sub(&self, rhs: &ApInt) -> (r: ApInt)
        requires
            self@.len() == rhs@.len(),
        ensures
            r@ == seq_sub(self@, rhs@),
    {
        self.usub_ov(rhs).0
    }

    /// Two's complement negation.
    pub fn negate(&self) -> (r: ApInt)
        ensures
            r@ == seq_sub(splat(self@.len(), false), self@),
    {
        proof { use_type_invariant(self); }
        let z = ApInt::zero(self.bits.len() as u32);
        z.wrapping_sub(self)
    }

    /// Unsigned saturating sum.
    pub fn uadd_sat(&self, rhs: &ApInt) -> (r: ApInt)
        requires
            self@.len() == rhs@.len(),
        ensures
            r@ == seq_uadd_sat(self@, rhs@),
    {
        proof { use_type_invariant(self); }
        let (r, ov) = self.uadd_ov(rhs);
        if ov {
            ApInt::all_ones(self.bits.len() as u32)
        } else {
            r
        }
    }

    /// Unsigned saturating difference.
    pub fn usub_sat(&self, rhs: &ApInt) -> (r: ApInt)
        requires
            self@.len() == rhs@.len(),
        ensures
            r@ == seq_usub_sat(self@, rhs@),
    {
        proof { use_type_invariant(self); }
        let (r, ov) = self.usub_ov(rhs);
        if ov {
            ApInt::zero(self.bits.len() as u32)
        } else {
            r
        }
    }

    /// Unsigned `self >= rhs`.
    pub fn uge(&self, rhs: &ApInt) -> (r: bool)
        requires
            self@.len() == rhs@.len(),
        ensures
            r == (nat_of(self@) >= nat_of(rhs@)),
    {
        !self.usub_ov(rhs).1
    }

    /// Unsigned `self > rhs`.
    pub fn ugt(&self, rhs: &ApInt) -> (r: bool)
        requires
            self@.len() == rhs@.len(),
        ensures
            r == (nat_of(self@) > nat_of(rhs@)),
    {
        rhs.usub_ov(self).1
    }

    /// Unsigned `self <= rhs`.
    pub fn ule(&self, rhs: &ApInt) -> (r: bool)
        requires
            self@.len() == rhs@.len(),
        ensures
            r == (nat_of(self@) <= nat_of(rhs@)),
    {
        !rhs.usub_ov(self).1
    }

    /// Unsigned `self < rhs`.
    pub fn ult(&self, rhs: &ApInt) -> (r: bool)
        requires
            self@.len() == rhs@.len(),
        ensures
            r == (nat_of(self@) < nat_of(rhs@)),
    {
        self.usub_ov(rhs).1
    }

    /// Same width and bits.
    pub fn eq_ap_int(&self, rhs: &ApInt) -> (r: bool)
        ensures
            r == (self@ == rhs@),
    {
        proof { use_type_invariant(self); }
        if self.bits.len() != rhs.bits.len() {
            return false;
        }
        let n = self.bits.len();
        for i in 0..n
            invariant
                n == self@.len(),
                n == rhs@.len(),
                forall|j: int| 0 <= j < i ==> self@[j] == rhs@[j],
        {
            if self.bits[i] != rhs.bits[i] {
                return false;
            }
        }
        assert(self@ =~= rhs@);
        true
    }
}


/// `a` with its top bit inverted.
pub open spec fn seq_flip_msb(a: Seq<bool>) -> Seq<bool> {
    Seq::new(a.len(), |i: int| if i == a.len() - 1 { !a[i] } else { a[i] })
}

/// `v` limited to the signed range of width `w > 0`.
pub open spec fn clamp_signed(w: nat, v: int) -> int {
    if v < -(pow2((w - 1) as nat) as int) {
        -(pow2((w - 1) as nat) as int)
    } else if v > pow2((w - 1) as nat) - 1 {
        pow2((w - 1) as nat) - 1
    } else {
        v
    }
}

/// Signed saturating sum at the width of `a`.
pub open spec fn seq_sadd_sat(a: Seq<bool>, b: Seq<bool>) -> Seq<bool> {
    if a.len() == 0 { a } else { from_int(a.len(), clamp_signed(a.len(), int_of(a) + int_of(b))) }
}

/// Signed saturating difference at the width of `a`.
pub open spec fn seq_ssub_sat(a: Seq<bool>, b: Seq<bool>) -> Seq<bool> {
    if a.len() == 0 { a } else { from_int(a.len(), clamp_signed(a.len(), int_of(a) - int_of(b))) }
}

/// The value splits at the top bit.
pub proof fn lemma_msb_split(s: Seq<bool>)
    requires
        s.len() > 0,
    ensures
        nat_of(s) == nat_of(s.drop_last()) + bit_val(s.last()) * pow2((s.len() - 1) as nat),
        nat_of(s.drop_last()) < pow2((s.len() - 1) as nat),
        pow2(s.len() as nat) == 2 * pow2((s.len() - 1) as nat),
        int_of(s) == nat_of(s.drop_last()) - (if s.last() { pow2((s.len() - 1) as nat) as int } else { 0 }),
{
    lemma_nat_of_bound(s.drop_last());
    lemma_pow2_unfold(s.len() as nat);
    let p = pow2((s.len() - 1) as nat);
    assert(nat_of(s) == nat_of(s.drop_last()) + bit_val(s.last()) * p);
    if s.last() {
        assert(bit_val(s.last()) * p == p);
        assert(int_of(s) == nat_of(s) - pow2(s.len() as nat));
    } else {
        assert(bit_val(s.last()) * p == 0);
    }
}

/// All-ones of width `w` has value `2^w - 1`.
pub proof fn lemma_nat_of_all_ones(w: nat)
    ensures
        nat_of(splat(w, true)) + 1 == pow2(w),
{
    crate::bitseq::lemma_nat_of_not(splat(w, false));
    assert(seq_not(splat(w, false)) =~= splat(w, true));
    lemma_nat_of_splat_false(w);
}

/// The smallest signed value of width `w > 0` has unsigned value `2^(w-1)`.
pub proof fn lemma_signed_min_value(w: nat)
    requires
        w > 0,
    ensures
        nat_of(range_mask(w, w - 1, w as int)) == pow2((w - 1) as nat),
        range_mask(w, w - 1, w as int) == from_int(w, -(pow2((w - 1) as nat) as int)),
{
    let m = range_mask(w, w - 1, w as int);
    assert(m.drop_last() =~= splat((w - 1) as nat, false));
    lemma_nat_of_splat_false((w - 1) as nat);
    lemma_msb_split(m);
    let v = -(pow2((w - 1) as nat) as int);
    vstd::arithmetic::div_mod::lemma_fundamental_div_mod_converse_mod(v, pow2(w) as int, -1, pow2((w - 1) as nat) as int);
    lemma_canonical(m);
}

/// The largest signed value of width `w > 0` has value `2^(w-1) - 1`.
pub proof fn lemma_signed_max_value(w: nat)
    requires
        w > 0,
    ensures
        nat_of(range_mask(w, 0, w - 1)) + 1 == pow2((w - 1) as nat),
        range_mask(w, 0, w - 1) == from_int(w, pow2((w - 1) as nat) - 1),
{
    let m = range_mask(w, 0, w - 1);
    assert(m.drop_last() =~= splat((w - 1) as nat, true));
    lemma_nat_of_all_ones((w - 1) as nat);
    lemma_msb_split(m);
    let v = pow2((w - 1) as nat) - 1;
    vstd::arithmetic::div_mod::lemma_fundamental_div_mod_converse_mod(v, pow2(w) as int, 0, v);
    lemma_canonical(m);
}

/// Inverting the top bit maps signed order onto unsigned order.
pub proof fn lemma_flip_msb(s: Seq<bool>)
    requires
        s.len() > 0,
    ensures
        nat_of(seq_flip_msb(s)) == int_of(s) + pow2((s.len() - 1) as nat),
        seq_flip_msb(s).len() == s.len(),
{
    let f = seq_flip_msb(s);
    assert(f.drop_last() =~= s.drop_last());
    lemma_msb_split(s);
    lemma_msb_split(f);
}

/// A bit string whose value is congruent to `v` is `from_int(width, v)`.
pub proof fn lemma_from_int_of_value(s: Seq<bool>, v: int, q: int)
    requires
        v == q * pow2(s.len() as nat) + nat_of(s),
    ensures
        s == from_int(s.len() as nat, v),
{
    lemma_nat_of_bound(s);
    lemma_pow2_pos(s.len() as nat);
    vstd::arithmetic::div_mod::lemma_fundamental_div_mod_converse_mod(v, pow2(s.len() as nat) as int, q, nat_of(s) as int);
    lemma_canonical(s);
}

/// Overflow classification for a signed sum computed from the top bits
/// (`sa`, `sb`, `sr` in 0..=1, low parts below `h`, carry `c`).
proof fn lemma_signed_sum_cases(la: int, lb: int, lr: int, h: int, sa: int, sb: int, sr: int, c: int)
    by (nonlinear_arith)
    requires
        0 <= la < h,
        0 <= lb <= h,
        0 <= lr < h,
        0 <= sa <= 1,
        0 <= sb <= 1,
        0 <= sr <= 1,
        0 <= c <= 1,
        lr + sr * h + c * (2 * h) == la + sa * h + lb + sb * h,
    ensures
        ({
            let v = (la - sa * h) + (lb - sb * h);
            let ov = sa == sb && sr != sa;
            &&& (ov && sa == 1 ==> v < -h)
            &&& (ov && sa == 0 ==> v > h - 1)
            &&& (!ov ==> -h <= v <= h - 1)
            &&& v == (c - sa - sb) * (2 * h) + (lr + sr * h)
        }),
{
}

impl ApInt {
    /// A copy with the top bit inverted.
    fn flip_msb(&self) -> (r: ApInt)
        ensures
            r@ == seq_flip_msb(self@),
    {
        proof { use_type_invariant(self); }
        let w = self.bits.len();
        let mut bits: Vec<bool> = Vec::new();
        for i in 0..w
            invariant
                w == self@.len(),
                w <= u32::MAX,
                bits@ == seq_flip_msb(self@).take(i as int),
        {
            if i + 1 == w {
                bits.push(!self.bits[i]);
            } else {
                bits.push(self.bits[i]);
            }
            assert(bits@ =~= seq_flip_msb(self@).take(i + 1));
        }
        assert(bits@ =~= seq_flip_msb(self@));
        ApInt::from_bits(bits)
    }

    /// Signed `self > rhs`.
    pub fn sgt(&self, rhs: &ApInt) -> (r: bool)
        requires
            self@.len() == rhs@.len(),
        ensures
            r == (int_of(self@) > int_of(rhs@)),
    {
        if self.bits.len() == 0 {
            return false;
        }
        proof { lemma_flip_msb(self@); lemma_flip_msb(rhs@); }
        self.flip_msb().ugt(&rhs.flip_msb())
    }

    /// Signed `self >= rhs`.
    pub fn sge(&self, rhs: &ApInt) -> (r: bool)
        requires
            self@.len() == rhs@.len(),
        ensures
            r == (int_of(self@) >= int_of(rhs@)),
    {
        !rhs.sgt(self)
    }

    /// Signed `self < rhs`.
    pub fn slt(&self, rhs: &ApInt) -> (r: bool)
        requires
            self@.len() == rhs@.len(),
        ensures
            r == (int_of(self@) < int_of(rhs@)),
    {
        rhs.sgt(self)
    }

    /// Signed `self <= rhs`.
    pub fn sle(&self, rhs: &ApInt) -> (r: bool)
        requires
            self@.len() == rhs@.len(),
        ensures
            r == (int_of(self@) <= int_of(rhs@)),
    {
        !self.sgt(rhs)
    }

    /// Signed value at most zero.
    pub fn is_non_positive(&self) -> (r: bool)
        ensures
            r == (int_of(self@) <= 0),
    {
        proof {
            if self@.len() > 0 {
                lemma_msb_split(self@);
                if !self@.last() && nat_of(self@) == 0 {
                    lemma_canonical(self@);
                }
            }
            if self@.len() == 0 {
                lemma_canonical(self@);
            }
            if all_false(self@) {
                assert(self@ =~= splat(self@.len(), false));
                lemma_nat_of_splat_false(self@.len());
            }
            if nat_of(self@) == 0 {
                lemma_nat_of_splat_false(self@.len());
                lemma_nat_of_injective(self@, splat(self@.len(), false));
            }
        }
        self.is_negative() || self.is_zero()
    }

    /// Signed saturating sum of equal-width values.
    pub fn sadd_sat(&self, rhs: &ApInt) -> (r: ApInt)
        requires
            self@.len() == rhs@.len(),
        ensures
            r@ == seq_sadd_sat(self@, rhs@),
    {
        proof { use_type_invariant(self); }
        let w = self.bits.len();
        if w == 0 {
            return self.duplicate();
        }
        let (sum, c) = self.add_carry(rhs, false);
        self.saturate_signed(rhs, rhs, sum, c, false)
    }

    /// Signed saturating difference of equal-width values.
    pub fn ssub_sat(&self, rhs: &ApInt) -> (r: ApInt)
        requires
            self@.len() == rhs@.len(),
        ensures
            r@ == seq_ssub_sat(self@, rhs@),
    {
        proof { use_type_invariant(self); }
        let w = self.bits.len();
        if w == 0 {
            return self.duplicate();
        }
        let nb = rhs.not();
        let (diff, c) = self.add_carry(&nb, true);
        proof {
            lemma_nat_of_not(rhs@);
            lemma_msb_split(rhs@);
            lemma_msb_split(nb@);
        }
        self.saturate_signed(rhs, &nb, diff, c, true)
    }

    /// Clamps the raw sum `self + addend (+ carry in)` to the signed range,
    /// where `addend` is `rhs` for a sum and its complement for a difference.
    fn saturate_signed(&self, rhs: &ApInt, addend: &ApInt, raw: ApInt, c: bool, sub: bool) -> (r: ApInt)
        requires
            self@.len() > 0,
            self@.len() == rhs@.len(),
            addend@ == (if sub { seq_not(rhs@) } else { rhs@ }),
            raw@.len() == self@.len(),
            nat_of(raw@) + bit_val(c) * pow2(self@.len() as nat)
                == nat_of(self@) + nat_of(addend@) + bit_val(sub),
        ensures
            r@ == (if sub { seq_ssub_sat(self@, rhs@) } else { seq_sadd_sat(self@, rhs@) }),
    {
        proof { use_type_invariant(self); }
        let w = self.bits.len();
        let sa = self.bits[w - 1];
        let sb = addend.bit((w - 1) as u32);
        let sr = raw.bit((w - 1) as u32);
        proof {
            let h = pow2((w - 1) as nat) as int;
            lemma_msb_split(self@);
            lemma_msb_split(addend@);
            lemma_msb_split(raw@);
            lemma_msb_split(rhs@);
            let la = nat_of(self@.drop_last()) as int;
            let lr = nat_of(raw@.drop_last()) as int;
            let lb = nat_of(addend@.drop_last()) as int + bit_val(sub);
            let v = if sub { int_of(self@) - int_of(rhs@) } else { int_of(self@) + int_of(rhs@) };
            if sub {
                assert(addend@.drop_last() =~= seq_not(rhs@.drop_last()));
                lemma_nat_of_not(rhs@.drop_last());
                assert(v == (la - bit_val(sa) * h) + (lb - bit_val(sb) * h));
            } else {
                assert(v == (la - bit_val(sa) * h) + (lb - bit_val(sb) * h));
            }
            lemma_signed_sum_cases(la, lb, lr, h, bit_val(sa) as int, bit_val(sb) as int, bit_val(sr) as int, bit_val(c) as int);
            if !(sa == sb && sr != sa) {
                lemma_from_int_of_value(raw@, v, bit_val(c) - bit_val(sa) - bit_val(sb));
            }
        }
        if sa == sb && sr != sa {
            if sa {
                proof { lemma_signed_min_value(w as nat); }
                ApInt::signed_min_value(w as u32)
            } else {
                proof { lemma_signed_max_value(w as nat); }
                ApInt::signed_max_value(w as u32)
            }
        } else {
            raw
        }
    }
}


impl ApInt {
    /// Shift left by `n`, with whether the shift leaves the width or moves a
    /// set bit out of it.
    pub fn ushl_ov(&self, n: u32) -> (r: (ApInt, bool))
        ensures
            r.0@ == (if n >= self@.len() { splat(self@.len(), false) } else { seq_shl(self@, n as nat) }),
            r.1 == (n >= self@.len() || n > leading(self@, false)),
    {
        proof { use_type_invariant(self); }
        let w = self.bits.len() as u32;
        if n >= w {
            return (ApInt::zero(w), true);
        }
        let clz = self.count_leading_zeros();
        (self.shl(n), n > clz)
    }

    /// Wrapped product and whether the true product reaches `2^width`.
    pub fn umul_ov(&self, rhs: &ApInt) -> (r: (ApInt, bool))
        requires
            self@.len() == rhs@.len(),
        ensures
            r.0@ == seq_mul(self@, rhs@),
            r.1 == (nat_of(self@) * nat_of(rhs@) >= pow2(self@.len() as nat)),
    {
        proof { use_type_invariant(self); vstd::arithmetic::power2::lemma2_to64(); }
        let w = self.bits.len();
        let clz = self.count_leading_zeros();
        let mut acc = ApInt::zero(w as u32);
        let mut ov = false;
        let ghost a = nat_of(self@);
        let ghost p = pow2(w as nat);
        proof {
            lemma_pow2_pos(w as nat);
            assert(rhs@.take(0) =~= Seq::<bool>::empty());
            lemma_from_nat_small(w as nat, 0);
            lemma_canonical(acc@);
            assert(nat_of(rhs@.take(0)) == 0);
            assert(a * 0 == 0);
        }
        for i in 0..w
            invariant
                w == self@.len(),
                w == rhs@.len(),
                w <= u32::MAX,
                a == nat_of(self@),
                p == pow2(w as nat),
                p > 0,
                clz == leading(self@, false),
                acc@ == from_nat(w as nat, a * nat_of(rhs@.take(i as int))),
                ov == (a * nat_of(rhs@.take(i as int)) >= p),
        {
            let ghost e = a * nat_of(rhs@.take(i as int));
            proof {
                lemma_nat_of_take(rhs@, i as int);
                lemma_nat_of_from_nat(w as nat, e);
            }
            if rhs.bits[i] {
                let t = self.shl(i as u32);
                let tov = clz < i as u32;
                let (sum, cov) = acc.uadd_ov(&t);
                proof {
                    let ti = a * pow2(i as nat);
                    lemma_nat_of_shl(self@, i as nat);
                    lemma_nat_of_from_nat(w as nat, ti);
                    lemma_shl_overflow(self@, i as nat);
                    assert(a * nat_of(rhs@.take(i + 1)) == e + ti) by {
                        assert(bit_val(rhs@[i as int]) == 1);
                        assert(nat_of(rhs@.take(i + 1)) == nat_of(rhs@.take(i as int)) + pow2(i as nat));
                        vstd::arithmetic::mul::lemma_mul_is_distributive_add(a as int, nat_of(rhs@.take(i as int)) as int, pow2(i as nat) as int);
                    }
                    vstd::arithmetic::div_mod::lemma_add_mod_noop(e as int, ti as int, p as int);
                    lemma_from_nat_mod(w as nat, e + ti);
                    lemma_from_nat_mod(w as nat, (e % p + ti % p) as nat);
                    if !ov && !tov {
                        lemma_small_mod(e, p);
                        lemma_small_mod(ti, p);
                    }
                }
                acc = sum;
                ov = ov || tov || cov;
            } else {
                proof {
                    assert(a * nat_of(rhs@.take(i + 1)) == e) by {
                        assert(nat_of(rhs@.take(i + 1)) == nat_of(rhs@.take(i as int)));
                    }
                }
            }
        }
        proof { assert(rhs@.take(w as int) =~= rhs@); }
        (acc, ov)
    }

    /// Product modulo `2^width` of equal-width values.
    pub fn wrapping_mul(&self, rhs: &ApInt) -> (r: ApInt)
        requires
            self@.len() == rhs@.len(),
        ensures
            r@ == seq_mul(self@, rhs@),
    {
        self.umul_ov(rhs).0
    }
}


/// Truncating (round toward zero) integer division.
pub open spec fn trunc_div(x: int, y: int) -> int {
    let q = (if x < 0 { -x } else { x }) / (if y < 0 { -y } else { y });
    if (x < 0) != (y < 0) { -q } else { q }
}

/// Unsigned quotient at the width of `a`.
pub open spec fn seq_udiv(a: Seq<bool>, b: Seq<bool>) -> Seq<bool> {
    from_nat(a.len(), nat_of(a) / nat_of(b))
}

/// Signed quotient (truncating) at the width of `a`.
pub open spec fn seq_sdiv(a: Seq<bool>, b: Seq<bool>) -> Seq<bool> {
    from_int(a.len(), trunc_div(int_of(a), int_of(b)))
}

impl ApInt {
    /// `self` shifted up one place with `bit` entering at the bottom; the
    /// bit shifted out is the old top bit.
    fn shift_in(&self, bit: bool) -> (r: ApInt)
        requires
            self@.len() > 0,
        ensures
            r@.len() == self@.len(),
            nat_of(r@) + bit_val(self@.last()) * pow2(self@.len() as nat) == 2 * nat_of(self@) + bit_val(bit),
    {
        proof { use_type_invariant(self); }
        let w = self.bits.len();
        let mut bits: Vec<bool> = Vec::new();
        bits.push(bit);
        for i in 0..w - 1
            invariant
                w == self@.len(),
                w > 0,
                bits@ == seq![bit] + self@.take(i as int),
        {
            bits.push(self.bits[i]);
            assert(bits@ =~= seq![bit] + self@.take(i + 1));
        }
        proof {
            let r = bits@;
            assert(r =~= seq![bit] + self@.drop_last());
            lemma_nat_of_low_bit(r);
            assert(r.skip(1) =~= self@.drop_last());
            lemma_msb_split(self@);
        }
        ApInt::from_bits(bits)
    }

    /// Unsigned quotient of equal-width values; `None` for a zero divisor.
    pub fn checked_udiv(&self, rhs: &ApInt) -> (r: Option<ApInt>)
        requires
            self@.len() == rhs@.len(),
        ensures
            r is None <==> nat_of(rhs@) == 0,
            r matches Some(q) ==> q@ == seq_udiv(self@, rhs@),
    {
        proof { use_type_invariant(self); lemma_nat_of_zero_iff(rhs@); }
        if rhs.is_zero() {
            return None;
        }
        let w = self.bits.len();
        let ghost d = nat_of(rhs@);
        let ghost p = pow2(w as nat);
        let mut q: Vec<bool> = Vec::new();
        for k in 0..w
            invariant
                q@ == splat(k as nat, false),
        {
            q.push(false);
            assert(q@ =~= splat((k + 1) as nat, false));
        }
        let mut rem = ApInt::zero(w as u32);
        let mut i = w;
        proof {
            lemma_nat_of_bound(rhs@);
            assert(self@.skip(w as int).len() == 0);
            assert(q@.skip(w as int).len() == 0);
            assert(nat_of(self@.skip(w as int)) == 0);
            assert(nat_of(q@.skip(w as int)) == 0);
            assert(0 * d == 0);
        }
        while i > 0
            invariant
                w == self@.len(),
                w == rhs@.len(),
                w <= u32::MAX,
                i <= w,
                d == nat_of(rhs@),
                p == pow2(w as nat),
                0 < d < p,
                q@.len() == w,
                rem@.len() == w,
                nat_of(rem@) < d,
                forall|j: int| 0 <= j < i ==> !q@[j],
                nat_of(self@.skip(i as int)) == nat_of(q@.skip(i as int)) * d + nat_of(rem@),
            decreases i,
        {
            i = i - 1;
            let bit = self.bits[i];
            let top = rem.is_negative();
            let shifted = rem.shift_in(bit);
            let ghost qa = nat_of(q@.skip(i + 1));
            let ghost old_q = q@;
            let ghost r0 = nat_of(rem@);
            let ghost t = 2 * r0 + bit_val(bit);
            proof {
                lemma_nat_of_low_bit(self@.skip(i as int));
                assert(self@.skip(i as int).skip(1) =~= self@.skip(i + 1));
                lemma_nat_of_bound(shifted@);
                lemma_msb_split(rem@);
                if top {
                    assert(bit_val(rem@.last()) == 1);
                    assert(1 * p == p);
                } else {
                    assert(bit_val(rem@.last()) == 0);
                    assert(0 * p == 0);
                }
                // value of the prefix from i: 2 * (qa * d + r0) + bit
                assert(nat_of(self@.skip(i as int)) == 2 * (qa * d) + t);
            }
            let qbit = top || shifted.uge(rhs);
            if qbit {
                let nr = shifted.wrapping_sub(rhs);
                proof {
                    let v = (nat_of(shifted@) + p - d) as nat;
                    lemma_nat_of_from_nat(w as nat, v);
                    if top {
                        assert(nat_of(shifted@) + p == t);
                        lemma_small_mod(v, p);
                    } else {
                        assert(nat_of(shifted@) == t);
                        vstd::arithmetic::div_mod::lemma_mod_add_multiples_vanish((t - d) as int, p as int);
                        lemma_small_mod((t - d) as nat, p);
                    }
                    assert(nat_of(nr@) == t - d);
                }
                rem = nr;
                q.set(i, true);
            } else {
                proof {
                    assert(nat_of(shifted@) == t);
                }
                rem = shifted;
            }
            proof {
                let qq = q@.skip(i as int);
                lemma_nat_of_low_bit(qq);
                assert(qq.skip(1) =~= old_q.skip(i + 1));
                assert(qq[0] == qbit);
                assert(nat_of(qq) == bit_val(qbit) + 2 * qa);
                assert((bit_val(qbit) + 2 * qa) * d == bit_val(qbit) * d + 2 * (qa * d)) by (nonlinear_arith);
            }
        }
        proof {
            assert(self@.skip(0) =~= self@);
            assert(q@.skip(0) =~= q@);
            vstd::arithmetic::div_mod::lemma_fundamental_div_mod_converse_div(
                nat_of(self@) as int, d as int, nat_of(q@) as int, nat_of(rem@) as int);
            lemma_canonical(q@);
        }
        Some(ApInt::from_bits(q))
    }
}


/// Magnitude of the signed value of a non-empty bit string.
proof fn lemma_magnitude(a: Seq<bool>, m: Seq<bool>)
    requires
        a.len() > 0,
        m == (if a.last() { seq_sub(splat(a.len(), false), a) } else { a }),
    ensures
        m.len() == a.len(),
        nat_of(m) == (if int_of(a) < 0 { -int_of(a) } else { int_of(a) }),
        nat_of(m) <= pow2((a.len() - 1) as nat),
{
    let w = a.len() as nat;
    lemma_msb_split(a);
    lemma_nat_of_splat_false(w);
    lemma_nat_of_bound(a);
    if a.last() {
        let v = (pow2(w) - nat_of(a)) as nat;
        lemma_nat_of_from_nat(w, v);
        lemma_small_mod(v, pow2(w));
    }
}

impl ApInt {
    /// Signed (truncating) quotient of equal-width values; `None` for a zero
    /// divisor and for the one overflowing case, smallest value by `-1`.
    pub fn checked_sdiv(&self, rhs: &ApInt) -> (r: Option<ApInt>)
        requires
            self@.len() == rhs@.len(),
        ensures
            r is None <==> (nat_of(rhs@) == 0 || (self@.len() > 0
                && self@ == range_mask(self@.len(), self@.len() - 1, self@.len() as int)
                && all_true(rhs@))),
            r matches Some(q) ==> q@ == seq_sdiv(self@, rhs@),
    {
        proof { use_type_invariant(self); lemma_nat_of_zero_iff(rhs@); }
        if rhs.is_zero() {
            return None;
        }
        let w = self.bits.len();
        if self.is_min_signed_value() && rhs.is_all_ones() {
            return None;
        }
        let na = self.is_negative();
        let nb = rhs.is_negative();
        let ua = if na { self.negate() } else { self.duplicate() };
        let ub = if nb { rhs.negate() } else { rhs.duplicate() };
        proof {
            lemma_magnitude(self@, ua@);
            lemma_magnitude(rhs@, ub@);
            lemma_msb_split(rhs@);
            lemma_nat_of_zero_iff(ub@);
            if nat_of(ub@) == 0 {
                // a negative divisor has a non-zero magnitude
                assert(int_of(rhs@) == 0);
                assert(nat_of(rhs@) == 0);
            }
        }
        let uq = match ua.checked_udiv(&ub) {
            Some(q) => q,
            None => { return None; }
        };
        let ghost qv = nat_of(ua@) / nat_of(ub@);
        let ghost x = int_of(self@);
        let ghost y = int_of(rhs@);
        let ghost p = pow2(w as nat);
        proof {
            lemma_msb_split(self@);
            lemma_pow2_pos((w - 1) as nat);
            vstd::arithmetic::div_mod::lemma_div_is_ordered_by_denominator(nat_of(ua@) as int, 1, nat_of(ub@) as int);
            lemma_from_nat_small(w as nat, qv);
            assert(trunc_div(x, y) == (if (x < 0) != (y < 0) { -(qv as int) } else { qv as int }));
        }
        if na != nb {
            let r = uq.negate();
            proof {
                lemma_nat_of_splat_false(w as nat);
                let v = (p - qv) as nat;
                assert(r@ == from_nat(w as nat, v));
                if qv == 0 {
                    lemma_from_nat_mod(w as nat, v);
                    vstd::arithmetic::div_mod::lemma_mod_self_0(p as int);
                    lemma_from_nat_mod(w as nat, 0);
                    vstd::arithmetic::div_mod::lemma_mod_self_0(p as int);
                    assert(((-(qv as int)) % (p as int)) == 0);
                } else {
                    vstd::arithmetic::div_mod::lemma_fundamental_div_mod_converse_mod(-(qv as int), p as int, -1, v as int);
                }
            }
            Some(r)
        } else {
            proof {
                lemma_small_mod(qv, p);
            }
            Some(uq)
        }
    }
}


impl ApInt {
    /// Value of the low `min(width, 64)` bits, and whether any bit above
    /// them is set.
    fn low_u64(&self) -> (r: (u64, bool))
        ensures
            self@.len() <= 64 ==> r.0 == nat_of(self@) && !r.1,
            self@.len() > 64 ==> r.0 == nat_of(self@.take(64)) && r.1 == !all_false(self@.skip(64)),
    {
        proof { use_type_invariant(self); vstd::arithmetic::power2::lemma2_to64(); }
        let w = self.bits.len();
        let n = if w < 64 { w } else { 64 };
        let mut v: u64 = 0;
        let mut pw: u64 = 1;
        assert(self@.take(0) =~= Seq::<bool>::empty());
        for i in 0..n
            invariant
                n <= 64,
                n <= self@.len(),
                n == (if self@.len() < 64 { self@.len() } else { 64 }),
                v == nat_of(self@.take(i as int)),
                v < pow2(i as nat),
                i < 64 ==> pw == pow2(i as nat),
        {
            proof {
                vstd::arithmetic::power2::lemma2_to64();
                lemma_nat_of_take(self@, i as int);
                lemma_pow2_unfold((i + 1) as nat);
                if i + 1 < 64 {
                    vstd::arithmetic::power2::lemma_pow2_strictly_increases((i + 1) as nat, 64);
                }
                assert(pow2((i + 1) as nat) <= 0x10000000000000000);
            }
            if self.bits[i] {
                v = v + pw;
            }
            if i + 1 < 64 {
                pw = pw * 2;
            }
            proof {
                if !self@[i as int] {
                    assert(bit_val(self@[i as int]) * pow2(i as nat) == 0);
                } else {
                    assert(bit_val(self@[i as int]) == 1);
                    assert(1 * pow2(i as nat) == pow2(i as nat));
                    assert(bit_val(self@[i as int]) * pow2(i as nat) == pow2(i as nat));
                }
            }
        }
        let mut high = false;
        let mut j = n;
        while j < w
            invariant
                n <= j <= w,
                w == self@.len(),
                n == (if self@.len() < 64 { self@.len() } else { 64 }),
                high == !(forall|k: int| n <= k < j ==> !self@[k]),
            decreases w - j,
        {
            if self.bits[j] {
                high = true;
            }
            j = j + 1;
        }
        proof {
            if w <= 64 {
                assert(self@.take(n as int) =~= self@);
            } else {
                let t = self@.skip(64);
                if high {
                    let k = choose|k: int| n <= k < w && self@[k];
                    assert(t[k - 64]);
                } else {
                    assert forall|k: int| 0 <= k < t.len() implies !t[k] by {
                        assert(t[k] == self@[k + 64]);
                    }
                }
            }
        }
        (v, high)
    }

    /// The value, capped at `limit`.
    pub fn limited_value(&self, limit: u64) -> (r: u64)
        ensures
            r == (if nat_of(self@) > limit { limit as nat } else { nat_of(self@) }),
    {
        let (v, high) = self.low_u64();
        proof {
            if self@.len() > 64 {
                lemma_nat_of_split(self@, 64);
                lemma_nat_of_zero_iff(self@.skip(64));
                vstd::arithmetic::power2::lemma2_to64();
                vstd::arithmetic::mul::lemma_mul_is_commutative(nat_of(self@.skip(64)) as int, pow2(64) as int);
                if high {
                    vstd::arithmetic::mul::lemma_mul_inequality(1, nat_of(self@.skip(64)) as int, pow2(64) as int);
                } else {
                    assert(pow2(64) * 0 == 0);
                }
            }
        }
        if high || v > limit {
            limit
        } else {
            v
        }
    }

    /// The value when it fits in 64 bits.
    pub fn try_zext_u64(&self) -> (r: Option<u64>)
        ensures
            r is Some <==> nat_of(self@) <= u64::MAX,
            r matches Some(v) ==> v == nat_of(self@),
    {
        let (v, high) = self.low_u64();
        proof {
            if self@.len() > 64 {
                lemma_nat_of_split(self@, 64);
                lemma_nat_of_zero_iff(self@.skip(64));
                vstd::arithmetic::power2::lemma2_to64();
                vstd::arithmetic::mul::lemma_mul_is_commutative(nat_of(self@.skip(64)) as int, pow2(64) as int);
                if high {
                    vstd::arithmetic::mul::lemma_mul_inequality(1, nat_of(self@.skip(64)) as int, pow2(64) as int);
                } else {
                    assert(pow2(64) * 0 == 0);
                }
            }
        }
        if high {
            None
        } else {
            Some(v)
        }
    }

    /// Exactly one bit set.
    pub fn is_power_of_2(&self) -> (r: bool)
        ensures
            r == (popcount(self@) == 1),
    {
        self.popcount() == 1
    }

    /// Exactly one bit set, and it is bit `bit`.
    pub fn is_one_bit_set(&self, bit: u32) -> (r: bool)
        ensures
            r == (bit_at(self@, bit as int) && popcount(self@) == 1),
    {
        self.bit(bit) && self.popcount() == 1
    }

    /// Value built from 64-bit words, least significant word first,
    /// truncated or zero-extended to `width` bits.
    pub fn from_words(width: u32, words: &[u64]) -> (r: ApInt)
        ensures
            r@ == Seq::new(width as nat, |i: int| i / 64 < words@.len()
                && (words@[i / 64] as nat / pow2((i % 64) as nat)) % 2 == 1),
    {
        let ghost target = Seq::new(width as nat, |i: int| i / 64 < words@.len()
            && (words@[i / 64] as nat / pow2((i % 64) as nat)) % 2 == 1);
        let mut bits: Vec<bool> = Vec::new();
        let mut cur: u64 = 0;
        proof { vstd::arithmetic::power2::lemma2_to64(); }
        for i in 0..width
            invariant
                target == Seq::new(width as nat, |i: int| i / 64 < words@.len()
                    && (words@[i / 64] as nat / pow2((i % 64) as nat)) % 2 == 1),
                bits@ == target.take(i as int),
                (i as int) / 64 < words@.len() && i % 64 != 0 ==> cur as nat == words@[(i as int) / 64] as nat / pow2((i % 64) as nat),
        {
            let k = (i / 64) as usize;
            let j = i % 64;
            if k < words.len() {
                if j == 0 {
                    cur = words[k];
                    proof {
                        vstd::arithmetic::div_mod::lemma_div_basics(words@[k as int] as int);
                        vstd::arithmetic::power2::lemma2_to64();
                    }
                }
                proof {
                    lemma_pow2_pos(j as nat);
                    lemma_pow2_unfold((j + 1) as nat);
                    lemma_div_denominator(words@[k as int] as int, pow2(j as nat) as int, 2);
                    vstd::arithmetic::mul::lemma_mul_is_commutative(pow2(j as nat) as int, 2);
                    assert(cur as nat == words@[k as int] as nat / pow2(j as nat));
                }
                bits.push(cur % 2 == 1);
                cur = cur / 2;
            } else {
                bits.push(false);
            }
            assert(bits@ =~= target.take(i + 1));
        }
        assert(bits@ =~= target);
        ApInt::from_bits(bits)
    }
}

/// Subtracting what was added gives back the original value: the
/// wrapping difference undoes the wrapping sum at every width.
pub proof fn law_sub_undoes_add(a: Seq<bool>, b: Seq<bool>)
    requires
        a.len() == b.len(),
    ensures
        seq_sub(seq_add(a, b), b) == a,
{
    let w = a.len();
    let p = pow2(w);
    let x = nat_of(a);
    let y = nat_of(b);
    lemma_pow2_pos(w);
    lemma_nat_of_bound(a);
    lemma_nat_of_bound(b);
    let s = seq_add(a, b);
    lemma_nat_of_from_nat(w, x + y);
    let sv = nat_of(s);
    assert(sv == (x + y) % p);
    let d = (sv + p - y) as nat;
    assert(d % p == x) by {
        vstd::arithmetic::div_mod::lemma_fundamental_div_mod((x + y) as int, p as int);
        let q = (x + y) / p;
        assert(sv + p - y == x + p * (1 - q)) by (nonlinear_arith)
            requires
                x + y == p * q + sv,
        ;
        assert(q == 0 || q == 1) by {
            vstd::arithmetic::div_mod::lemma_div_is_ordered((x + y) as int, (2 * p) as int, p as int);
            vstd::arithmetic::div_mod::lemma_div_by_multiple(2, p as int);
            assert(2 * p / p == 2) by (nonlinear_arith) requires p > 0;
            assert((x + y) / p >= 0) by { vstd::arithmetic::div_mod::lemma_div_pos_is_pos((x + y) as int, p as int); }
        }
        if q == 0 {
            assert(d == x + p);
            vstd::arithmetic::div_mod::lemma_mod_add_multiples_vanish(x as int, p as int);
            lemma_small_mod(x, p);
        } else {
            assert(d == x);
            lemma_small_mod(x, p);
        }
    }
    assert(seq_sub(s, b) == from_nat(w, d));
    lemma_from_nat_mod(w, d);
    lemma_small_mod(x, p);
    lemma_from_nat_of_value(a, x);
}

} // verus!
