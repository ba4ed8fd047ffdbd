//! Known zero/one bit facts for integer-like values.
//!
//! A [`KnownBits`] fact over `w` bits is a pair of masks: bits known to be
//! zero and bits known to be one. Its view is the pair `(zero, one)` of
//! bit strings. A concrete value `x` is *admitted* by a fact when every
//! known-zero bit of `x` is clear and every known-one bit is set.

use vstd::prelude::*;
use vstd::arithmetic::power2::pow2;
use vstd::std_specs::bits::{u32_leading_zeros, axiom_u32_leading_zeros};
use crate::ap_int::{
    ApInt, seq_shl, seq_lshr, seq_ashr, seq_resize, seq_extract, seq_insert, seq_reverse,
    seq_byte_swap, seq_add, seq_sub, seq_mul, seq_flip_msb, seq_udiv, seq_sdiv, trunc_div,
    seq_sadd_sat, seq_ssub_sat, seq_uadd_sat, seq_usub_sat,
};
use crate::bitseq::{
    nat_of, int_of, from_nat, splat, range_mask, seq_not, seq_and, seq_or, seq_xor, popcount,
    trailing, leading, seq_intersects, all_false, all_true, bit_at, bit_val,
};
use crate::error::{IrError, IrResult};
use crate::ir::{Module, ValueId, ValueKind, const_bits};

verus! {

/// View of a known-bits fact: `(known zero, known one)`.
pub type KnownBitsModel = (Seq<bool>, Seq<bool>);

/// `x` is consistent with the fact `k`.
pub open spec fn admits(k: KnownBitsModel, x: Seq<bool>) -> bool {
    &&& x.len() == k.0.len()
    &&& forall|i: int| #![trigger x[i]] 0 <= i < x.len() ==> (k.0[i] ==> !x[i]) && (k.1[i] ==> x[i])
}

/// The fact with nothing known at width `w`.
pub open spec fn unknown_model(w: nat) -> KnownBitsModel {
    (splat(w, false), splat(w, false))
}

/// The exact fact for the constant `v`.
pub open spec fn constant_model(v: Seq<bool>) -> KnownBitsModel {
    (seq_not(v), v)
}

/// `s` zero-extended to `w`, or all clear when `w` is narrower than `s`.
pub open spec fn ext_or_clear(s: Seq<bool>, w: nat) -> Seq<bool> {
    if w >= s.len() { seq_resize(s, w) } else { splat(w, false) }
}

/// The low `w` bits of `s`, or all clear when `w` is wider than `s`.
pub open spec fn trunc_or_clear(s: Seq<bool>, w: nat) -> Seq<bool> {
    if w <= s.len() { s.take(w as int) } else { splat(w, false) }
}

/// `a + b` saturated at `u32::MAX`.
pub open spec fn sat_add_u32(a: nat, b: nat) -> nat {
    if a + b > u32::MAX { u32::MAX as nat } else { a + b }
}

/// `a - b` saturated at zero.
pub open spec fn sat_sub(a: int, b: int) -> nat {
    if a > b { (a - b) as nat } else { 0 }
}

/// Known bits of a truncation.
pub open spec fn trunc_model(k: KnownBitsModel, w: nat) -> KnownBitsModel {
    (trunc_or_clear(k.0, w), trunc_or_clear(k.1, w))
}

/// Known bits of an extension with unknown high bits.
pub open spec fn anyext_model(k: KnownBitsModel, w: nat) -> KnownBitsModel {
    (ext_or_clear(k.0, w), ext_or_clear(k.1, w))
}

/// Known bits of a zero extension.
pub open spec fn zext_model(k: KnownBitsModel, w: nat) -> KnownBitsModel {
    (
        seq_or(ext_or_clear(k.0, w), if w > k.0.len() { range_mask(w, k.0.len() as int, w as int) } else { splat(w, false) }),
        ext_or_clear(k.1, w),
    )
}

/// Known bits of a sign extension.
pub open spec fn sext_model(k: KnownBitsModel, w: nat) -> KnownBitsModel {
    let old = k.0.len();
    if w <= old {
        trunc_model(k, w)
    } else if old == 0 {
        (ext_or_clear(k.0, w), ext_or_clear(k.1, w))
    } else {
        let high = range_mask(w, old as int, w as int);
        (
            if k.0[old - 1] { seq_or(ext_or_clear(k.0, w), high) } else { ext_or_clear(k.0, w) },
            if k.1[old - 1] { seq_or(ext_or_clear(k.1, w), high) } else { ext_or_clear(k.1, w) },
        )
    }
}

/// Smallest signed value admitted.
pub open spec fn signed_min_model(k: KnownBitsModel) -> Seq<bool> {
    let w = k.0.len();
    if w == 0 {
        splat(0, false)
    } else if seq_intersects(k.0, range_mask(w, w - 1, w as int)) {
        k.1
    } else {
        seq_or(k.1, range_mask(w, w - 1, w as int))
    }
}

/// Largest signed value admitted.
pub open spec fn signed_max_model(k: KnownBitsModel) -> Seq<bool> {
    let w = k.0.len();
    if w == 0 {
        splat(0, false)
    } else if seq_intersects(k.1, range_mask(w, w - 1, w as int)) {
        seq_not(k.0)
    } else {
        seq_and(seq_not(k.0), seq_not(range_mask(w, w - 1, w as int)))
    }
}

/// Sign bit known one.
pub open spec fn negative_model(k: KnownBitsModel) -> bool {
    k.0.len() != 0 && bit_at(k.1, k.0.len() - 1)
}

/// Sign bit known zero.
pub open spec fn non_negative_model(k: KnownBitsModel) -> bool {
    k.0.len() != 0 && bit_at(k.0, k.0.len() - 1)
}

/// Every bit known.
pub open spec fn is_constant_model(k: KnownBitsModel) -> bool {
    sat_add_u32(popcount(k.0), popcount(k.1)) == k.0.len()
}

/// Minimum number of sign bits shared by all admitted values.
pub open spec fn min_sign_bits_model(k: KnownBitsModel) -> nat {
    if non_negative_model(k) {
        leading(k.0, true)
    } else if negative_model(k) {
        leading(k.1, true)
    } else {
        1
    }
}

/// Facts true of both inputs (unknown when the widths differ).
pub open spec fn intersect_model(a: KnownBitsModel, b: KnownBitsModel) -> KnownBitsModel {
    if a.0.len() != b.0.len() {
        unknown_model(a.0.len())
    } else {
        (seq_and(a.0, b.0), seq_and(a.1, b.1))
    }
}

/// Facts of either input (unknown when the widths differ).
pub open spec fn union_model(a: KnownBitsModel, b: KnownBitsModel) -> KnownBitsModel {
    if a.0.len() != b.0.len() {
        unknown_model(a.0.len())
    } else {
        (seq_or(a.0, b.0), seq_or(a.1, b.1))
    }
}

/// Known bits of `value` in the sign-flipped order.
pub open spec fn flip_sign_model(k: KnownBitsModel) -> KnownBitsModel {
    let w = k.0.len();
    if w == 0 {
        k
    } else {
        let s = w - 1;
        (
            Seq::new(w, |i: int| if i == s { k.1[s] } else { k.0[i] }),
            Seq::new(w, |i: int| if i == s { k.0[s] } else { k.1[i] }),
        )
    }
}

/// Facts refined by knowing the value is at least `v` (unsigned).
pub open spec fn make_ge_model(k: KnownBitsModel, v: Seq<bool>) -> KnownBitsModel {
    if v.len() != k.0.len() {
        unknown_model(k.0.len())
    } else {
        let w = k.0.len();
        let leading_le = leading(seq_or(k.0, v), true);
        (k.0, seq_or(k.1, seq_and(v, range_mask(w, sat_sub(w as int, leading_le as int) as int, w as int))))
    }
}

/// Struct for tracking known zeros and ones of a value.
pub struct KnownBits {
    zero: ApInt,
    one: ApInt,
}

impl View for KnownBits {
    type V = KnownBitsModel;

    closed spec fn view(&self) -> KnownBitsModel {
        (self.zero@, self.one@)
    }
}

impl KnownBits {
    /// Both masks have the same width, which fits in `u32`.
    #[verifier::type_invariant]
    pub open spec fn well_formed(self) -> bool {
        &&& self@.0.len() == self@.1.len()
        &&& self@.0.len() <= u32::MAX
    }

    fn from_parts(zero: ApInt, one: ApInt) -> (r: KnownBits)
        requires
            zero@.len() == one@.len(),
        ensures
            r@ == (zero@, one@),
    {
        proof { use_type_invariant(&zero); }
        KnownBits { zero, one }
    }

    /// A copy of this fact.
    pub fn duplicate(&self) -> (r: KnownBits)
        ensures
            r@ == self@,
    {
        proof { use_type_invariant(self); }
        KnownBits::from_parts(self.zero.duplicate(), self.one.duplicate())
    }

    /// Constructs a known-bits fact from zero and one masks.
    pub fn from_zero_one(zero: ApInt, one: ApInt) -> (r: IrResult<KnownBits>)
        ensures
            zero@.len() == one@.len() ==> (r matches Ok(k) && k@ == (zero@, one@)),
            zero@.len() != one@.len() ==> r == Err::<KnownBits, IrError>(
                IrError::OperandWidthMismatch { lhs: zero@.len() as u32, rhs: one@.len() as u32 }),
    {
        let zw = zero.bit_width();
        let ow = one.bit_width();
        if zw != ow {
            return Err(IrError::OperandWidthMismatch { lhs: zw, rhs: ow });
        }
        Ok(KnownBits::from_parts(zero, one))
    }

    /// Unknown facts over `bit_width` bits.
    pub fn unknown(bit_width: u32) -> (r: KnownBits)
        ensures
            r@ == unknown_model(bit_width as nat),
    {
        KnownBits::from_parts(ApInt::zero(bit_width), ApInt::zero(bit_width))
    }

    /// Exact known-bits facts for a constant integer.
    pub fn from_ap_int(value: ApInt) -> (r: KnownBits)
        ensures
            r@ == constant_model(value@),
    {
        let zero = value.not();
        KnownBits::from_parts(zero, value)
    }

    /// Exact known-bits facts for the integer constant `value` of `m`.
    pub fn from_constant_int(m: &Module, value: ValueId) -> (r: KnownBits)
        requires
            m.valid_value(value),
            const_bits(*m, value) is Some,
        ensures
            r@ == constant_model(const_bits(*m, value).unwrap()),
    {
        let v = match &m.value(value).kind {
            ValueKind::ConstInt { value: c } => c.duplicate(),
            _ => ApInt::zero(0),
        };
        KnownBits::from_ap_int(v)
    }

    /// Exact known-bits facts for a constant integer.
    pub fn make_constant(value: ApInt) -> (r: KnownBits)
        ensures
            r@ == constant_model(value@),
    {
        KnownBits::from_ap_int(value)
    }

    /// Bit width tracked by this fact.
    pub fn bit_width(&self) -> (r: u32)
        ensures
            r == self@.0.len(),
    {
        self.zero.bit_width()
    }

    /// Bits known to be zero.
    pub fn zero_mask(&self) -> (r: &ApInt)
        ensures
            r@ == self@.0,
    {
        &self.zero
    }

    /// Bits known to be one.
    pub fn one_mask(&self) -> (r: &ApInt)
        ensures
            r@ == self@.1,
    {
        &self.one
    }

    /// Known bits for a truncation.
    pub fn trunc(&self, bit_width: u32) -> (r: KnownBits)
        ensures
            r@ == trunc_model(self@, bit_width as nat),
    {
        let zero = match self.zero.trunc(bit_width) {
            Some(z) => z,
            None => ApInt::zero(bit_width),
        };
        let one = match self.one.trunc(bit_width) {
            Some(o) => o,
            None => ApInt::zero(bit_width),
        };
        proof { use_type_invariant(self); }
        KnownBits::from_parts(zero, one)
    }

    /// Known bits for an extension that leaves the high bits unknown.
    pub fn anyext(&self, bit_width: u32) -> (r: KnownBits)
        ensures
            r@ == anyext_model(self@, bit_width as nat),
    {
        let zero = match self.zero.zext(bit_width) {
            Some(z) => z,
            None => ApInt::zero(bit_width),
        };
        let one = match self.one.zext(bit_width) {
            Some(o) => o,
            None => ApInt::zero(bit_width),
        };
        proof { use_type_invariant(self); }
        KnownBits::from_parts(zero, one)
    }

    /// Known bits for a zero extension.
    pub fn zext(&self, bit_width: u32) -> (r: KnownBits)
        ensures
            r@ == zext_model(self@, bit_width as nat),
    {
        proof { use_type_invariant(self); }
        let old_width = self.bit_width();
        let high_zero = if bit_width > old_width {
            ApInt::bits_set(bit_width, old_width, bit_width)
        } else {
            ApInt::zero(bit_width)
        };
        let zero = match self.zero.zext(bit_width) {
            Some(z) => z,
            None => ApInt::zero(bit_width),
        };
        let one = match self.one.zext(bit_width) {
            Some(o) => o,
            None => ApInt::zero(bit_width),
        };
        KnownBits::from_parts(zero.bitor(&high_zero), one)
    }

    /// Known bits for a sign extension.
    pub fn sext(&self, bit_width: u32) -> (r: KnownBits)
        ensures
            r@ == sext_model(self@, bit_width as nat),
    {
        proof { use_type_invariant(self); }
        let old_width = self.bit_width();
        if bit_width <= old_width {
            return self.trunc(bit_width);
        }
        let mut zero = match self.zero.zext(bit_width) {
            Some(z) => z,
            None => ApInt::zero(bit_width),
        };
        let mut one = match self.one.zext(bit_width) {
            Some(o) => o,
            None => ApInt::zero(bit_width),
        };
        if old_width != 0 {
            let high = ApInt::bits_set(bit_width, old_width, bit_width);
            if self.is_known_zero(old_width - 1) {
                zero = zero.bitor(&high);
            }
            if self.is_known_one(old_width - 1) {
                one = one.bitor(&high);
            }
        }
        KnownBits::from_parts(zero, one)
    }

    /// Known bits for any-extension or truncation.
    pub fn anyext_or_trunc(&self, bit_width: u32) -> (r: KnownBits)
        ensures
            r@ == (if bit_width > self@.0.len() {
                anyext_model(self@, bit_width as nat)
            } else if bit_width < self@.0.len() {
                trunc_model(self@, bit_width as nat)
            } else {
                self@
            }),
    {
        if bit_width > self.bit_width() {
            self.anyext(bit_width)
        } else if bit_width < self.bit_width() {
            self.trunc(bit_width)
        } else {
            self.duplicate()
        }
    }

    /// Known bits for zero-extension or truncation.
    pub fn zext_or_trunc(&self, bit_width: u32) -> (r: KnownBits)
        ensures
            r@ == (if bit_width > self@.0.len() {
                zext_model(self@, bit_width as nat)
            } else if bit_width < self@.0.len() {
                trunc_model(self@, bit_width as nat)
            } else {
                self@
            }),
    {
        if bit_width > self.bit_width() {
            self.zext(bit_width)
        } else if bit_width < self.bit_width() {
            self.trunc(bit_width)
        } else {
            self.duplicate()
        }
    }

    /// Known bits for sign-extension or truncation.
    pub fn sext_or_trunc(&self, bit_width: u32) -> (r: KnownBits)
        ensures
            r@ == (if bit_width > self@.0.len() {
                sext_model(self@, bit_width as nat)
            } else if bit_width < self@.0.len() {
                trunc_model(self@, bit_width as nat)
            } else {
                self@
            }),
    {
        if bit_width > self.bit_width() {
            self.sext(bit_width)
        } else if bit_width < self.bit_width() {
            self.trunc(bit_width)
        } else {
            self.duplicate()
        }
    }

    /// Overwrites the facts from `bit_position` with those of `sub_bits`.
    pub fn insert_bits(&mut self, sub_bits: &KnownBits, bit_position: u32)
        ensures
            final(self)@ == (
                seq_insert(old(self)@.0, sub_bits@.0, bit_position as nat),
                seq_insert(old(self)@.1, sub_bits@.1, bit_position as nat),
            ),
    {
        proof { use_type_invariant(&*self); use_type_invariant(sub_bits); }
        let mut zero = self.zero.duplicate();
        let mut one = self.one.duplicate();
        zero.insert_bits(&sub_bits.zero, bit_position);
        one.insert_bits(&sub_bits.one, bit_position);
        *self = KnownBits::from_parts(zero, one);
    }

    /// Facts of `num_bits` bits starting at `bit_position`.
    pub fn extract_bits(&self, num_bits: u32, bit_position: u32) -> (r: KnownBits)
        ensures
            r@ == (
                seq_extract(self@.0, num_bits as nat, bit_position as nat),
                seq_extract(self@.1, num_bits as nat, bit_position as nat),
            ),
    {
        KnownBits::from_parts(
            self.zero.extract_bits(num_bits, bit_position),
            self.one.extract_bits(num_bits, bit_position),
        )
    }

    /// Facts of `self` placed above the facts of `lo`.
    pub fn concat(&self, lo: &KnownBits) -> (r: KnownBits)
        requires
            self@.0.len() + lo@.0.len() <= u32::MAX,
        ensures
            r@ == (lo@.0 + self@.0, lo@.1 + self@.1),
    {
        proof { use_type_invariant(self); use_type_invariant(lo); }
        KnownBits::from_parts(self.zero.concat(&lo.zero), self.one.concat(&lo.one))
    }

    /// Facts after sign-extending the low `src_bit_width` bits in place.
    pub fn sext_in_reg(&self, src_bit_width: u32) -> (r: KnownBits)
        ensures
            r@ == (if src_bit_width == 0 || src_bit_width > self@.0.len() {
                unknown_model(self@.0.len())
            } else if src_bit_width == self@.0.len() {
                self@
            } else {
                let ext = (self@.0.len() - src_bit_width) as nat;
                (seq_ashr(seq_shl(self@.0, ext), ext), seq_ashr(seq_shl(self@.1, ext), ext))
            }),
    {
        proof { use_type_invariant(self); }
        let bit_width = self.bit_width();
        if src_bit_width == 0 || src_bit_width > bit_width {
            return KnownBits::unknown(bit_width);
        }
        if src_bit_width == bit_width {
            return self.duplicate();
        }
        let ext_bits = bit_width - src_bit_width;
        KnownBits::from_parts(
            self.zero.shl(ext_bits).ashr(ext_bits),
            self.one.shl(ext_bits).ashr(ext_bits),
        )
    }

    /// Facts refined by knowing the value is at least `value` (unsigned).
    pub fn make_ge(&self, value: &ApInt) -> (r: KnownBits)
        ensures
            r@ == make_ge_model(self@, value@),
    {
        proof { use_type_invariant(self); }
        let bit_width = self.bit_width();
        if value.bit_width() != bit_width {
            return KnownBits::unknown(bit_width);
        }
        let leading_le = self.zero.bitor(value).count_leading_ones();
        let lo = if bit_width > leading_le { bit_width - leading_le } else { 0 };
        let high_mask = ApInt::bits_set(bit_width, lo, bit_width);
        KnownBits::from_parts(self.zero.duplicate(), self.one.bitor(&value.bitand(&high_mask)))
    }

    /// Returns true if a bit is known both zero and one.
    pub fn has_conflict(&self) -> (r: bool)
        ensures
            r == seq_intersects(self@.0, self@.1),
    {
        self.zero.intersects(&self.one)
    }

    /// Returns true if no bits are known.
    pub fn is_unknown(&self) -> (r: bool)
        ensures
            r == (all_false(self@.0) && all_false(self@.1)),
    {
        self.zero.is_zero() && self.one.is_zero()
    }

    /// Returns true if every bit has a known value.
    pub fn is_constant(&self) -> (r: bool)
        ensures
            r == is_constant_model(self@),
    {
        let a = self.zero.popcount();
        let b = self.one.popcount();
        let sum = if a as u64 + b as u64 > u32::MAX as u64 { u32::MAX } else { a + b };
        sum == self.bit_width()
    }

    /// Returns the constant value when every bit is known.
    pub fn constant(&self) -> (r: Option<ApInt>)
        ensures
            is_constant_model(self@) ==> (r matches Some(v) && v@ == self@.1),
            !is_constant_model(self@) ==> r is None,
    {
        if self.is_constant() {
            Some(self.one.duplicate())
        } else {
            None
        }
    }

    /// Returns true if `bit` is known zero.
    pub fn is_known_zero(&self, bit: u32) -> (r: bool)
        ensures
            r == bit_at(self@.0, bit as int),
    {
        bit_is_set(&self.zero, bit)
    }

    /// Returns true if `bit` is known one.
    pub fn is_known_one(&self, bit: u32) -> (r: bool)
        ensures
            r == bit_at(self@.1, bit as int),
    {
        bit_is_set(&self.one, bit)
    }

    /// Returns true if all bits are known zero.
    pub fn is_zero(&self) -> (r: bool)
        ensures
            r == all_true(self@.0),
    {
        self.zero.is_all_ones()
    }

    /// Returns true if all bits are known one.
    pub fn is_all_ones(&self) -> (r: bool)
        ensures
            r == all_true(self@.1),
    {
        self.one.is_all_ones()
    }

    /// Returns true if the sign bit is known one.
    pub fn is_negative(&self) -> (r: bool)
        ensures
            r == negative_model(self@),
    {
        self.bit_width() != 0 && self.is_known_one(self.bit_width() - 1)
    }

    /// Returns true if the sign bit is known zero.
    pub fn is_non_negative(&self) -> (r: bool)
        ensures
            r == non_negative_model(self@),
    {
        self.bit_width() != 0 && self.is_known_zero(self.bit_width() - 1)
    }

    /// Returns true if at least one bit is known one.
    pub fn is_non_zero(&self) -> (r: bool)
        ensures
            r == !all_false(self@.1),
    {
        !self.one.is_zero()
    }

    /// Returns true if the value is known positive in signed interpretation.
    pub fn is_strictly_positive(&self) -> (r: bool)
        ensures
            r == (non_negative_model(self@) && !all_false(self@.1)),
    {
        self.is_non_negative() && !self.one.is_zero()
    }

    /// Returns true if the value is known non-positive in signed interpretation.
    pub fn is_non_positive(&self) -> (r: bool)
        ensures
            r == (int_of(signed_max_model(self@)) <= 0),
    {
        self.signed_max_value().is_non_positive()
    }

    /// Minimal unsigned value possible.
    pub fn min_value(&self) -> (r: ApInt)
        ensures
            r@ == self@.1,
    {
        self.one.duplicate()
    }

    /// Maximal unsigned value possible.
    pub fn max_value(&self) -> (r: ApInt)
        ensures
            r@ == seq_not(self@.0),
    {
        self.zero.not()
    }

    /// Minimal signed value possible.
    pub fn signed_min_value(&self) -> (r: ApInt)
        ensures
            r@ == signed_min_model(self@),
    {
        proof { use_type_invariant(self); }
        let width = self.bit_width();
        if width == 0 {
            return ApInt::zero(0);
        }
        let sign = ApInt::one_bit_set(width, width - 1);
        if self.zero.intersects(&sign) {
            self.one.duplicate()
        } else {
            self.one.bitor(&sign)
        }
    }

    /// Maximal signed value possible.
    pub fn signed_max_value(&self) -> (r: ApInt)
        ensures
            r@ == signed_max_model(self@),
    {
        proof { use_type_invariant(self); }
        let width = self.bit_width();
        if width == 0 {
            return ApInt::zero(0);
        }
        let max = self.zero.not();
        let sign = ApInt::one_bit_set(width, width - 1);
        if self.one.intersects(&sign) {
            max
        } else {
            max.bitand(&sign.not())
        }
    }

    /// Minimum trailing known-zero bits.
    pub fn count_min_trailing_zeros(&self) -> (r: u32)
        ensures
            r == trailing(self@.0, true),
    {
        self.zero.count_trailing_ones()
    }

    /// Minimum trailing known-one bits.
    pub fn count_min_trailing_ones(&self) -> (r: u32)
        ensures
            r == trailing(self@.1, true),
    {
        self.one.count_trailing_ones()
    }

    /// Minimum leading known-zero bits.
    pub fn count_min_leading_zeros(&self) -> (r: u32)
        ensures
            r == leading(self@.0, true),
    {
        self.zero.count_leading_ones()
    }

    /// Minimum leading known-one bits.
    pub fn count_min_leading_ones(&self) -> (r: u32)
        ensures
            r == leading(self@.1, true),
    {
        self.one.count_leading_ones()
    }

    /// Minimum sign bits known common to every possible value.
    pub fn count_min_sign_bits(&self) -> (r: u32)
        ensures
            r == min_sign_bits_model(self@),
    {
        if self.is_non_negative() {
            self.count_min_leading_zeros()
        } else if self.is_negative() {
            self.count_min_leading_ones()
        } else {
            1
        }
    }

    /// Maximum signed significant bits needed by every possible value.
    pub fn count_max_significant_bits(&self) -> (r: u32)
        ensures
            r == sat_add_u32(sat_sub(self@.0.len() as int, min_sign_bits_model(self@) as int), 1),
    {
        let w = self.bit_width();
        let s = self.count_min_sign_bits();
        let d = if w > s { w - s } else { 0 };
        if d == u32::MAX { u32::MAX } else { d + 1 }
    }

    /// Maximum trailing zeros possible.
    pub fn count_max_trailing_zeros(&self) -> (r: u32)
        ensures
            r == trailing(self@.1, false),
    {
        self.one.count_trailing_zeros()
    }

    /// Maximum trailing ones possible.
    pub fn count_max_trailing_ones(&self) -> (r: u32)
        ensures
            r == trailing(self@.0, false),
    {
        self.zero.count_trailing_zeros()
    }

    /// Maximum leading zeros possible.
    pub fn count_max_leading_zeros(&self) -> (r: u32)
        ensures
            r == leading(self@.1, false),
    {
        self.one.count_leading_zeros()
    }

    /// Maximum leading ones possible.
    pub fn count_max_leading_ones(&self) -> (r: u32)
        ensures
            r == leading(self@.0, false),
    {
        self.zero.count_leading_zeros()
    }

    /// Minimum population count possible.
    pub fn count_min_population(&self) -> (r: u32)
        ensures
            r == popcount(self@.1),
    {
        self.one.popcount()
    }

    /// Maximum population count possible.
    pub fn count_max_population(&self) -> (r: u32)
        ensures
            r == sat_sub(self@.0.len() as int, popcount(self@.0) as int),
    {
        let w = self.bit_width();
        let p = self.zero.popcount();
        if w > p { w - p } else { 0 }
    }

    /// Maximum active bits needed by every possible unsigned value.
    pub fn count_max_active_bits(&self) -> (r: u32)
        ensures
            r == sat_sub(self@.0.len() as int, leading(self@.0, true) as int),
    {
        let w = self.bit_width();
        let l = self.count_min_leading_zeros();
        if w > l { w - l } else { 0 }
    }

    /// Known bits that are true for both inputs.
    pub fn intersect_with(&self, rhs: &KnownBits) -> (r: KnownBits)
        ensures
            r@ == intersect_model(self@, rhs@),
    {
        proof { use_type_invariant(self); }
        if self.bit_width() != rhs.bit_width() {
            return KnownBits::unknown(self.bit_width());
        }
        KnownBits::from_parts(self.zero.bitand(&rhs.zero), self.one.bitand(&rhs.one))
    }

    /// Known bits that combine independent facts about the same value.
    pub fn union_with(&self, rhs: &KnownBits) -> (r: KnownBits)
        ensures
            r@ == union_model(self@, rhs@),
    {
        proof { use_type_invariant(self); }
        if self.bit_width() != rhs.bit_width() {
            return KnownBits::unknown(self.bit_width());
        }
        KnownBits::from_parts(self.zero.bitor(&rhs.zero), self.one.bitor(&rhs.one))
    }

    /// Marks every bit known zero.
    pub fn set_all_zero(&mut self)
        ensures
            final(self)@ == constant_model(splat(old(self)@.0.len(), false)),
    {
        let w = self.bit_width();
        let zero = ApInt::all_ones(w);
        let one = ApInt::zero(w);
        proof { assert(zero@ =~= seq_not(splat(w as nat, false))); }
        *self = KnownBits::from_parts(zero, one);
    }

    /// Marks every bit as both known zero and known one.
    pub fn set_all_conflict(&mut self)
        ensures
            final(self)@ == (splat(old(self)@.0.len(), true), splat(old(self)@.0.len(), true)),
    {
        let w = self.bit_width();
        *self = KnownBits::from_parts(ApInt::all_ones(w), ApInt::all_ones(w));
    }

    /// Marks bit `bit` known zero.
    pub(crate) fn set_known_zero_bit(&mut self, bit: u32)
        ensures
            final(self)@ == (seq_or(old(self)@.0, range_mask(old(self)@.0.len(), bit as int, bit as int + 1)), old(self)@.1),
    {
        proof { use_type_invariant(&*self); }
        let mut zero = self.zero.duplicate();
        zero.set_bit(bit);
        *self = KnownBits::from_parts(zero, self.one.duplicate());
    }

    /// Marks bit `bit` known one.
    pub(crate) fn set_known_one_bit(&mut self, bit: u32)
        ensures
            final(self)@ == (old(self)@.0, seq_or(old(self)@.1, range_mask(old(self)@.1.len(), bit as int, bit as int + 1))),
    {
        proof { use_type_invariant(&*self); }
        let mut one = self.one.duplicate();
        one.set_bit(bit);
        *self = KnownBits::from_parts(self.zero.duplicate(), one);
    }

    /// Marks the bits from `bit` upward known zero.
    pub(crate) fn set_known_zero_bits_from(&mut self, bit: u32)
        ensures
            final(self)@ == (seq_or(old(self)@.0, range_mask(old(self)@.0.len(), bit as int, old(self)@.0.len() as int)), old(self)@.1),
    {
        proof { use_type_invariant(&*self); }
        let mut zero = self.zero.duplicate();
        zero.set_bits_from(bit);
        *self = KnownBits::from_parts(zero, self.one.duplicate());
    }

    /// Marks the sign bit known one.
    pub fn make_negative(&mut self)
        ensures
            final(self)@ == (old(self)@.0, seq_or(old(self)@.1, range_mask(old(self)@.1.len(), old(self)@.1.len() - 1, old(self)@.1.len() as int))),
    {
        proof { use_type_invariant(&*self); }
        let mut one = self.one.duplicate();
        one.set_sign_bit();
        *self = KnownBits::from_parts(self.zero.duplicate(), one);
    }

    /// Marks the sign bit known zero.
    pub fn make_non_negative(&mut self)
        ensures
            final(self)@ == (seq_or(old(self)@.0, range_mask(old(self)@.0.len(), old(self)@.0.len() - 1, old(self)@.0.len() as int)), old(self)@.1),
    {
        proof { use_type_invariant(&*self); }
        let mut zero = self.zero.duplicate();
        zero.set_sign_bit();
        *self = KnownBits::from_parts(zero, self.one.duplicate());
    }

    /// True when, at every bit, at least one of the two values is known zero.
    pub fn have_no_common_bits_set(lhs: &KnownBits, rhs: &KnownBits) -> (r: bool)
        ensures
            r == (lhs@.0.len() == rhs@.0.len() && all_true(seq_or(lhs@.0, rhs@.0))),
    {
        proof { use_type_invariant(lhs); use_type_invariant(rhs); }
        if lhs.bit_width() != rhs.bit_width() {
            return false;
        }
        lhs.zero.bitor(&rhs.zero).is_all_ones()
    }

    /// Bitwise NOT transfer.
    pub fn not(&self) -> (r: KnownBits)
        ensures
            r@ == (self@.1, self@.0),
    {
        proof { use_type_invariant(self); }
        KnownBits::from_parts(self.one.duplicate(), self.zero.duplicate())
    }

    /// Bitwise AND transfer.
    pub fn bitand(lhs: &KnownBits, rhs: &KnownBits) -> (r: KnownBits)
        ensures
            r@ == (if lhs@.0.len() != rhs@.0.len() {
                unknown_model(lhs@.0.len())
            } else {
                (seq_or(lhs@.0, rhs@.0), seq_and(lhs@.1, rhs@.1))
            }),
    {
        proof { use_type_invariant(lhs); use_type_invariant(rhs); }
        if lhs.bit_width() != rhs.bit_width() {
            return KnownBits::unknown(lhs.bit_width());
        }
        KnownBits::from_parts(lhs.zero.bitor(&rhs.zero), lhs.one.bitand(&rhs.one))
    }

    /// Bitwise OR transfer.
    pub fn bitor(lhs: &KnownBits, rhs: &KnownBits) -> (r: KnownBits)
        ensures
            r@ == (if lhs@.0.len() != rhs@.0.len() {
                unknown_model(lhs@.0.len())
            } else {
                (seq_and(lhs@.0, rhs@.0), seq_or(lhs@.1, rhs@.1))
            }),
    {
        proof { use_type_invariant(lhs); use_type_invariant(rhs); }
        if lhs.bit_width() != rhs.bit_width() {
            return KnownBits::unknown(lhs.bit_width());
        }
        KnownBits::from_parts(lhs.zero.bitand(&rhs.zero), lhs.one.bitor(&rhs.one))
    }

    /// Bitwise XOR transfer.
    pub fn bitxor(lhs: &KnownBits, rhs: &KnownBits) -> (r: KnownBits)
        ensures
            r@ == (if lhs@.0.len() != rhs@.0.len() {
                unknown_model(lhs@.0.len())
            } else {
                (
                    seq_or(seq_and(lhs@.0, rhs@.0), seq_and(lhs@.1, rhs@.1)),
                    seq_or(seq_and(lhs@.0, rhs@.1), seq_and(lhs@.1, rhs@.0)),
                )
            }),
    {
        proof { use_type_invariant(lhs); use_type_invariant(rhs); }
        if lhs.bit_width() != rhs.bit_width() {
            return KnownBits::unknown(lhs.bit_width());
        }
        let zero = lhs.zero.bitand(&rhs.zero).bitor(&lhs.one.bitand(&rhs.one));
        let one = lhs.zero.bitand(&rhs.one).bitor(&lhs.one.bitand(&rhs.zero));
        KnownBits::from_parts(zero, one)
    }
}

/// True when bit `bit` of `value` is set.
fn bit_is_set(value: &ApInt, bit: u32) -> (r: bool)
    ensures
        r == bit_at(value@, bit as int),
{
    proof { use_type_invariant(value); }
    let probe = ApInt::one_bit_set(value.bit_width(), bit);
    let r = value.intersects(&probe);
    proof {
        if bit_at(value@, bit as int) {
            assert(value@[bit as int] && bit_at(probe@, bit as int));
        }
    }
    r
}


/// The value one at width `w`.
pub open spec fn one_at(w: nat) -> Seq<bool> {
    from_nat(w, 1)
}

/// `s` with its top `n` bits set.
pub open spec fn set_high(s: Seq<bool>, n: nat) -> Seq<bool> {
    seq_or(s, range_mask(s.len(), s.len() - n, s.len() as int))
}

/// `s` with its low `n` bits set.
pub open spec fn set_low(s: Seq<bool>, n: nat) -> Seq<bool> {
    seq_or(s, range_mask(s.len(), 0, n as int))
}

/// `s` with bits `lo <= i < hi` set.
pub open spec fn set_range(s: Seq<bool>, lo: int, hi: int) -> Seq<bool> {
    seq_or(s, range_mask(s.len(), lo, hi))
}

/// `s` with its sign bit set.
pub open spec fn set_sign(s: Seq<bool>) -> Seq<bool> {
    seq_or(s, range_mask(s.len(), s.len() - 1, s.len() as int))
}

/// `s` with its sign bit cleared.
pub open spec fn clear_sign(s: Seq<bool>) -> Seq<bool> {
    seq_and(s, seq_not(range_mask(s.len(), s.len() - 1, s.len() as int)))
}

/// Known bits of `lhs + rhs + carry`, where the carry is known zero when
/// `carry_zero` and known one when `carry_one`.
pub open spec fn add_carry_model(l: KnownBitsModel, r: KnownBitsModel, carry_zero: bool, carry_one: bool) -> KnownBitsModel {
    let w = l.0.len();
    if w != r.0.len() {
        unknown_model(w)
    } else {
        let carry_zero_addend = if carry_zero { splat(w, false) } else { one_at(w) };
        let carry_one_addend = if carry_one { one_at(w) } else { splat(w, false) };
        let possible_sum_zero = seq_add(seq_add(seq_not(l.0), seq_not(r.0)), carry_zero_addend);
        let possible_sum_one = seq_add(seq_add(l.1, r.1), carry_one_addend);
        let carry_known_zero = seq_not(seq_xor(seq_xor(possible_sum_zero, l.0), r.0));
        let carry_known_one = seq_xor(seq_xor(possible_sum_one, l.1), r.1);
        let known = seq_and(seq_and(seq_or(l.0, l.1), seq_or(r.0, r.1)), seq_or(carry_known_zero, carry_known_one));
        (seq_and(seq_not(possible_sum_zero), known), seq_and(possible_sum_one, known))
    }
}

/// Number of leading bits equal to `b` below the sign bit of a width-`w` value.
pub open spec fn leading_below_sign(v: Seq<bool>, b: bool) -> nat {
    leading(trunc_or_clear(v, (v.len() - 1) as nat), b)
}

/// Refinement of an add/sub result by the no-unsigned-wrap flag.
pub open spec fn add_sub_nuw_model(k: KnownBitsModel, l: KnownBitsModel, r: KnownBitsModel, add: bool, nsw: bool) -> KnownBitsModel {
    let w = k.0.len();
    if add {
        let min_val = seq_uadd_sat(l.1, r.1);
        let one1 = if nsw && w > 1 {
            let num_bits = leading_below_sign(min_val, true);
            set_range(k.1, w - 1 - num_bits, w - 1)
        } else {
            k.1
        };
        (k.0, set_high(one1, leading(min_val, true)))
    } else {
        let max_val = seq_usub_sat(seq_not(l.0), r.1);
        let zero1 = if nsw && w > 1 {
            let num_bits = leading_below_sign(max_val, false);
            set_range(k.0, w - 1 - num_bits, w - 1)
        } else {
            k.0
        };
        (set_high(zero1, leading(max_val, false)), k.1)
    }
}

/// Refinement of an add/sub result by the no-signed-wrap flag.
pub open spec fn add_sub_nsw_model(k: KnownBitsModel, l: KnownBitsModel, r: KnownBitsModel, add: bool) -> KnownBitsModel {
    let w = k.0.len();
    let min_val = if add {
        seq_sadd_sat(signed_min_model(l), signed_min_model(r))
    } else {
        seq_ssub_sat(signed_min_model(l), signed_max_model(r))
    };
    let max_val = if add {
        seq_sadd_sat(signed_max_model(l), signed_max_model(r))
    } else {
        seq_ssub_sat(signed_max_model(l), signed_min_model(r))
    };
    let min_nonneg = !(min_val.len() > 0 && min_val.last());
    let max_neg = max_val.len() > 0 && max_val.last();
    let k1 = if min_nonneg {
        let one1 = if w > 1 { set_range(k.1, w - 1 - leading_below_sign(min_val, true), w - 1) } else { k.1 };
        (set_sign(k.0), one1)
    } else {
        k
    };
    if max_neg {
        let zero2 = if w > 1 { set_range(k1.0, w - 1 - leading_below_sign(max_val, false), w - 1) } else { k1.0 };
        (zero2, set_sign(k1.1))
    } else {
        k1
    }
}

/// Every bit known zero when the fact is contradictory.
pub open spec fn resolve_conflict(k: KnownBitsModel) -> KnownBitsModel {
    if seq_intersects(k.0, k.1) { constant_model(splat(k.0.len(), false)) } else { k }
}

/// Known bits of `lhs + rhs` (`add`) or `lhs - rhs`, refined by the wrap flags.
pub open spec fn add_sub_model(add: bool, nsw: bool, nuw: bool, l: KnownBitsModel, r: KnownBitsModel) -> KnownBitsModel {
    let w = l.0.len();
    if w != r.0.len() {
        unknown_model(w)
    } else {
        let k0 = if !(all_false(l.0) && all_false(l.1)) && !(all_false(r.0) && all_false(r.1)) {
            if add { add_carry_model(l, r, true, false) } else { add_carry_model(l, (r.1, r.0), false, true) }
        } else {
            unknown_model(w)
        };
        if w == 0 {
            k0
        } else {
            let k1 = if nuw { add_sub_nuw_model(k0, l, r, add, nsw) } else { k0 };
            let k2 = if nsw { add_sub_nsw_model(k1, l, r, add) } else { k1 };
            resolve_conflict(k2)
        }
    }
}

impl KnownBits {
    /// Add transfer.
    pub fn add(lhs: &KnownBits, rhs: &KnownBits) -> (r: KnownBits)
        ensures
            r@ == add_sub_model(true, false, false, lhs@, rhs@),
    {
        KnownBits::add_with_flags(lhs, rhs, false, false)
    }

    /// Known bits of `lhs + rhs + carry` for a one-bit `carry` fact.
    pub fn compute_for_add_carry(lhs: &KnownBits, rhs: &KnownBits, carry: &KnownBits) -> (r: KnownBits)
        ensures
            r@ == (if lhs@.0.len() != rhs@.0.len() || carry@.0.len() != 1 {
                unknown_model(lhs@.0.len())
            } else {
                add_carry_model(lhs@, rhs@, !all_false(carry@.0), !all_false(carry@.1))
            }),
    {
        if lhs.bit_width() != rhs.bit_width() || carry.bit_width() != 1 {
            return KnownBits::unknown(lhs.bit_width());
        }
        compute_for_add_carry_raw(lhs, rhs, carry.zero.bool_value(), carry.one.bool_value())
    }

    /// Add (`add`) or sub transfer with wrap flags.
    pub fn compute_for_add_sub(add: bool, nsw: bool, nuw: bool, lhs: &KnownBits, rhs: &KnownBits) -> (r: KnownBits)
        ensures
            r@ == add_sub_model(add, nsw, nuw, lhs@, rhs@),
    {
        compute_for_add_sub_impl(add, nsw, nuw, lhs, rhs)
    }

    /// Known bits of `lhs - rhs - borrow` for a one-bit `borrow` fact.
    pub fn compute_for_sub_borrow(lhs: &KnownBits, rhs: KnownBits, borrow: &KnownBits) -> (r: KnownBits)
        ensures
            r@ == (if lhs@.0.len() != rhs@.0.len() || borrow@.0.len() != 1 {
                unknown_model(lhs@.0.len())
            } else {
                add_carry_model(lhs@, (rhs@.1, rhs@.0), !all_false(borrow@.1), !all_false(borrow@.0))
            }),
    {
        if lhs.bit_width() != rhs.bit_width() || borrow.bit_width() != 1 {
            return KnownBits::unknown(lhs.bit_width());
        }
        let swapped = rhs.not();
        compute_for_add_carry_raw(lhs, &swapped, borrow.one.bool_value(), borrow.zero.bool_value())
    }

    /// Add transfer with wrap flags.
    pub fn add_with_flags(lhs: &KnownBits, rhs: &KnownBits, nsw: bool, nuw: bool) -> (r: KnownBits)
        ensures
            r@ == add_sub_model(true, nsw, nuw, lhs@, rhs@),
    {
        KnownBits::compute_for_add_sub(true, nsw, nuw, lhs, rhs)
    }

    /// Sub transfer.
    pub fn sub(lhs: &KnownBits, rhs: &KnownBits) -> (r: KnownBits)
        ensures
            r@ == add_sub_model(false, false, false, lhs@, rhs@),
    {
        KnownBits::sub_with_flags(lhs, rhs, false, false)
    }

    /// Sub transfer with wrap flags.
    pub fn sub_with_flags(lhs: &KnownBits, rhs: &KnownBits, nsw: bool, nuw: bool) -> (r: KnownBits)
        ensures
            r@ == add_sub_model(false, nsw, nuw, lhs@, rhs@),
    {
        KnownBits::compute_for_add_sub(false, nsw, nuw, lhs, rhs)
    }
}

/// The value one at `bit_width` bits.
fn ap_one(bit_width: u32) -> (r: ApInt)
    ensures
        r@ == one_at(bit_width as nat),
{
    ApInt::from_u64(bit_width, 1)
}

/// `mask` with bits `lo <= i < hi` set.
fn set_known_range(mask: &mut ApInt, bit_width: u32, lo: u32, hi: u32)
    requires
        old(mask)@.len() == bit_width,
    ensures
        final(mask)@ == set_range(old(mask)@, lo as int, hi as int),
{
    let set = ApInt::bits_set(bit_width, lo, hi);
    *mask = mask.bitor(&set);
}

/// Number of leading bits equal to `b` in the part of `v` below its top bit.
fn leading_below_sign_exec(v: &ApInt, b: bool) -> (r: u32)
    requires
        v@.len() > 0,
    ensures
        r == leading_below_sign(v@, b),
        r <= v@.len() - 1,
{
    let w = v.bit_width();
    let t = match v.trunc(w - 1) {
        Some(t) => t,
        None => ApInt::zero(w - 1),
    };
    proof { crate::bitseq::lemma_leading_props(t@, b); }
    if b { t.count_leading_ones() } else { t.count_leading_zeros() }
}

/// Known bits of `lhs + rhs + carry` from the two carry facts.
fn compute_for_add_carry_raw(lhs: &KnownBits, rhs: &KnownBits, carry_zero: bool, carry_one: bool) -> (r: KnownBits)
    ensures
        r@ == add_carry_model(lhs@, rhs@, carry_zero, carry_one),
{
    proof { use_type_invariant(lhs); use_type_invariant(rhs); }
    let bit_width = lhs.bit_width();
    if bit_width != rhs.bit_width() {
        return KnownBits::unknown(bit_width);
    }
    let carry_zero_addend = if carry_zero { ApInt::zero(bit_width) } else { ap_one(bit_width) };
    let carry_one_addend = if carry_one { ap_one(bit_width) } else { ApInt::zero(bit_width) };
    proof {
        crate::bitseq::lemma_nat_of_from_nat(bit_width as nat, 1);
    }
    let possible_sum_zero = lhs.max_value().wrapping_add(&rhs.max_value()).wrapping_add(&carry_zero_addend);
    let possible_sum_one = lhs.min_value().wrapping_add(&rhs.min_value()).wrapping_add(&carry_one_addend);
    let carry_known_zero = possible_sum_zero.bitxor(&lhs.zero).bitxor(&rhs.zero).not();
    let carry_known_one = possible_sum_one.bitxor(&lhs.one).bitxor(&rhs.one);
    let known = lhs.zero.bitor(&lhs.one).bitand(&rhs.zero.bitor(&rhs.one)).bitand(&carry_known_zero.bitor(&carry_known_one));
    KnownBits::from_parts(possible_sum_zero.not().bitand(&known), possible_sum_one.bitand(&known))
}

/// Add (`add`) or sub transfer with wrap flags.
fn compute_for_add_sub_impl(add: bool, nsw: bool, nuw: bool, lhs: &KnownBits, rhs: &KnownBits) -> (r: KnownBits)
    ensures
        r@ == add_sub_model(add, nsw, nuw, lhs@, rhs@),
{
    proof { use_type_invariant(lhs); use_type_invariant(rhs); }
    let bit_width = lhs.bit_width();
    if bit_width != rhs.bit_width() {
        return KnownBits::unknown(bit_width);
    }
    let mut known_out = KnownBits::unknown(bit_width);
    if !lhs.is_unknown() && !rhs.is_unknown() {
        known_out = if add {
            compute_for_add_carry_raw(lhs, rhs, true, false)
        } else {
            let not_rhs = rhs.not();
            compute_for_add_carry_raw(lhs, &not_rhs, false, true)
        };
    }
    if bit_width == 0 {
        return known_out;
    }
    if nuw {
        known_out = add_sub_refine_nuw(&known_out, lhs, rhs, add, nsw);
    }
    if nsw {
        known_out = add_sub_refine_nsw(&known_out, lhs, rhs, add);
    }
    if known_out.has_conflict() {
        known_out.set_all_zero();
    }
    known_out
}

/// Refinement of an add/sub result by the no-unsigned-wrap flag.
fn add_sub_refine_nuw(known: &KnownBits, lhs: &KnownBits, rhs: &KnownBits, add: bool, nsw: bool) -> (r: KnownBits)
    requires
        known@.0.len() == lhs@.0.len(),
        lhs@.0.len() == rhs@.0.len(),
        lhs@.0.len() > 0,
    ensures
        r@ == add_sub_nuw_model(known@, lhs@, rhs@, add, nsw),
{
    proof { use_type_invariant(known); use_type_invariant(lhs); use_type_invariant(rhs); }
    let bit_width = lhs.bit_width();
    let mut zero = known.zero.duplicate();
    let mut one = known.one.duplicate();
    if add {
        let min_val = lhs.min_value().uadd_sat(&rhs.min_value());
        if nsw && bit_width > 1 {
            let num_bits = leading_below_sign_exec(&min_val, true);
            set_known_range(&mut one, bit_width, bit_width - 1 - num_bits, bit_width - 1);
        }
        one.set_high_bits(min_val.count_leading_ones());
    } else {
        let max_val = lhs.max_value().usub_sat(&rhs.min_value());
        if nsw && bit_width > 1 {
            let num_bits = leading_below_sign_exec(&max_val, false);
            set_known_range(&mut zero, bit_width, bit_width - 1 - num_bits, bit_width - 1);
        }
        zero.set_high_bits(max_val.count_leading_zeros());
    }
    KnownBits::from_parts(zero, one)
}

/// Refinement of an add/sub result by the no-signed-wrap flag.
fn add_sub_refine_nsw(known: &KnownBits, lhs: &KnownBits, rhs: &KnownBits, add: bool) -> (r: KnownBits)
    requires
        known@.0.len() == lhs@.0.len(),
        lhs@.0.len() == rhs@.0.len(),
        lhs@.0.len() > 0,
    ensures
        r@ == add_sub_nsw_model(known@, lhs@, rhs@, add),
{
    proof { use_type_invariant(known); use_type_invariant(lhs); use_type_invariant(rhs); }
    let bit_width = lhs.bit_width();
    let mut zero = known.zero.duplicate();
    let mut one = known.one.duplicate();
    let (min_val, max_val) = if add {
        (
            lhs.signed_min_value().sadd_sat(&rhs.signed_min_value()),
            lhs.signed_max_value().sadd_sat(&rhs.signed_max_value()),
        )
    } else {
        (
            lhs.signed_min_value().ssub_sat(&rhs.signed_max_value()),
            lhs.signed_max_value().ssub_sat(&rhs.signed_min_value()),
        )
    };
    if min_val.is_non_negative() {
        if bit_width > 1 {
            let num_bits = leading_below_sign_exec(&min_val, true);
            set_known_range(&mut one, bit_width, bit_width - 1 - num_bits, bit_width - 1);
        }
        zero.set_sign_bit();
    }
    if max_val.is_negative() {
        if bit_width > 1 {
            let num_bits = leading_below_sign_exec(&max_val, false);
            set_known_range(&mut zero, bit_width, bit_width - 1 - num_bits, bit_width - 1);
        }
        one.set_sign_bit();
    }
    KnownBits::from_parts(zero, one)
}


/// `s` with bits below `count` (capped at the width) cleared.
pub open spec fn clear_low(s: Seq<bool>, count: nat) -> Seq<bool> {
    seq_and(s, range_mask(s.len(), if count < s.len() { count as int } else { s.len() as int }, s.len() as int))
}

/// Overflow status of a saturating add/sub: `(overflow, may clamp low, may clamp high)`.
pub open spec fn sat_overflow_model(add: bool, signed: bool, l: KnownBitsModel, r: KnownBitsModel) -> (Option<bool>, bool, bool) {
    let w = l.0.len();
    if signed {
        let easy = (add && ((negative_model(l) && non_negative_model(r)) || (non_negative_model(l) && negative_model(r))))
            || (!add && ((negative_model(l) && negative_model(r)) || (non_negative_model(l) && non_negative_model(r))));
        let (ov, mn, mp) = if easy {
            (Some(false), true, true)
        } else {
            let ul = (set_sign(l.0), clear_sign(l.1));
            let ur = (set_sign(r.0), clear_sign(r.1));
            let res = add_sub_model(add, false, false, ul, ur);
            if add {
                let (ov1, mn1, mp1) = if negative_model(res) {
                    (if non_negative_model(l) && non_negative_model(r) { Some(true) } else { None::<bool> }, false, true)
                } else if non_negative_model(res) {
                    (if negative_model(l) && negative_model(r) { Some(true) } else { None::<bool> }, true, false)
                } else {
                    (None::<bool>, true, true)
                };
                let mp2 = if negative_model(l) || negative_model(r) { false } else { mp1 };
                let mn2 = if non_negative_model(l) || non_negative_model(r) { false } else { mn1 };
                (ov1, mn2, mp2)
            } else {
                let (ov1, mn1, mp1) = if negative_model(res) {
                    (if negative_model(l) && non_negative_model(r) { Some(true) } else { None::<bool> }, true, false)
                } else if non_negative_model(res) {
                    (if non_negative_model(l) && negative_model(r) { Some(true) } else { None::<bool> }, false, true)
                } else {
                    (None::<bool>, true, true)
                };
                let mp2 = if negative_model(l) || non_negative_model(r) { false } else { mp1 };
                let mn2 = if non_negative_model(l) || negative_model(r) { false } else { mn1 };
                (ov1, mn2, mp2)
            }
        };
        if !mn && !mp { (Some(false), mn, mp) } else { (ov, mn, mp) }
    } else if add {
        let ov = if nat_of(seq_not(l.0)) + nat_of(seq_not(r.0)) < pow2(w) {
            Some(false)
        } else if nat_of(l.1) + nat_of(r.1) >= pow2(w) {
            Some(true)
        } else {
            None::<bool>
        };
        (ov, true, true)
    } else {
        let ov = if !(nat_of(l.1) < nat_of(seq_not(r.0))) {
            Some(false)
        } else if nat_of(seq_not(l.0)) < nat_of(r.1) {
            Some(true)
        } else {
            None::<bool>
        };
        (ov, true, true)
    }
}

/// Known bits of a saturating add/sub.
pub open spec fn sat_add_sub_model(add: bool, signed: bool, l: KnownBitsModel, r: KnownBitsModel) -> KnownBitsModel {
    let w = l.0.len();
    if w != r.0.len() {
        unknown_model(w)
    } else {
        let (ov, mn, mp) = sat_overflow_model(add, signed, l, r);
        let res = add_sub_model(add, signed, !signed, l, r);
        match ov {
            Some(did) => {
                if !did {
                    res
                } else if signed {
                    if negative_model(l) {
                        constant_model(range_mask(w, w - 1, w as int))
                    } else {
                        constant_model(range_mask(w, 0, w - 1))
                    }
                } else if add {
                    constant_model(splat(w, true))
                } else {
                    constant_model(splat(w, false))
                }
            },
            None => {
                if signed {
                    let z = if mp { clear_low(res.0, sat_sub(w as int, 1)) } else { res.0 };
                    let o = if mn { clear_low(res.1, sat_sub(w as int, 1)) } else { res.1 };
                    (z, o)
                } else if add {
                    (splat(w, false), res.1)
                } else {
                    (res.0, splat(w, false))
                }
            },
        }
    }
}

/// `min(a, b)` on naturals.
pub open spec fn min_nat(a: nat, b: nat) -> nat {
    if a < b { a } else { b }
}

/// Known bits of a product (with the extra facts of squaring an
/// undef-free value when `no_undef_self_multiply`).
pub open spec fn mul_model(l: KnownBitsModel, r: KnownBitsModel, no_undef_self_multiply: bool) -> KnownBitsModel {
    let w = l.0.len();
    if w != r.0.len() {
        unknown_model(w)
    } else {
        let overflow = nat_of(seq_not(l.0)) * nat_of(seq_not(r.0)) >= pow2(w);
        let lead_zero = if overflow { 0 } else { leading(seq_mul(seq_not(l.0), seq_not(r.0)), false) };
        let trail_bits_known_lhs = trailing(seq_or(l.0, l.1), true);
        let trail_bits_known_rhs = trailing(seq_or(r.0, r.1), true);
        let trail_zero_lhs = trailing(l.0, true);
        let trail_zero_rhs = trailing(r.0, true);
        let trail_zero = sat_add_u32(trail_zero_lhs, trail_zero_rhs);
        let smallest_operand = min_nat(sat_sub(trail_bits_known_lhs as int, trail_zero_lhs as int),
            sat_sub(trail_bits_known_rhs as int, trail_zero_rhs as int));
        let result_bits_known = min_nat(sat_add_u32(smallest_operand, trail_zero), w);
        let bottom_lhs = seq_and(l.1, range_mask(w, 0, trail_bits_known_lhs as int));
        let bottom_rhs = seq_and(r.1, range_mask(w, 0, trail_bits_known_rhs as int));
        let bottom_known = seq_mul(bottom_lhs, bottom_rhs);
        let low_mask = range_mask(w, 0, result_bits_known as int);
        let zero0 = seq_or(set_high(splat(w, false), lead_zero), seq_and(seq_not(bottom_known), low_mask));
        let one0 = seq_and(bottom_known, low_mask);
        if no_undef_self_multiply {
            let two_tz_plus_one = sat_add_u32(if 2 * trail_zero_lhs > u32::MAX { u32::MAX as nat } else { 2 * trail_zero_lhs }, 1);
            let zero1 = if two_tz_plus_one < w { set_range(zero0, two_tz_plus_one as int, two_tz_plus_one as int + 1) } else { zero0 };
            let zero2 = if trail_zero_lhs < w && bit_at(l.1, trail_zero_lhs as int) && popcount(l.1) == 1 {
                let two_tz_plus_two = sat_add_u32(two_tz_plus_one, 1);
                if two_tz_plus_two < w { set_range(zero1, two_tz_plus_two as int, two_tz_plus_two as int + 1) } else { zero1 }
            } else {
                zero1
            };
            (zero2, one0)
        } else {
            (zero0, one0)
        }
    }
}

/// `2 * w` saturated at `u32::MAX`.
pub open spec fn double_sat(w: nat) -> nat {
    if 2 * w > u32::MAX { u32::MAX as nat } else { 2 * w }
}

impl KnownBits {
    /// Multiply transfer.
    pub fn mul(lhs: &KnownBits, rhs: &KnownBits) -> (r: KnownBits)
        ensures
            r@ == mul_model(lhs@, rhs@, false),
    {
        compute_for_mul(lhs, rhs, false)
    }

    /// Known bits of the high half of the signed double-width product.
    pub fn mulhs(lhs: &KnownBits, rhs: &KnownBits) -> (r: KnownBits)
        ensures
            r@ == (if lhs@.0.len() != rhs@.0.len() {
                unknown_model(lhs@.0.len())
            } else {
                let w = lhs@.0.len();
                let p = mul_model(sext_model(lhs@, double_sat(w)), sext_model(rhs@, double_sat(w)), false);
                (seq_extract(p.0, w, w), seq_extract(p.1, w, w))
            }),
    {
        let bit_width = lhs.bit_width();
        if bit_width != rhs.bit_width() {
            return KnownBits::unknown(bit_width);
        }
        let wide = if bit_width > u32::MAX / 2 { u32::MAX } else { bit_width * 2 };
        compute_for_mul(&lhs.sext(wide), &rhs.sext(wide), false).extract_bits(bit_width, bit_width)
    }

    /// Known bits of the high half of the unsigned double-width product.
    pub fn mulhu(lhs: &KnownBits, rhs: &KnownBits) -> (r: KnownBits)
        ensures
            r@ == (if lhs@.0.len() != rhs@.0.len() {
                unknown_model(lhs@.0.len())
            } else {
                let w = lhs@.0.len();
                let p = mul_model(zext_model(lhs@, double_sat(w)), zext_model(rhs@, double_sat(w)), false);
                (seq_extract(p.0, w, w), seq_extract(p.1, w, w))
            }),
    {
        let bit_width = lhs.bit_width();
        if bit_width != rhs.bit_width() {
            return KnownBits::unknown(bit_width);
        }
        let wide = if bit_width > u32::MAX / 2 { u32::MAX } else { bit_width * 2 };
        compute_for_mul(&lhs.zext(wide), &rhs.zext(wide), false).extract_bits(bit_width, bit_width)
    }

    /// Signed saturating add transfer.
    pub fn sadd_sat(lhs: &KnownBits, rhs: &KnownBits) -> (r: KnownBits)
        ensures
            r@ == sat_add_sub_model(true, true, lhs@, rhs@),
    {
        compute_for_sat_add_sub(true, true, lhs, rhs)
    }

    /// Unsigned saturating add transfer.
    pub fn uadd_sat(lhs: &KnownBits, rhs: &KnownBits) -> (r: KnownBits)
        ensures
            r@ == sat_add_sub_model(true, false, lhs@, rhs@),
    {
        compute_for_sat_add_sub(true, false, lhs, rhs)
    }

    /// Signed saturating sub transfer.
    pub fn ssub_sat(lhs: &KnownBits, rhs: &KnownBits) -> (r: KnownBits)
        ensures
            r@ == sat_add_sub_model(false, true, lhs@, rhs@),
    {
        compute_for_sat_add_sub(false, true, lhs, rhs)
    }

    /// Unsigned saturating sub transfer.
    pub fn usub_sat(lhs: &KnownBits, rhs: &KnownBits) -> (r: KnownBits)
        ensures
            r@ == sat_add_sub_model(false, false, lhs@, rhs@),
    {
        compute_for_sat_add_sub(false, false, lhs, rhs)
    }
}

/// `value` with bits below `count` cleared.
fn clear_low_bits(value: &mut ApInt, count: u32)
    ensures
        final(value)@ == clear_low(old(value)@, count as nat),
{
    let w = value.bit_width();
    let keep = ApInt::bits_set_from(w, if count < w { count } else { w });
    *value = value.bitand(&keep);
}

/// Saturating add (`add`) or sub transfer, signed or unsigned.
fn compute_for_sat_add_sub(add: bool, signed: bool, lhs: &KnownBits, rhs: &KnownBits) -> (r: KnownBits)
    ensures
        r@ == sat_add_sub_model(add, signed, lhs@, rhs@),
{
    proof { use_type_invariant(lhs); use_type_invariant(rhs); }
    let bit_width = lhs.bit_width();
    if bit_width != rhs.bit_width() {
        return KnownBits::unknown(bit_width);
    }
    let mut overflow: Option<bool> = None;
    let mut may_neg_clamp = true;
    let mut may_pos_clamp = true;
    if signed {
        let easy_no_overflow = (add
            && ((lhs.is_negative() && rhs.is_non_negative())
                || (lhs.is_non_negative() && rhs.is_negative())))
            || (!add
                && ((lhs.is_negative() && rhs.is_negative())
                    || (lhs.is_non_negative() && rhs.is_non_negative())));
        if easy_no_overflow {
            overflow = Some(false);
        } else {
            let mut ul_zero = lhs.zero.duplicate();
            let mut ul_one = lhs.one.duplicate();
            let mut ur_zero = rhs.zero.duplicate();
            let mut ur_one = rhs.one.duplicate();
            ul_one.clear_sign_bit();
            ul_zero.set_sign_bit();
            ur_one.clear_sign_bit();
            ur_zero.set_sign_bit();
            let unsigned_lhs = KnownBits::from_parts(ul_zero, ul_one);
            let unsigned_rhs = KnownBits::from_parts(ur_zero, ur_one);
            let res = compute_for_add_sub_impl(add, false, false, &unsigned_lhs, &unsigned_rhs);
            if add {
                if res.is_negative() {
                    may_neg_clamp = false;
                    if lhs.is_non_negative() && rhs.is_non_negative() {
                        overflow = Some(true);
                    }
                } else if res.is_non_negative() {
                    may_pos_clamp = false;
                    if lhs.is_negative() && rhs.is_negative() {
                        overflow = Some(true);
                    }
                }
                if lhs.is_negative() || rhs.is_negative() {
                    may_pos_clamp = false;
                }
                if lhs.is_non_negative() || rhs.is_non_negative() {
                    may_neg_clamp = false;
                }
            } else {
                if res.is_negative() {
                    may_pos_clamp = false;
                    if lhs.is_negative() && rhs.is_non_negative() {
                        overflow = Some(true);
                    }
                } else if res.is_non_negative() {
                    may_neg_clamp = false;
                    if lhs.is_non_negative() && rhs.is_negative() {
                        overflow = Some(true);
                    }
                }
                if lhs.is_negative() || rhs.is_non_negative() {
                    may_pos_clamp = false;
                }
                if lhs.is_non_negative() || rhs.is_negative() {
                    may_neg_clamp = false;
                }
            }
        }
        if !may_neg_clamp && !may_pos_clamp {
            overflow = Some(false);
        }
    } else if add {
        let (_, max_overflow) = lhs.max_value().uadd_ov(&rhs.max_value());
        if !max_overflow {
            overflow = Some(false);
        } else {
            let (_, min_overflow) = lhs.min_value().uadd_ov(&rhs.min_value());
            if min_overflow {
                overflow = Some(true);
            }
        }
    } else {
        let (_, max_underflow) = lhs.min_value().usub_ov(&rhs.max_value());
        if !max_underflow {
            overflow = Some(false);
        } else {
            let (_, min_underflow) = lhs.max_value().usub_ov(&rhs.min_value());
            if min_underflow {
                overflow = Some(true);
            }
        }
    }
    assert((overflow, may_neg_clamp, may_pos_clamp) == sat_overflow_model(add, signed, lhs@, rhs@));
    let res = compute_for_add_sub_impl(add, signed, !signed, lhs, rhs);
    proof { use_type_invariant(&res); }
    match overflow {
        Some(did_overflow) => {
            if !did_overflow {
                return res;
            }
            let clamp = if signed {
                if lhs.is_negative() {
                    ApInt::signed_min_value(bit_width)
                } else {
                    ApInt::signed_max_value(bit_width)
                }
            } else if add {
                ApInt::max_value(bit_width)
            } else {
                ApInt::zero(bit_width)
            };
            KnownBits::from_ap_int(clamp)
        },
        None => {
            let mut zero = res.zero.duplicate();
            let mut one = res.one.duplicate();
            let low = if bit_width > 0 { bit_width - 1 } else { 0 };
            if signed {
                if may_pos_clamp {
                    clear_low_bits(&mut zero, low);
                }
                if may_neg_clamp {
                    clear_low_bits(&mut one, low);
                }
            } else if add {
                zero = ApInt::zero(bit_width);
            } else {
                one = ApInt::zero(bit_width);
            }
            KnownBits::from_parts(zero, one)
        },
    }
}

/// Known bits of a product.
fn compute_for_mul(lhs: &KnownBits, rhs: &KnownBits, no_undef_self_multiply: bool) -> (r: KnownBits)
    ensures
        r@ == mul_model(lhs@, rhs@, no_undef_self_multiply),
{
    proof { use_type_invariant(lhs); use_type_invariant(rhs); }
    let bit_width = lhs.bit_width();
    if bit_width != rhs.bit_width() {
        return KnownBits::unknown(bit_width);
    }
    let (max_product, overflow) = lhs.max_value().umul_ov(&rhs.max_value());
    let lead_zero = if overflow { 0 } else { max_product.count_leading_zeros() };
    let trail_bits_known_lhs = lhs.zero.bitor(&lhs.one).count_trailing_ones();
    let trail_bits_known_rhs = rhs.zero.bitor(&rhs.one).count_trailing_ones();
    let trail_zero_lhs = lhs.count_min_trailing_zeros();
    let trail_zero_rhs = rhs.count_min_trailing_zeros();
    let trail_zero = if trail_zero_lhs as u64 + trail_zero_rhs as u64 > u32::MAX as u64 { u32::MAX } else { trail_zero_lhs + trail_zero_rhs };
    let sl = if trail_bits_known_lhs > trail_zero_lhs { trail_bits_known_lhs - trail_zero_lhs } else { 0 };
    let sr = if trail_bits_known_rhs > trail_zero_rhs { trail_bits_known_rhs - trail_zero_rhs } else { 0 };
    let smallest_operand = if sl < sr { sl } else { sr };
    let sum_known = if smallest_operand as u64 + trail_zero as u64 > u32::MAX as u64 { u32::MAX } else { smallest_operand + trail_zero };
    let result_bits_known = if sum_known < bit_width { sum_known } else { bit_width };
    let bottom_lhs = lhs.one.bitand(&ApInt::low_bits_set(bit_width, trail_bits_known_lhs));
    let bottom_rhs = rhs.one.bitand(&ApInt::low_bits_set(bit_width, trail_bits_known_rhs));
    let bottom_known = bottom_lhs.wrapping_mul(&bottom_rhs);
    let low_mask = ApInt::low_bits_set(bit_width, result_bits_known);
    let mut zero = ApInt::zero(bit_width);
    zero.set_high_bits(lead_zero);
    zero = zero.bitor(&bottom_known.not().bitand(&low_mask));
    let one = bottom_known.bitand(&low_mask);
    if no_undef_self_multiply {
        let twice = if trail_zero_lhs > u32::MAX / 2 { u32::MAX } else { trail_zero_lhs * 2 };
        let two_tz_plus_one = if twice == u32::MAX { u32::MAX } else { twice + 1 };
        if two_tz_plus_one < bit_width {
            zero.set_bit(two_tz_plus_one);
        }
        if trail_zero_lhs < bit_width && lhs.one.is_one_bit_set(trail_zero_lhs) {
            let two_tz_plus_two = if two_tz_plus_one == u32::MAX { u32::MAX } else { two_tz_plus_one + 1 };
            if two_tz_plus_two < bit_width {
                zero.set_bit(two_tz_plus_two);
            }
        }
    }
    KnownBits::from_parts(zero, one)
}


/// `v` is a power of two.
pub open spec fn is_pow2_u32(v: u32) -> bool {
    v != 0 && (v & ((v - 1) as u32)) == 0
}

/// Floor of the base-2 logarithm (zero for zero).
pub open spec fn log2_floor_u32(v: u32) -> nat {
    if v == 0 { 0 } else { (31 - u32_leading_zeros(v)) as nat }
}

/// Ceiling of the base-2 logarithm (zero for zero and one).
pub open spec fn log2_ceil_u32(v: u32) -> nat {
    if v <= 1 { 0 } else { log2_floor_u32((v - 1) as u32) + 1 }
}

/// The low 32 bits of `v` as a number.
pub open spec fn low_u32_model(v: Seq<bool>) -> nat {
    let x = nat_of(seq_resize(v, 32));
    if x <= u32::MAX { x } else { 0 }
}

/// Largest shift amount the shift-amount fact allows, bounded by the width.
pub open spec fn max_shift_model(max_value: Seq<bool>, w: nat) -> nat {
    if w == 0 {
        0
    } else if w <= u32::MAX && is_pow2_u32(w as u32) {
        let v = nat_of(seq_extract(max_value, log2_floor_u32(w as u32), 0));
        let v64 = if v <= u64::MAX { v } else { 0 };
        if v64 <= u32::MAX { v64 } else { (w - 1) as nat }
    } else {
        min_nat(nat_of(max_value), (w - 1) as nat)
    }
}

/// The shift-amount fact `r` admits the amount `amount`.
pub open spec fn shift_possible(r: KnownBitsModel, amount: nat) -> bool {
    let zero_mask = low_u32_model(r.0) as u32;
    let one_mask = low_u32_model(r.1) as u32;
    amount <= u32::MAX && (zero_mask & (amount as u32)) == 0 && (one_mask | (amount as u32)) == amount as u32
}

/// Smallest shift amount the fact `r` allows, bounded by the width.
pub open spec fn min_shift_model(r: KnownBitsModel, w: nat, shift_amount_non_zero: bool) -> nat {
    let m = min_nat(nat_of(r.1), w);
    let m1 = if m <= u32::MAX { m } else { w };
    if m1 == 0 && shift_amount_non_zero { 1 } else { m1 }
}

/// Facts of `lhs << s`.
pub open spec fn shl_shifted(l: KnownBitsModel, s: nat, nuw: bool, nsw: bool) -> KnownBitsModel {
    let w = l.0.len();
    let z = if s >= w { splat(w, false) } else { seq_shl(l.0, s) };
    let shifted_out_zero = s >= w || s > leading(l.0, false);
    let o = if s >= w { splat(w, false) } else { seq_shl(l.1, s) };
    let shifted_out_one = s >= w || s > leading(l.1, false);
    let z1 = set_low(z, s);
    if nsw {
        if (nuw && s != 0) || shifted_out_zero {
            (set_sign(z1), o)
        } else if shifted_out_one {
            (z1, set_sign(o))
        } else {
            (z1, o)
        }
    } else {
        (z1, o)
    }
}

/// Facts of `lhs >> s` (logical).
pub open spec fn lshr_shifted(l: KnownBitsModel, s: nat) -> KnownBitsModel {
    (set_high(seq_lshr(l.0, s), s), seq_lshr(l.1, s))
}

/// Facts of `lhs >> s` (arithmetic).
pub open spec fn ashr_shifted(l: KnownBitsModel, s: nat) -> KnownBitsModel {
    (seq_ashr(l.0, s), seq_ashr(l.1, s))
}

/// Which shift transfer a shift loop computes.
pub enum ShiftKind {
    Shl { nuw: bool, nsw: bool },
    Lshr,
    Ashr,
}

/// Facts of `lhs` shifted by `s` for the shift kind.
pub open spec fn shifted_model(kind: ShiftKind, l: KnownBitsModel, s: nat) -> KnownBitsModel {
    match kind {
        ShiftKind::Shl { nuw, nsw } => shl_shifted(l, s, nuw, nsw),
        ShiftKind::Lshr => lshr_shifted(l, s),
        ShiftKind::Ashr => ashr_shifted(l, s),
    }
}

/// Intersection of the facts of every admitted shift amount from `shift`
/// through `max_shift`, starting from `known`; stops early once nothing is
/// known.
pub open spec fn shift_loop(kind: ShiftKind, l: KnownBitsModel, r: KnownBitsModel, shift: nat, max_shift: nat, known: KnownBitsModel) -> KnownBitsModel
    decreases max_shift + 1 - shift,
{
    if shift > max_shift {
        known
    } else {
        let possible = shift_possible(r, shift);
        let k2 = if possible { intersect_model(known, shifted_model(kind, l, shift)) } else { known };
        if possible && all_false(k2.0) && all_false(k2.1) {
            k2
        } else if shift >= u32::MAX {
            k2
        } else {
            shift_loop(kind, l, r, shift + 1, max_shift, k2)
        }
    }
}

/// Known bits of `lhs << rhs`.
pub open spec fn shl_model(l: KnownBitsModel, r: KnownBitsModel, nuw: bool, nsw: bool, nz: bool) -> KnownBitsModel {
    let w = l.0.len();
    if w == 0 {
        unknown_model(0)
    } else {
        let min_shift = min_shift_model(r, w, nz);
        if all_false(l.0) && all_false(l.1) {
            let z = set_low(splat(w, false), min_shift);
            if nuw && nsw && min_shift != 0 { (set_sign(z), splat(w, false)) } else { (z, splat(w, false)) }
        } else {
            let m0 = max_shift_model(seq_not(r.0), w);
            let m1 = if nuw && nsw { min_nat(m0, sat_sub(leading(l.1, false) as int, 1)) } else { m0 };
            let m2 = if nuw { min_nat(m1, leading(l.1, false)) } else { m1 };
            let lz = leading(l.1, false);
            let lo = leading(l.0, false);
            let m3 = if nsw { min_nat(m2, sat_sub((if lz > lo { lz } else { lo }) as int, 1)) } else { m2 };
            if min_shift == 0 && m3 == w - 1 && w <= u32::MAX && is_pow2_u32(w as u32) {
                let z = set_low(splat(w, false), trailing(l.0, true));
                let o = if all_true(l.1) { set_sign(splat(w, false)) } else { splat(w, false) };
                if nsw {
                    let k1 = if non_negative_model(l) { (set_sign(z), o) } else { (z, o) };
                    if negative_model(l) { (k1.0, set_sign(k1.1)) } else { k1 }
                } else {
                    (z, o)
                }
            } else {
                resolve_conflict(shift_loop(ShiftKind::Shl { nuw, nsw }, l, r, min_shift, m3, (splat(w, true), splat(w, true))))
            }
        }
    }
}

/// Known bits of `lhs >> rhs`, logical (`lshr`) or arithmetic.
pub open spec fn shr_model(l: KnownBitsModel, r: KnownBitsModel, logical: bool, nz: bool, exact: bool) -> KnownBitsModel {
    let w = l.0.len();
    if w == 0 {
        unknown_model(0)
    } else {
        let min_shift = min_shift_model(r, w, nz);
        if all_false(l.0) && all_false(l.1) {
            if logical {
                (set_high(splat(w, false), min_shift), splat(w, false))
            } else if min_shift == w {
                constant_model(splat(w, false))
            } else {
                unknown_model(w)
            }
        } else {
            let m0 = max_shift_model(seq_not(r.0), w);
            let first_one = trailing(l.1, false);
            if exact && first_one < min_shift {
                constant_model(splat(w, false))
            } else {
                let m1 = if exact { min_nat(m0, first_one) } else { m0 };
                let kind = if logical { ShiftKind::Lshr } else { ShiftKind::Ashr };
                resolve_conflict(shift_loop(kind, l, r, min_shift, m1, (splat(w, true), splat(w, true))))
            }
        }
    }
}

impl KnownBits {
    /// Shift-left transfer.
    pub fn shl(lhs: &KnownBits, rhs: &KnownBits) -> (r: KnownBits)
        ensures
            r@ == shl_model(lhs@, rhs@, false, false, false),
    {
        KnownBits::shl_with_flags(lhs, rhs, false, false, false)
    }

    /// Shift-left transfer with wrap flags and a known non-zero amount.
    pub fn shl_with_flags(lhs: &KnownBits, rhs: &KnownBits, nuw: bool, nsw: bool, shift_amount_non_zero: bool) -> (r: KnownBits)
        ensures
            r@ == shl_model(lhs@, rhs@, nuw, nsw, shift_amount_non_zero),
    {
        compute_for_shl(lhs, rhs, nuw, nsw, shift_amount_non_zero)
    }

    /// Logical-shift-right transfer.
    pub fn lshr(lhs: &KnownBits, rhs: &KnownBits) -> (r: KnownBits)
        ensures
            r@ == shr_model(lhs@, rhs@, true, false, false),
    {
        KnownBits::lshr_with_flags(lhs, rhs, false, false)
    }

    /// Logical-shift-right transfer with a known non-zero amount or exactness.
    pub fn lshr_with_flags(lhs: &KnownBits, rhs: &KnownBits, shift_amount_non_zero: bool, exact: bool) -> (r: KnownBits)
        ensures
            r@ == shr_model(lhs@, rhs@, true, shift_amount_non_zero, exact),
    {
        compute_for_shr(lhs, rhs, true, shift_amount_non_zero, exact)
    }

    /// Arithmetic-shift-right transfer.
    pub fn ashr(lhs: &KnownBits, rhs: &KnownBits) -> (r: KnownBits)
        ensures
            r@ == shr_model(lhs@, rhs@, false, false, false),
    {
        KnownBits::ashr_with_flags(lhs, rhs, false, false)
    }

    /// Arithmetic-shift-right transfer with a known non-zero amount or exactness.
    pub fn ashr_with_flags(lhs: &KnownBits, rhs: &KnownBits, shift_amount_non_zero: bool, exact: bool) -> (r: KnownBits)
        ensures
            r@ == shr_model(lhs@, rhs@, false, shift_amount_non_zero, exact),
    {
        compute_for_shr(lhs, rhs, false, shift_amount_non_zero, exact)
    }
}

fn is_power_of_two_u32(value: u32) -> (r: bool)
    ensures
        r == is_pow2_u32(value),
{
    value != 0 && (value & (value - 1)) == 0
}

fn log2_floor_u32_exec(value: u32) -> (r: u32)
    ensures
        r == log2_floor_u32(value),
{
    if value == 0 {
        return 0;
    }
    proof { axiom_u32_leading_zeros(value); }
    31 - value.leading_zeros()
}

fn log2_ceil_u32_exec(value: u32) -> (r: u32)
    ensures
        r == log2_ceil_u32(value),
{
    if value <= 1 {
        return 0;
    }
    proof { axiom_u32_leading_zeros((value - 1) as u32); }
    log2_floor_u32_exec(value - 1) + 1
}

fn low_u32(value: &ApInt) -> (r: u32)
    ensures
        r == low_u32_model(value@),
{
    match value.zext_or_trunc(32).try_zext_u64() {
        Some(x) => if x <= u32::MAX as u64 { x as u32 } else { 0 },
        None => 0,
    }
}

fn get_max_shift_amount(max_value: &ApInt, bit_width: u32) -> (r: u32)
    ensures
        r == max_shift_model(max_value@, bit_width as nat),
{
    if bit_width == 0 {
        return 0;
    }
    if is_power_of_two_u32(bit_width) {
        let bits = log2_floor_u32_exec(bit_width);
        let v = match max_value.extract_bits(bits, 0).try_zext_u64() {
            Some(v) => v,
            None => 0,
        };
        return if v <= u32::MAX as u64 { v as u32 } else { bit_width - 1 };
    }
    let v = max_value.limited_value((bit_width - 1) as u64);
    if v <= u32::MAX as u64 { v as u32 } else { bit_width - 1 }
}

fn shift_amount_possible(rhs: &KnownBits, amount: u32) -> (r: bool)
    ensures
        r == shift_possible(rhs@, amount as nat),
{
    let zero_mask = low_u32(&rhs.zero);
    let one_mask = low_u32(&rhs.one);
    (zero_mask & amount) == 0 && (one_mask | amount) == amount
}

fn min_shift_amount(rhs: &KnownBits, bit_width: u32, shift_amount_non_zero: bool) -> (r: u32)
    ensures
        r == min_shift_model(rhs@, bit_width as nat, shift_amount_non_zero),
{
    let m = rhs.min_value().limited_value(bit_width as u64);
    let m1 = if m <= u32::MAX as u64 { m as u32 } else { bit_width };
    if m1 == 0 && shift_amount_non_zero { 1 } else { m1 }
}

/// Facts of `lhs` shifted by `shift` for the shift kind.
fn shifted_exec(kind: &ShiftKind, lhs: &KnownBits, shift: u32) -> (r: KnownBits)
    ensures
        r@ == shifted_model(*kind, lhs@, shift as nat),
{
    proof { use_type_invariant(lhs); }
    match kind {
        ShiftKind::Shl { nuw, nsw } => {
            let (mut zero, shifted_out_zero) = lhs.zero.ushl_ov(shift);
            let (mut one, shifted_out_one) = lhs.one.ushl_ov(shift);
            zero.set_low_bits(shift);
            if *nsw {
                if (*nuw && shift != 0) || shifted_out_zero {
                    zero.set_sign_bit();
                } else if shifted_out_one {
                    one.set_sign_bit();
                }
            }
            KnownBits::from_parts(zero, one)
        },
        ShiftKind::Lshr => {
            let mut zero = lhs.zero.lshr(shift);
            zero.set_high_bits(shift);
            KnownBits::from_parts(zero, lhs.one.lshr(shift))
        },
        ShiftKind::Ashr => {
            KnownBits::from_parts(lhs.zero.ashr(shift), lhs.one.ashr(shift))
        },
    }
}

/// Runs the shift loop from `min_shift` through `max_shift`, starting from
/// the all-conflict fact, and resolves a remaining conflict.
fn run_shift_loop(kind: &ShiftKind, lhs: &KnownBits, rhs: &KnownBits, min_shift: u32, max_shift: u32) -> (r: KnownBits)
    ensures
        r@ == resolve_conflict(shift_loop(*kind, lhs@, rhs@, min_shift as nat, max_shift as nat,
            (splat(lhs@.0.len(), true), splat(lhs@.0.len(), true)))),
{
    let bit_width = lhs.bit_width();
    let mut known = KnownBits::unknown(bit_width);
    known.set_all_conflict();
    let ghost target = shift_loop(*kind, lhs@, rhs@, min_shift as nat, max_shift as nat, known@);
    let mut shift = min_shift;
    loop
        invariant_except_break
            shift_loop(*kind, lhs@, rhs@, shift as nat, max_shift as nat, known@) == target,
        ensures
            known@ == target,
        decreases max_shift as int + 1 - shift as int,
    {
        if shift > max_shift {
            break;
        }
        if shift_amount_possible(rhs, shift) {
            let shifted = shifted_exec(kind, lhs, shift);
            known = known.intersect_with(&shifted);
            if known.is_unknown() {
                break;
            }
        }
        if shift == u32::MAX {
            break;
        }
        shift = shift + 1;
    }
    if known.has_conflict() {
        known.set_all_zero();
    }
    known
}

/// Shift-left transfer.
fn compute_for_shl(lhs: &KnownBits, rhs: &KnownBits, nuw: bool, nsw: bool, shift_amount_non_zero: bool) -> (r: KnownBits)
    ensures
        r@ == shl_model(lhs@, rhs@, nuw, nsw, shift_amount_non_zero),
{
    proof { use_type_invariant(lhs); use_type_invariant(rhs); }
    let bit_width = lhs.bit_width();
    if bit_width == 0 {
        return KnownBits::unknown(0);
    }
    let min_shift = min_shift_amount(rhs, bit_width, shift_amount_non_zero);
    if lhs.is_unknown() {
        let mut zero = ApInt::zero(bit_width);
        zero.set_low_bits(min_shift);
        if nuw && nsw && min_shift != 0 {
            zero.set_sign_bit();
        }
        return KnownBits::from_parts(zero, ApInt::zero(bit_width));
    }
    let mut max_shift = get_max_shift_amount(&rhs.max_value(), bit_width);
    let lz = lhs.count_max_leading_zeros();
    let lo = lhs.count_max_leading_ones();
    if nuw && nsw {
        let c = if lz > 0 { lz - 1 } else { 0 };
        max_shift = if max_shift < c { max_shift } else { c };
    }
    if nuw {
        max_shift = if max_shift < lz { max_shift } else { lz };
    }
    if nsw {
        let m = if lz > lo { lz } else { lo };
        let c = if m > 0 { m - 1 } else { 0 };
        max_shift = if max_shift < c { max_shift } else { c };
    }
    if min_shift == 0 && max_shift == bit_width - 1 && is_power_of_two_u32(bit_width) {
        let mut zero = ApInt::zero(bit_width);
        let mut one = ApInt::zero(bit_width);
        zero.set_low_bits(lhs.count_min_trailing_zeros());
        if lhs.is_all_ones() {
            one.set_sign_bit();
        }
        if nsw {
            if lhs.is_non_negative() {
                zero.set_sign_bit();
            }
            if lhs.is_negative() {
                one.set_sign_bit();
            }
        }
        return KnownBits::from_parts(zero, one);
    }
    run_shift_loop(&ShiftKind::Shl { nuw, nsw }, lhs, rhs, min_shift, max_shift)
}

/// Shift-right transfer, logical (`logical`) or arithmetic.
fn compute_for_shr(lhs: &KnownBits, rhs: &KnownBits, logical: bool, shift_amount_non_zero: bool, exact: bool) -> (r: KnownBits)
    ensures
        r@ == shr_model(lhs@, rhs@, logical, shift_amount_non_zero, exact),
{
    proof { use_type_invariant(lhs); use_type_invariant(rhs); }
    let bit_width = lhs.bit_width();
    if bit_width == 0 {
        return KnownBits::unknown(0);
    }
    let min_shift = min_shift_amount(rhs, bit_width, shift_amount_non_zero);
    if lhs.is_unknown() {
        let mut known = KnownBits::unknown(bit_width);
        if logical {
            let mut zero = ApInt::zero(bit_width);
            zero.set_high_bits(min_shift);
            known = KnownBits::from_parts(zero, ApInt::zero(bit_width));
        } else if min_shift == bit_width {
            known.set_all_zero();
        }
        return known;
    }
    let mut max_shift = get_max_shift_amount(&rhs.max_value(), bit_width);
    if exact {
        let first_one = lhs.count_max_trailing_zeros();
        if first_one < min_shift {
            let mut known = KnownBits::unknown(bit_width);
            known.set_all_zero();
            return known;
        }
        max_shift = if max_shift < first_one { max_shift } else { first_one };
    }
    let kind = if logical { ShiftKind::Lshr } else { ShiftKind::Ashr };
    run_shift_loop(&kind, lhs, rhs, min_shift, max_shift)
}


/// Two's complement negation at the width of `a`.
pub open spec fn seq_neg(a: Seq<bool>) -> Seq<bool> {
    seq_sub(splat(a.len(), false), a)
}

/// Signed division result when it is defined (`checked_sdiv`).
pub open spec fn sdiv_opt(a: Seq<bool>, b: Seq<bool>) -> Option<Seq<bool>> {
    if nat_of(b) == 0 || (a.len() > 0 && a == range_mask(a.len(), a.len() - 1, a.len() as int) && all_true(b)) {
        None
    } else {
        Some(seq_sdiv(a, b))
    }
}

/// Low-bit facts of an exact division.
pub open spec fn div_low_bit_model(known: KnownBitsModel, l: KnownBitsModel, r: KnownBitsModel, exact: bool) -> KnownBitsModel {
    if !exact {
        known
    } else {
        let w = l.0.len();
        let one1 = if bit_at(l.1, 0) && popcount(l.1) == 1 { set_range(known.1, 0, 1) } else { known.1 };
        let min_tz = trailing(l.0, true) - trailing(r.1, false);
        let max_tz = trailing(l.1, false) - trailing(r.0, true);
        let k2 = if min_tz >= 0 {
            let min: nat = if min_tz <= u32::MAX { min_tz as nat } else { w };
            let z = set_low(known.0, min);
            let o = if min_tz == max_tz && min < w { set_range(one1, min as int, min as int + 1) } else { one1 };
            (z, o)
        } else if max_tz < 0 {
            constant_model(splat(known.0.len(), false))
        } else {
            (known.0, one1)
        };
        resolve_conflict(k2)
    }
}

/// Known bits of an unsigned quotient.
pub open spec fn udiv_model(l: KnownBitsModel, r: KnownBitsModel, exact: bool) -> KnownBitsModel {
    let w = l.0.len();
    if w != r.0.len() {
        unknown_model(w)
    } else if all_true(l.0) || all_true(r.0) {
        constant_model(splat(w, false))
    } else {
        let max_num = seq_not(l.0);
        let max_res = if all_false(r.1) { max_num } else { seq_udiv(max_num, r.1) };
        div_low_bit_model((set_high(splat(w, false), leading(max_res, false)), splat(w, false)), l, r, exact)
    }
}

/// Bound on a signed quotient, when one is known.
pub open spec fn sdiv_bound(l: KnownBitsModel, r: KnownBitsModel, exact: bool) -> Option<Seq<bool>> {
    let w = l.0.len();
    if negative_model(l) && negative_model(r) {
        let denom = signed_max_model(r);
        let num = signed_min_model(l);
        if num.len() > 0 && num == range_mask(w, w - 1, w as int) && all_true(denom) {
            Some(range_mask(w, 0, w - 1))
        } else {
            sdiv_opt(num, denom)
        }
    } else if negative_model(l) && non_negative_model(r) {
        if exact || nat_of(seq_neg(signed_max_model(l))) >= nat_of(signed_max_model(r)) {
            let denom = signed_min_model(r);
            let num = signed_min_model(l);
            if all_false(denom) { Some(num) } else { sdiv_opt(num, denom) }
        } else {
            None
        }
    } else if non_negative_model(l) && !all_false(l.1) && negative_model(r) {
        if exact || nat_of(signed_min_model(l)) >= nat_of(seq_neg(signed_min_model(r))) {
            sdiv_opt(signed_max_model(l), signed_max_model(r))
        } else {
            None
        }
    } else {
        None
    }
}

/// Known bits of a signed quotient.
pub open spec fn sdiv_model(l: KnownBitsModel, r: KnownBitsModel, exact: bool) -> KnownBitsModel {
    let w = l.0.len();
    if non_negative_model(l) && non_negative_model(r) {
        udiv_model(l, r, exact)
    } else if w != r.0.len() {
        unknown_model(w)
    } else if all_true(l.0) || all_true(r.0) {
        constant_model(splat(w, false))
    } else {
        let known = match sdiv_bound(l, r, exact) {
            Some(res) => if !(res.len() > 0 && res.last()) {
                (set_high(splat(w, false), leading(res, false)), splat(w, false))
            } else {
                (splat(w, false), set_high(splat(w, false), leading(res, true)))
            },
            None => unknown_model(w),
        };
        div_low_bit_model(known, l, r, exact)
    }
}

/// Low bits of a remainder by a divisor with known trailing zeros.
pub open spec fn rem_low_bits_model(l: KnownBitsModel, r: KnownBitsModel) -> KnownBitsModel {
    let w = l.0.len();
    if !all_true(r.0) && bit_at(r.0, 0) {
        let mask = range_mask(w, 0, trailing(r.0, true) as int);
        (seq_and(l.0, mask), seq_and(l.1, mask))
    } else {
        unknown_model(w)
    }
}

/// The divisor is a known power of two.
pub open spec fn const_pow2_divisor(r: KnownBitsModel) -> bool {
    is_constant_model(r) && popcount(r.1) == 1
}

/// Known bits of an unsigned remainder.
pub open spec fn urem_model(l: KnownBitsModel, r: KnownBitsModel) -> KnownBitsModel {
    let w = l.0.len();
    if w != r.0.len() {
        unknown_model(w)
    } else {
        let known = rem_low_bits_model(l, r);
        if const_pow2_divisor(r) {
            let high_bits = seq_not(seq_sub(r.1, one_at(w)));
            (seq_or(known.0, high_bits), known.1)
        } else {
            let a = leading(l.0, true);
            let b = leading(r.0, true);
            (set_high(known.0, if a > b { a } else { b }), known.1)
        }
    }
}

/// Known bits of a signed remainder.
pub open spec fn srem_model(l: KnownBitsModel, r: KnownBitsModel) -> KnownBitsModel {
    let w = l.0.len();
    if w != r.0.len() {
        unknown_model(w)
    } else {
        let known = rem_low_bits_model(l, r);
        if const_pow2_divisor(r) {
            let low_bits = seq_sub(r.1, one_at(w));
            let high_bits = seq_not(low_bits);
            let subset = forall|i: int| 0 <= i < low_bits.len() && #[trigger] low_bits[i] ==> bit_at(l.0, i);
            let z = if non_negative_model(l) || subset { seq_or(known.0, high_bits) } else { known.0 };
            let o = if negative_model(l) && seq_intersects(low_bits, l.1) { seq_or(known.1, high_bits) } else { known.1 };
            (z, o)
        } else if negative_model(l) && !all_false(known.1) {
            let a = leading(l.1, true);
            let b = min_sign_bits_model(r);
            (known.0, set_high(known.1, if a > b { a } else { b }))
        } else if non_negative_model(l) {
            let a = leading(l.0, true);
            let b = min_sign_bits_model(r);
            (set_high(known.0, if a > b { a } else { b }), known.1)
        } else {
            known
        }
    }
}

impl KnownBits {
    /// Unsigned division transfer.
    pub fn udiv(lhs: &KnownBits, rhs: &KnownBits) -> (r: KnownBits)
        ensures
            r@ == udiv_model(lhs@, rhs@, false),
    {
        KnownBits::udiv_with_exact(lhs, rhs, false)
    }

    /// Unsigned division transfer, exact when `exact`.
    pub fn udiv_with_exact(lhs: &KnownBits, rhs: &KnownBits, exact: bool) -> (r: KnownBits)
        ensures
            r@ == udiv_model(lhs@, rhs@, exact),
    {
        compute_for_udiv(lhs, rhs, exact)
    }

    /// Signed division transfer, exact when `exact`.
    pub fn sdiv_with_exact(lhs: &KnownBits, rhs: &KnownBits, exact: bool) -> (r: KnownBits)
        ensures
            r@ == sdiv_model(lhs@, rhs@, exact),
    {
        compute_for_sdiv(lhs, rhs, exact)
    }

    /// Unsigned remainder transfer.
    pub fn urem(lhs: &KnownBits, rhs: &KnownBits) -> (r: KnownBits)
        ensures
            r@ == urem_model(lhs@, rhs@),
    {
        compute_for_urem(lhs, rhs)
    }

    /// Signed remainder transfer.
    pub fn srem(lhs: &KnownBits, rhs: &KnownBits) -> (r: KnownBits)
        ensures
            r@ == srem_model(lhs@, rhs@),
    {
        compute_for_srem(lhs, rhs)
    }
}

/// Low-bit facts of an exact division.
fn div_compute_low_bit(known: KnownBits, lhs: &KnownBits, rhs: &KnownBits, exact: bool) -> (r: KnownBits)
    requires
        known@.0.len() == lhs@.0.len(),
    ensures
        r@ == div_low_bit_model(known@, lhs@, rhs@, exact),
{
    if !exact {
        return known;
    }
    proof { use_type_invariant(&known); use_type_invariant(lhs); }
    let mut zero = known.zero.duplicate();
    let mut one = known.one.duplicate();
    if lhs.one.is_one_bit_set(0) {
        one.set_bit(0);
    }
    let min_tz = lhs.count_min_trailing_zeros() as i64 - rhs.count_max_trailing_zeros() as i64;
    let max_tz = lhs.count_max_trailing_zeros() as i64 - rhs.count_min_trailing_zeros() as i64;
    let mut result;
    if min_tz >= 0 {
        let min = if min_tz <= u32::MAX as i64 { min_tz as u32 } else { lhs.bit_width() };
        zero.set_low_bits(min);
        if min_tz == max_tz && min < lhs.bit_width() {
            one.set_bit(min);
        }
        result = KnownBits::from_parts(zero, one);
    } else if max_tz < 0 {
        result = KnownBits::from_parts(zero, one);
        result.set_all_zero();
    } else {
        result = KnownBits::from_parts(zero, one);
    }
    if result.has_conflict() {
        result.set_all_zero();
    }
    result
}

/// Unsigned division transfer.
fn compute_for_udiv(lhs: &KnownBits, rhs: &KnownBits, exact: bool) -> (r: KnownBits)
    ensures
        r@ == udiv_model(lhs@, rhs@, exact),
{
    proof { use_type_invariant(lhs); use_type_invariant(rhs); }
    let bit_width = lhs.bit_width();
    let mut known = KnownBits::unknown(bit_width);
    if bit_width != rhs.bit_width() {
        return known;
    }
    if lhs.is_zero() || rhs.is_zero() {
        known.set_all_zero();
        return known;
    }
    let min_denom = rhs.min_value();
    let max_num = lhs.max_value();
    let max_res = if min_denom.is_zero() {
        max_num
    } else {
        match max_num.checked_udiv(&min_denom) {
            Some(q) => q,
            None => ApInt::zero(bit_width),
        }
    };
    proof { crate::bitseq::lemma_nat_of_zero_iff(min_denom@); }
    let mut zero = ApInt::zero(bit_width);
    zero.set_high_bits(max_res.count_leading_zeros());
    div_compute_low_bit(KnownBits::from_parts(zero, ApInt::zero(bit_width)), lhs, rhs, exact)
}

/// Bound on a signed quotient, when one is known.
fn sdiv_bound_exec(lhs: &KnownBits, rhs: &KnownBits, exact: bool) -> (r: Option<ApInt>)
    requires
        lhs@.0.len() == rhs@.0.len(),
    ensures
        r matches Some(v) ==> sdiv_bound(lhs@, rhs@, exact) == Some(v@),
        r is None ==> sdiv_bound(lhs@, rhs@, exact) is None,
{
    proof { use_type_invariant(lhs); use_type_invariant(rhs); }
    let bit_width = lhs.bit_width();
    if lhs.is_negative() && rhs.is_negative() {
        let denom = rhs.signed_max_value();
        let num = lhs.signed_min_value();
        if num.bit_width() > 0 && num.is_min_signed_value() && denom.is_all_ones() {
            Some(ApInt::signed_max_value(bit_width))
        } else {
            num.checked_sdiv(&denom)
        }
    } else if lhs.is_negative() && rhs.is_non_negative() {
        if exact || lhs.signed_max_value().negate().uge(&rhs.signed_max_value()) {
            let denom = rhs.signed_min_value();
            let num = lhs.signed_min_value();
            if denom.is_zero() {
                Some(num)
            } else {
                num.checked_sdiv(&denom)
            }
        } else {
            None
        }
    } else if lhs.is_strictly_positive() && rhs.is_negative() {
        if exact || lhs.signed_min_value().uge(&rhs.signed_min_value().negate()) {
            lhs.signed_max_value().checked_sdiv(&rhs.signed_max_value())
        } else {
            None
        }
    } else {
        None
    }
}

/// Signed division transfer.
fn compute_for_sdiv(lhs: &KnownBits, rhs: &KnownBits, exact: bool) -> (r: KnownBits)
    ensures
        r@ == sdiv_model(lhs@, rhs@, exact),
{
    if lhs.is_non_negative() && rhs.is_non_negative() {
        return compute_for_udiv(lhs, rhs, exact);
    }
    let bit_width = lhs.bit_width();
    let mut known = KnownBits::unknown(bit_width);
    if bit_width != rhs.bit_width() {
        return known;
    }
    if lhs.is_zero() || rhs.is_zero() {
        known.set_all_zero();
        return known;
    }
    match sdiv_bound_exec(lhs, rhs, exact) {
        Some(result) => {
            proof { use_type_invariant(&result); }
            if result.is_non_negative() {
                let mut zero = ApInt::zero(bit_width);
                zero.set_high_bits(result.count_leading_zeros());
                known = KnownBits::from_parts(zero, ApInt::zero(bit_width));
            } else {
                let mut one = ApInt::zero(bit_width);
                one.set_high_bits(result.count_leading_ones());
                known = KnownBits::from_parts(ApInt::zero(bit_width), one);
            }
        },
        None => {},
    }
    div_compute_low_bit(known, lhs, rhs, exact)
}

/// Low bits of a remainder by a divisor with known trailing zeros.
fn rem_get_low_bits(lhs: &KnownBits, rhs: &KnownBits) -> (r: KnownBits)
    ensures
        r@ == rem_low_bits_model(lhs@, rhs@),
{
    let bit_width = lhs.bit_width();
    if !rhs.is_zero() && rhs.is_known_zero(0) {
        let rhs_zeros = rhs.count_min_trailing_zeros();
        let mask = ApInt::low_bits_set(bit_width, rhs_zeros);
        proof { use_type_invariant(lhs); }
        return KnownBits::from_parts(lhs.zero.bitand(&mask), lhs.one.bitand(&mask));
    }
    KnownBits::unknown(bit_width)
}

/// Unsigned remainder transfer.
fn compute_for_urem(lhs: &KnownBits, rhs: &KnownBits) -> (r: KnownBits)
    ensures
        r@ == urem_model(lhs@, rhs@),
{
    let bit_width = lhs.bit_width();
    if bit_width != rhs.bit_width() {
        return KnownBits::unknown(bit_width);
    }
    let known = rem_get_low_bits(lhs, rhs);
    proof { use_type_invariant(&known); use_type_invariant(rhs); }
    match rhs.constant() {
        Some(rhs_const) => {
            if rhs_const.is_power_of_2() {
                let high_bits = rhs_const.wrapping_sub(&ap_one(bit_width)).not();
                return KnownBits::from_parts(known.zero.bitor(&high_bits), known.one.duplicate());
            }
        },
        None => {},
    }
    let a = lhs.count_min_leading_zeros();
    let b = rhs.count_min_leading_zeros();
    let mut zero = known.zero.duplicate();
    zero.set_high_bits(if a > b { a } else { b });
    KnownBits::from_parts(zero, known.one.duplicate())
}

/// Signed remainder transfer.
fn compute_for_srem(lhs: &KnownBits, rhs: &KnownBits) -> (r: KnownBits)
    ensures
        r@ == srem_model(lhs@, rhs@),
{
    let bit_width = lhs.bit_width();
    if bit_width != rhs.bit_width() {
        return KnownBits::unknown(bit_width);
    }
    let known = rem_get_low_bits(lhs, rhs);
    proof { use_type_invariant(&known); use_type_invariant(rhs); use_type_invariant(lhs); }
    match rhs.constant() {
        Some(rhs_const) => {
            if rhs_const.is_power_of_2() {
                let low_bits = rhs_const.wrapping_sub(&ap_one(bit_width));
                let high_bits = low_bits.not();
                let zero = if lhs.is_non_negative() || low_bits.is_subset_of(&lhs.zero) {
                    known.zero.bitor(&high_bits)
                } else {
                    known.zero.duplicate()
                };
                let one = if lhs.is_negative() && low_bits.intersects(&lhs.one) {
                    known.one.bitor(&high_bits)
                } else {
                    known.one.duplicate()
                };
                return KnownBits::from_parts(zero, one);
            }
        },
        None => {},
    }
    if lhs.is_negative() && known.is_non_zero() {
        let a = lhs.count_min_leading_ones();
        let b = rhs.count_min_sign_bits();
        let mut one = known.one.duplicate();
        one.set_high_bits(if a > b { a } else { b });
        KnownBits::from_parts(known.zero.duplicate(), one)
    } else if lhs.is_non_negative() {
        let a = lhs.count_min_leading_zeros();
        let b = rhs.count_min_sign_bits();
        let mut zero = known.zero.duplicate();
        zero.set_high_bits(if a > b { a } else { b });
        KnownBits::from_parts(zero, known.one.duplicate())
    } else {
        known
    }
}


/// Known bits of the rounded-down (or, with `is_ceil`, rounded-up)
/// unsigned average.
pub open spec fn avg_u_model(l: KnownBitsModel, r: KnownBitsModel, is_ceil: bool) -> KnownBitsModel {
    let w = l.0.len();
    if w != r.0.len() {
        unknown_model(w)
    } else {
        let ww = sat_add_u32(w, 1);
        let s = add_carry_model(zext_model(l, ww), zext_model(r, ww), !is_ceil, is_ceil);
        (seq_extract(s.0, w, 1), seq_extract(s.1, w, 1))
    }
}

/// Known bits of the unsigned maximum.
pub open spec fn umax_model(l: KnownBitsModel, r: KnownBitsModel) -> KnownBitsModel {
    if nat_of(l.1) >= nat_of(seq_not(r.0)) {
        l
    } else if nat_of(r.1) >= nat_of(seq_not(l.0)) {
        r
    } else {
        intersect_model(make_ge_model(l, r.1), make_ge_model(r, l.1))
    }
}

/// `k` with the roles of zero and one exchanged.
pub open spec fn swap_model(k: KnownBitsModel) -> KnownBitsModel {
    (k.1, k.0)
}

/// `k` with zero and one exchanged below the sign bit (the order flip used
/// for the signed minimum).
pub open spec fn smin_flip_model(k: KnownBitsModel) -> KnownBitsModel {
    let w = k.0.len();
    let s = sat_sub(w as int, 1) as int;
    (
        Seq::new(w, |i: int| if i == s { bit_at(k.0, s) } else { k.1[i] }),
        Seq::new(w, |i: int| if i == s { bit_at(k.1, s) } else { k.0[i] }),
    )
}

/// Known bits of the unsigned absolute difference.
pub open spec fn abdu_model(l: KnownBitsModel, r: KnownBitsModel) -> KnownBitsModel {
    if nat_of(l.1) >= nat_of(seq_not(r.0)) {
        add_sub_model(false, false, false, l, r)
    } else if nat_of(r.1) >= nat_of(seq_not(l.0)) {
        add_sub_model(false, false, false, r, l)
    } else {
        intersect_model(add_sub_model(false, false, true, l, r), add_sub_model(false, false, true, r, l))
    }
}

/// Known bits of the signed absolute difference.
pub open spec fn abds_model(l: KnownBitsModel, r: KnownBitsModel) -> KnownBitsModel {
    if int_of(signed_min_model(l)) >= int_of(signed_max_model(r)) {
        add_sub_model(false, false, false, l, r)
    } else if int_of(signed_min_model(r)) >= int_of(signed_max_model(l)) {
        add_sub_model(false, false, false, r, l)
    } else {
        let lf = flip_sign_model(l);
        let rf = flip_sign_model(r);
        intersect_model(add_sub_model(false, false, true, lf, rf), add_sub_model(false, false, true, rf, lf))
    }
}

/// Known result of `lhs == rhs`.
pub open spec fn eq_model(l: KnownBitsModel, r: KnownBitsModel) -> Option<bool> {
    if is_constant_model(l) && is_constant_model(r) {
        Some(l.1 == r.1)
    } else if seq_intersects(l.1, r.0) || seq_intersects(r.1, l.0) {
        Some(false)
    } else {
        None
    }
}

/// Known result of `lhs > rhs` (unsigned).
pub open spec fn ugt_model(l: KnownBitsModel, r: KnownBitsModel) -> Option<bool> {
    if nat_of(seq_not(l.0)) <= nat_of(r.1) {
        Some(false)
    } else if nat_of(l.1) > nat_of(seq_not(r.0)) {
        Some(true)
    } else {
        None
    }
}

/// Known result of `lhs > rhs` (signed).
pub open spec fn sgt_model(l: KnownBitsModel, r: KnownBitsModel) -> Option<bool> {
    if int_of(signed_max_model(l)) <= int_of(signed_min_model(r)) {
        Some(false)
    } else if int_of(signed_min_model(l)) > int_of(signed_max_model(r)) {
        Some(true)
    } else {
        None
    }
}

/// Negation of a known boolean.
pub open spec fn opt_not(b: Option<bool>) -> Option<bool> {
    match b {
        Some(v) => Some(!v),
        None => None,
    }
}

/// Known bits of `|value|` (with `int_min_is_poison`, the smallest value
/// is excluded).
pub open spec fn abs_model(v: KnownBitsModel, int_min_is_poison: bool) -> KnownBitsModel {
    let w = v.0.len();
    if non_negative_model(v) {
        v
    } else if negative_model(v) {
        let tz = trailing(v.0, true);
        let tmp = if int_min_is_poison && sat_add_u32(popcount(v.0), 2) == w {
            (v.0, set_range(v.1, tz as int, tz as int + 1))
        } else {
            v
        };
        let known_abs = add_sub_model(false, int_min_is_poison, false, constant_model(splat(w, false)), tmp);
        if int_min_is_poison && popcount(tmp.1) == 1 && sat_sub(w as int, popcount(tmp.0) as int) != 1 && w != 0 {
            let tmp0 = set_sign(tmp.0);
            (known_abs.0, set_range(known_abs.1, sat_sub(w as int, leading(tmp0, true) as int) as int, w - 1))
        } else {
            known_abs
        }
    } else {
        let max_tz = trailing(v.1, false);
        let min_tz = trailing(v.0, true);
        let z = set_low(splat(w, false), min_tz);
        let o = if max_tz == min_tz && max_tz < w { set_range(splat(w, false), max_tz as int, max_tz as int + 1) } else { splat(w, false) };
        if int_min_is_poison || (!all_false(v.1) && !(w > 0 && v.1 == range_mask(w, w - 1, w as int))) {
            (set_sign(z), clear_sign(o))
        } else {
            (z, o)
        }
    }
}

/// Known bits of the sum of `num_elts` values that each satisfy `v`.
pub open spec fn reduce_add_model(v: KnownBitsModel, num_elts: u32) -> KnownBitsModel {
    let w = v.0.len();
    if num_elts == 0 {
        unknown_model(w)
    } else if is_constant_model(v) {
        constant_model(seq_mul(v.1, from_nat(w, num_elts as nat)))
    } else {
        let lost_bits = log2_ceil_u32(num_elts);
        if non_negative_model(v) {
            (set_high(splat(w, false), sat_sub(leading(v.0, true) as int, lost_bits as int)), splat(w, false))
        } else if negative_model(v) {
            (splat(w, false), set_high(splat(w, false), sat_sub(leading(v.1, true) as int, lost_bits as int)))
        } else {
            unknown_model(w)
        }
    }
}

impl KnownBits {
    /// Signed average rounded down.
    pub fn avg_floor_s(lhs: &KnownBits, rhs: &KnownBits) -> (r: KnownBits)
        ensures
            r@ == flip_sign_model(avg_u_model(flip_sign_model(lhs@), flip_sign_model(rhs@), false)),
    {
        flip_sign_bit(&KnownBits::avg_floor_u(&flip_sign_bit(lhs), &flip_sign_bit(rhs)))
    }

    /// Unsigned average rounded down.
    pub fn avg_floor_u(lhs: &KnownBits, rhs: &KnownBits) -> (r: KnownBits)
        ensures
            r@ == avg_u_model(lhs@, rhs@, false),
    {
        avg_compute_u(lhs, rhs, false)
    }

    /// Signed average rounded up.
    pub fn avg_ceil_s(lhs: &KnownBits, rhs: &KnownBits) -> (r: KnownBits)
        ensures
            r@ == flip_sign_model(avg_u_model(flip_sign_model(lhs@), flip_sign_model(rhs@), true)),
    {
        flip_sign_bit(&KnownBits::avg_ceil_u(&flip_sign_bit(lhs), &flip_sign_bit(rhs)))
    }

    /// Unsigned average rounded up.
    pub fn avg_ceil_u(lhs: &KnownBits, rhs: &KnownBits) -> (r: KnownBits)
        ensures
            r@ == avg_u_model(lhs@, rhs@, true),
    {
        avg_compute_u(lhs, rhs, true)
    }

    /// Unsigned minimum transfer.
    pub fn umin(lhs: &KnownBits, rhs: &KnownBits) -> (r: KnownBits)
        requires
            lhs@.0.len() == rhs@.0.len(),
        ensures
            r@ == swap_model(umax_model(swap_model(lhs@), swap_model(rhs@))),
    {
        proof { use_type_invariant(lhs); use_type_invariant(rhs); }
        KnownBits::umax(&lhs.not(), &rhs.not()).not()
    }

    /// Unsigned maximum transfer.
    pub fn umax(lhs: &KnownBits, rhs: &KnownBits) -> (r: KnownBits)
        requires
            lhs@.0.len() == rhs@.0.len(),
        ensures
            r@ == umax_model(lhs@, rhs@),
    {
        proof { use_type_invariant(lhs); use_type_invariant(rhs); }
        if lhs.min_value().uge(&rhs.max_value()) {
            return lhs.duplicate();
        }
        if rhs.min_value().uge(&lhs.max_value()) {
            return rhs.duplicate();
        }
        lhs.make_ge(&rhs.min_value()).intersect_with(&rhs.make_ge(&lhs.min_value()))
    }

    /// Signed minimum transfer.
    pub fn smin(lhs: &KnownBits, rhs: &KnownBits) -> (r: KnownBits)
        requires
            lhs@.0.len() == rhs@.0.len(),
        ensures
            r@ == smin_flip_model(umax_model(smin_flip_model(lhs@), smin_flip_model(rhs@))),
    {
        let a = smin_flip(lhs);
        let b = smin_flip(rhs);
        smin_flip(&KnownBits::umax(&a, &b))
    }

    /// Signed maximum transfer.
    pub fn smax(lhs: &KnownBits, rhs: &KnownBits) -> (r: KnownBits)
        requires
            lhs@.0.len() == rhs@.0.len(),
        ensures
            r@ == flip_sign_model(umax_model(flip_sign_model(lhs@), flip_sign_model(rhs@))),
    {
        flip_sign_bit(&KnownBits::umax(&flip_sign_bit(lhs), &flip_sign_bit(rhs)))
    }

    /// Unsigned absolute difference transfer.
    pub fn abdu(lhs: &KnownBits, rhs: &KnownBits) -> (r: KnownBits)
        requires
            lhs@.0.len() == rhs@.0.len(),
        ensures
            r@ == abdu_model(lhs@, rhs@),
    {
        proof { use_type_invariant(lhs); use_type_invariant(rhs); }
        if lhs.min_value().uge(&rhs.max_value()) {
            return KnownBits::sub(lhs, rhs);
        }
        if rhs.min_value().uge(&lhs.max_value()) {
            return KnownBits::sub(rhs, lhs);
        }
        KnownBits::sub_with_flags(lhs, rhs, false, true).intersect_with(&KnownBits::sub_with_flags(rhs, lhs, false, true))
    }

    /// Signed absolute difference transfer.
    pub fn abds(lhs: &KnownBits, rhs: &KnownBits) -> (r: KnownBits)
        requires
            lhs@.0.len() == rhs@.0.len(),
        ensures
            r@ == abds_model(lhs@, rhs@),
    {
        proof { use_type_invariant(lhs); use_type_invariant(rhs); }
        if lhs.signed_min_value().sge(&rhs.signed_max_value()) {
            return KnownBits::sub(lhs, rhs);
        }
        if rhs.signed_min_value().sge(&lhs.signed_max_value()) {
            return KnownBits::sub(rhs, lhs);
        }
        let lhs_flipped = flip_sign_bit(lhs);
        let rhs_flipped = flip_sign_bit(rhs);
        KnownBits::sub_with_flags(&lhs_flipped, &rhs_flipped, false, true)
            .intersect_with(&KnownBits::sub_with_flags(&rhs_flipped, &lhs_flipped, false, true))
    }

    /// Known result of `lhs == rhs`, if any.
    pub fn eq(lhs: &KnownBits, rhs: &KnownBits) -> (r: Option<bool>)
        ensures
            r == eq_model(lhs@, rhs@),
    {
        if lhs.is_constant() && rhs.is_constant() {
            return Some(lhs.one.eq_ap_int(&rhs.one));
        }
        if lhs.one.intersects(&rhs.zero) || rhs.one.intersects(&lhs.zero) {
            return Some(false);
        }
        None
    }

    /// Known result of `lhs != rhs`, if any.
    pub fn ne(lhs: &KnownBits, rhs: &KnownBits) -> (r: Option<bool>)
        ensures
            r == opt_not(eq_model(lhs@, rhs@)),
    {
        match KnownBits::eq(lhs, rhs) {
            Some(b) => Some(!b),
            None => None,
        }
    }

    /// Known result of unsigned `lhs > rhs`, if any.
    pub fn ugt(lhs: &KnownBits, rhs: &KnownBits) -> (r: Option<bool>)
        requires
            lhs@.0.len() == rhs@.0.len(),
        ensures
            r == ugt_model(lhs@, rhs@),
    {
        proof { use_type_invariant(lhs); use_type_invariant(rhs); }
        if lhs.max_value().ule(&rhs.min_value()) {
            return Some(false);
        }
        if lhs.min_value().ugt(&rhs.max_value()) {
            return Some(true);
        }
        None
    }

    /// Known result of unsigned `lhs >= rhs`, if any.
    pub fn uge(lhs: &KnownBits, rhs: &KnownBits) -> (r: Option<bool>)
        requires
            lhs@.0.len() == rhs@.0.len(),
        ensures
            r == opt_not(ugt_model(rhs@, lhs@)),
    {
        match KnownBits::ugt(rhs, lhs) {
            Some(b) => Some(!b),
            None => None,
        }
    }

    /// Known result of unsigned `lhs < rhs`, if any.
    pub fn ult(lhs: &KnownBits, rhs: &KnownBits) -> (r: Option<bool>)
        requires
            lhs@.0.len() == rhs@.0.len(),
        ensures
            r == ugt_model(rhs@, lhs@),
    {
        KnownBits::ugt(rhs, lhs)
    }

    /// Known result of unsigned `lhs <= rhs`, if any.
    pub fn ule(lhs: &KnownBits, rhs: &KnownBits) -> (r: Option<bool>)
        requires
            lhs@.0.len() == rhs@.0.len(),
        ensures
            r == opt_not(ugt_model(lhs@, rhs@)),
    {
        KnownBits::uge(rhs, lhs)
    }

    /// Known result of signed `lhs > rhs`, if any.
    pub fn sgt(lhs: &KnownBits, rhs: &KnownBits) -> (r: Option<bool>)
        requires
            lhs@.0.len() == rhs@.0.len(),
        ensures
            r == sgt_model(lhs@, rhs@),
    {
        proof { use_type_invariant(lhs); use_type_invariant(rhs); }
        if lhs.signed_max_value().sle(&rhs.signed_min_value()) {
            return Some(false);
        }
        if lhs.signed_min_value().sgt(&rhs.signed_max_value()) {
            return Some(true);
        }
        None
    }

    /// Known result of signed `lhs >= rhs`, if any.
    pub fn sge(lhs: &KnownBits, rhs: &KnownBits) -> (r: Option<bool>)
        requires
            lhs@.0.len() == rhs@.0.len(),
        ensures
            r == opt_not(sgt_model(rhs@, lhs@)),
    {
        match KnownBits::sgt(rhs, lhs) {
            Some(b) => Some(!b),
            None => None,
        }
    }

    /// Known result of signed `lhs < rhs`, if any.
    pub fn slt(lhs: &KnownBits, rhs: &KnownBits) -> (r: Option<bool>)
        requires
            lhs@.0.len() == rhs@.0.len(),
        ensures
            r == sgt_model(rhs@, lhs@),
    {
        KnownBits::sgt(rhs, lhs)
    }

    /// Known result of signed `lhs <= rhs`, if any.
    pub fn sle(lhs: &KnownBits, rhs: &KnownBits) -> (r: Option<bool>)
        requires
            lhs@.0.len() == rhs@.0.len(),
        ensures
            r == opt_not(sgt_model(lhs@, rhs@)),
    {
        KnownBits::sge(rhs, lhs)
    }

    /// Absolute-value transfer.
    pub fn abs(&self) -> (r: KnownBits)
        ensures
            r@ == abs_model(self@, false),
    {
        self.abs_with_int_min_poison(false)
    }

    /// Absolute-value transfer; the smallest value is poison when
    /// `int_min_is_poison`.
    pub fn abs_with_int_min_poison(&self, int_min_is_poison: bool) -> (r: KnownBits)
        ensures
            r@ == abs_model(self@, int_min_is_poison),
    {
        compute_for_abs(self, int_min_is_poison)
    }

    /// Known bits of the sum of `num_elts` values that each satisfy `self`.
    pub fn reduce_add(&self, num_elts: u32) -> (r: KnownBits)
        ensures
            r@ == reduce_add_model(self@, num_elts),
    {
        compute_for_reduce_add(self, num_elts)
    }

    /// Byte-swap transfer.
    pub fn byte_swap(&self) -> (r: KnownBits)
        ensures
            r@ == (seq_byte_swap(self@.0), seq_byte_swap(self@.1)),
    {
        proof { use_type_invariant(self); }
        KnownBits::from_parts(self.zero.byte_swap(), self.one.byte_swap())
    }

    /// Bit-reverse transfer.
    pub fn reverse_bits(&self) -> (r: KnownBits)
        ensures
            r@ == (seq_reverse(self@.0), seq_reverse(self@.1)),
    {
        proof { use_type_invariant(self); }
        KnownBits::from_parts(self.zero.reverse_bits(), self.one.reverse_bits())
    }

    /// Known bits of `x & -x` (isolate lowest set bit).
    pub fn blsi(&self) -> (r: KnownBits)
        ensures
            r@ == ({
                let w = self@.0.len();
                let max = trailing(self@.1, false);
                let min = trailing(self@.0, true);
                let from = min_nat(sat_add_u32(max, 1), w);
                (
                    seq_or(self@.0, range_mask(w, from as int, w as int)),
                    if max == min && max < w { set_range(splat(w, false), max as int, max as int + 1) } else { splat(w, false) },
                )
            }),
    {
        proof { use_type_invariant(self); }
        let bit_width = self.bit_width();
        let mut zero = self.zero.duplicate();
        let mut one = ApInt::zero(bit_width);
        let max = self.count_max_trailing_zeros();
        let m1 = if max == u32::MAX { u32::MAX } else { max + 1 };
        zero.set_bits_from(if m1 < bit_width { m1 } else { bit_width });
        let min = self.count_min_trailing_zeros();
        if max == min && max < bit_width {
            one.set_bit(max);
        }
        KnownBits::from_parts(zero, one)
    }

    /// Known bits of `x ^ (x - 1)` (mask up to lowest set bit).
    pub fn blsmsk(&self) -> (r: KnownBits)
        ensures
            r@ == ({
                let w = self@.0.len();
                let max = trailing(self@.1, false);
                let min = trailing(self@.0, true);
                (
                    seq_or(splat(w, false), range_mask(w, min_nat(sat_add_u32(max, 1), w) as int, w as int)),
                    set_low(splat(w, false), min_nat(sat_add_u32(min, 1), w)),
                )
            }),
    {
        let bit_width = self.bit_width();
        let mut zero = ApInt::zero(bit_width);
        let mut one = ApInt::zero(bit_width);
        let max = self.count_max_trailing_zeros();
        let m1 = if max == u32::MAX { u32::MAX } else { max + 1 };
        zero.set_bits_from(if m1 < bit_width { m1 } else { bit_width });
        let min = self.count_min_trailing_zeros();
        let n1 = if min == u32::MAX { u32::MAX } else { min + 1 };
        one.set_low_bits(if n1 < bit_width { n1 } else { bit_width });
        KnownBits::from_parts(zero, one)
    }
}

/// Facts with the sign bit's zero and one exchanged.
fn flip_sign_bit(value: &KnownBits) -> (r: KnownBits)
    ensures
        r@ == flip_sign_model(value@),
{
    proof { use_type_invariant(value); }
    let bit_width = value.bit_width();
    if bit_width == 0 {
        return value.duplicate();
    }
    let sign = bit_width - 1;
    let mut zero = value.zero.duplicate();
    let mut one = value.one.duplicate();
    if value.is_known_one(sign) {
        zero.set_bit(sign);
    } else {
        zero.clear_bit(sign);
    }
    if value.is_known_zero(sign) {
        one.set_bit(sign);
    } else {
        one.clear_bit(sign);
    }
    let r = KnownBits::from_parts(zero, one);
    proof {
        assert(r@.0 =~= flip_sign_model(value@).0);
        assert(r@.1 =~= flip_sign_model(value@).1);
    }
    r
}

/// Facts with zero and one exchanged except at the sign bit.
fn smin_flip(value: &KnownBits) -> (r: KnownBits)
    ensures
        r@ == smin_flip_model(value@),
{
    proof { use_type_invariant(value); }
    let bit_width = value.bit_width();
    let sign = if bit_width > 0 { bit_width - 1 } else { 0 };
    let mut zero = value.one.duplicate();
    let mut one = value.zero.duplicate();
    if value.is_known_zero(sign) {
        zero.set_bit(sign);
    } else {
        zero.clear_bit(sign);
    }
    if value.is_known_one(sign) {
        one.set_bit(sign);
    } else {
        one.clear_bit(sign);
    }
    let r = KnownBits::from_parts(zero, one);
    proof {
        assert(r@.0 =~= smin_flip_model(value@).0);
        assert(r@.1 =~= smin_flip_model(value@).1);
    }
    r
}

/// Unsigned average transfer.
fn avg_compute_u(lhs: &KnownBits, rhs: &KnownBits, is_ceil: bool) -> (r: KnownBits)
    ensures
        r@ == avg_u_model(lhs@, rhs@, is_ceil),
{
    let bit_width = lhs.bit_width();
    if bit_width != rhs.bit_width() {
        return KnownBits::unknown(bit_width);
    }
    let ww = if bit_width == u32::MAX { u32::MAX } else { bit_width + 1 };
    let wide_lhs = lhs.zext(ww);
    let wide_rhs = rhs.zext(ww);
    compute_for_add_carry_raw(&wide_lhs, &wide_rhs, !is_ceil, is_ceil).extract_bits(bit_width, 1)
}

/// Absolute-value transfer.
fn compute_for_abs(value: &KnownBits, int_min_is_poison: bool) -> (r: KnownBits)
    ensures
        r@ == abs_model(value@, int_min_is_poison),
{
    proof { use_type_invariant(value); }
    let bit_width = value.bit_width();
    if value.is_non_negative() {
        return value.duplicate();
    }
    if value.is_negative() {
        let mut tmp_one = value.one.duplicate();
        let pc = value.zero.popcount();
        let pc2 = if pc as u64 + 2 > u32::MAX as u64 { u32::MAX } else { pc + 2 };
        if int_min_is_poison && pc2 == bit_width {
            tmp_one.set_bit(value.count_min_trailing_zeros());
        }
        let tmp = KnownBits::from_parts(value.zero.duplicate(), tmp_one);
        let zero_const = KnownBits::make_constant(ApInt::zero(bit_width));
        let known_abs = compute_for_add_sub_impl(false, int_min_is_poison, false, &zero_const, &tmp);
        if int_min_is_poison && tmp.count_min_population() == 1 && tmp.count_max_population() != 1 && bit_width != 0 {
            let mut tmp_zero = tmp.zero.duplicate();
            tmp_zero.set_sign_bit();
            let lz = tmp_zero.count_leading_ones();
            proof { use_type_invariant(&known_abs); }
            let mut one = known_abs.one.duplicate();
            set_known_range(&mut one, bit_width, if bit_width > lz { bit_width - lz } else { 0 }, bit_width - 1);
            return KnownBits::from_parts(known_abs.zero.duplicate(), one);
        }
        known_abs
    } else {
        let max_tz = value.count_max_trailing_zeros();
        let min_tz = value.count_min_trailing_zeros();
        let mut zero = ApInt::zero(bit_width);
        let mut one = ApInt::zero(bit_width);
        zero.set_low_bits(min_tz);
        if max_tz == min_tz && max_tz < bit_width {
            one.set_bit(max_tz);
        }
        if int_min_is_poison || (!value.one.is_zero() && !(bit_width > 0 && value.one.is_min_signed_value())) {
            one.clear_sign_bit();
            zero.set_sign_bit();
        }
        KnownBits::from_parts(zero, one)
    }
}

/// Sum-of-elements transfer.
fn compute_for_reduce_add(value: &KnownBits, num_elts: u32) -> (r: KnownBits)
    ensures
        r@ == reduce_add_model(value@, num_elts),
{
    proof { use_type_invariant(value); }
    let bit_width = value.bit_width();
    if num_elts == 0 {
        return KnownBits::unknown(bit_width);
    }
    match value.constant() {
        Some(constant) => {
            return KnownBits::make_constant(constant.wrapping_mul(&ApInt::from_u64(bit_width, num_elts as u64)));
        },
        None => {},
    }
    let lost_bits = log2_ceil_u32_exec(num_elts);
    if value.is_non_negative() {
        let l = value.count_min_leading_zeros();
        let mut zero = ApInt::zero(bit_width);
        zero.set_high_bits(if l > lost_bits { l - lost_bits } else { 0 });
        KnownBits::from_parts(zero, ApInt::zero(bit_width))
    } else if value.is_negative() {
        let l = value.count_min_leading_ones();
        let mut one = ApInt::zero(bit_width);
        one.set_high_bits(if l > lost_bits { l - lost_bits } else { 0 });
        KnownBits::from_parts(ApInt::zero(bit_width), one)
    } else {
        KnownBits::unknown(bit_width)
    }
}

} // verus!
