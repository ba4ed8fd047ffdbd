//! Floating-point classes and what is known of the class of a value.
//!
//! A class test is a set of the ten IEEE classes, one bit each. A
//! [`KnownFpClass`] holds the classes a value may still belong to and, when
//! it is known, its sign bit.

use vstd::prelude::*;

verus! {

/// Signaling NaN.
pub const FC_SNAN: u32 = 0x1;
/// Quiet NaN.
pub const FC_QNAN: u32 = 0x2;
/// Negative infinity.
pub const FC_NEG_INF: u32 = 0x4;
/// Negative normal number.
pub const FC_NEG_NORMAL: u32 = 0x8;
/// Negative subnormal number.
pub const FC_NEG_SUBNORMAL: u32 = 0x10;
/// Negative zero.
pub const FC_NEG_ZERO: u32 = 0x20;
/// Positive zero.
pub const FC_POS_ZERO: u32 = 0x40;
/// Positive subnormal number.
pub const FC_POS_SUBNORMAL: u32 = 0x80;
/// Positive normal number.
pub const FC_POS_NORMAL: u32 = 0x100;
/// Positive infinity.
pub const FC_POS_INF: u32 = 0x200;
/// Either NaN.
pub const FC_NAN: u32 = 0x3;
/// Either infinity.
pub const FC_INF: u32 = 0x204;
/// Either normal class.
pub const FC_NORMAL: u32 = 0x108;
/// Either subnormal class.
pub const FC_SUBNORMAL: u32 = 0x90;
/// Either zero.
pub const FC_ZERO: u32 = 0x60;
/// Every class with the sign bit set, NaNs aside.
pub const FC_NEGATIVE: u32 = 0x3c;
/// Every class with the sign bit clear, NaNs aside.
pub const FC_POSITIVE: u32 = 0x3c0;
/// Zeros, subnormals and normals.
pub const FC_FINITE: u32 = 0x1f8;
/// Every class.
pub const FC_ALL: u32 = 0x3ff;
/// Negative infinity, normals and subnormals: what compares below zero.
pub const FC_ORDERED_LESS_THAN_ZERO: u32 = 0x1c;
/// Positive infinity, normals and subnormals: what compares above zero.
pub const FC_ORDERED_GREATER_THAN_ZERO: u32 = 0x380;

/// A set of floating-point classes, one bit per class.
#[derive(Debug, Clone, Copy, PartialEq, Eq, Structural)]
pub struct FpClassTest {
    pub bits: u32,
}

impl FpClassTest {
    /// The classes of `bits`, bits past the ten classes dropped.
    pub fn from_bits(bits: u32) -> (r: FpClassTest)
        ensures
            r.bits == bits & FC_ALL,
    {
        FpClassTest { bits: bits & FC_ALL }
    }

    /// The classes in either set.
    pub fn union(self, other: FpClassTest) -> (r: FpClassTest)
        ensures
            r.bits == self.bits | other.bits,
    {
        FpClassTest { bits: self.bits | other.bits }
    }

    /// The classes in both sets.
    pub fn intersection(self, other: FpClassTest) -> (r: FpClassTest)
        ensures
            r.bits == self.bits & other.bits,
    {
        FpClassTest { bits: self.bits & other.bits }
    }

    /// The classes of `self` that are not in `other`.
    pub fn difference(self, other: FpClassTest) -> (r: FpClassTest)
        ensures
            r.bits == self.bits & !other.bits,
    {
        FpClassTest { bits: self.bits & !other.bits }
    }

    /// The classes not in `self`.
    pub fn complement(self) -> (r: FpClassTest)
        ensures
            r.bits == !self.bits & FC_ALL,
    {
        FpClassTest { bits: !self.bits & FC_ALL }
    }

    /// The sets share a class.
    pub fn intersects(self, other: FpClassTest) -> (r: bool)
        ensures
            r == (self.bits & other.bits != 0),
    {
        self.bits & other.bits != 0
    }
}

/// What is known of a value's class: the classes it may belong to, and
/// its sign bit when that is known.
#[derive(Debug, Clone, Copy, PartialEq, Eq, Structural)]
pub struct KnownFpClass {
    pub classes: FpClassTest,
    pub sign_bit: Option<bool>,
}

/// `k` with the classes of `mask` ruled out; once NaN is ruled out, a
/// value that can only be negative (or only positive) has that sign bit.
pub open spec fn known_not_model(k: KnownFpClass, mask: u32) -> KnownFpClass {
    let c = k.classes.bits & !mask;
    let sign = if c & FC_NAN == 0 && k.sign_bit is None {
        if c & FC_NEGATIVE == 0 {
            Some(false)
        } else if c & FC_POSITIVE == 0 {
            Some(true)
        } else {
            None
        }
    } else {
        k.sign_bit
    };
    KnownFpClass { classes: FpClassTest { bits: c }, sign_bit: sign }
}

/// The class of `-x` for `x` in the class `c`.
pub open spec fn negate_classes(c: u32) -> u32 {
    (c & FC_NAN)
        | (if c & FC_NEG_INF != 0 { FC_POS_INF } else { 0 }) | (if c & FC_POS_INF != 0 { FC_NEG_INF } else { 0 })
        | (if c & FC_NEG_NORMAL != 0 { FC_POS_NORMAL } else { 0 }) | (if c & FC_POS_NORMAL != 0 { FC_NEG_NORMAL } else { 0 })
        | (if c & FC_NEG_SUBNORMAL != 0 { FC_POS_SUBNORMAL } else { 0 }) | (if c & FC_POS_SUBNORMAL != 0 { FC_NEG_SUBNORMAL } else { 0 })
        | (if c & FC_NEG_ZERO != 0 { FC_POS_ZERO } else { 0 }) | (if c & FC_POS_ZERO != 0 { FC_NEG_ZERO } else { 0 })
}

/// What is known of `-x` given `k` for `x`.
pub open spec fn negate_model(k: KnownFpClass) -> KnownFpClass {
    KnownFpClass {
        classes: FpClassTest { bits: negate_classes(k.classes.bits) },
        sign_bit: match k.sign_bit { Some(s) => Some(!s), None => None },
    }
}

/// What holds of a value known as `a` or as `b`: either's classes, and a
/// sign bit both agree on.
pub open spec fn union_model(a: KnownFpClass, b: KnownFpClass) -> KnownFpClass {
    KnownFpClass {
        classes: FpClassTest { bits: a.classes.bits | b.classes.bits },
        sign_bit: if a.sign_bit == b.sign_bit { a.sign_bit } else { None },
    }
}

/// How denormal inputs are treated: kept, flushed to a zero of their
/// sign, flushed to positive zero, or decided at run time.
#[derive(Debug, Clone, Copy, PartialEq, Eq, Structural)]
pub enum DenormalModeKind {
    Ieee,
    PreserveSign,
    PositiveZero,
    Dynamic,
}

/// The denormal treatment of results (`output`) and operands (`input`).
#[derive(Debug, Clone, Copy, PartialEq, Eq, Structural)]
pub struct DenormalMode {
    pub output: DenormalModeKind,
    pub input: DenormalModeKind,
}

impl DenormalMode {
    /// Denormals kept everywhere, the default of a function.
    pub fn ieee() -> (r: DenormalMode)
        ensures
            r == (DenormalMode { output: DenormalModeKind::Ieee, input: DenormalModeKind::Ieee }),
    {
        DenormalMode { output: DenormalModeKind::Ieee, input: DenormalModeKind::Ieee }
    }

    /// Denormal treatment decided at run time.
    pub fn dynamic() -> (r: DenormalMode)
        ensures
            r == (DenormalMode { output: DenormalModeKind::Dynamic, input: DenormalModeKind::Dynamic }),
    {
        DenormalMode { output: DenormalModeKind::Dynamic, input: DenormalModeKind::Dynamic }
    }
}

/// Under `mode`, a value known as `k` never reads as positive zero: it is
/// no positive zero, and no subnormal that the input mode may flush to
/// one (keeping a zero's sign flushes only positive subnormals there).
pub open spec fn never_logical_pos_zero(k: KnownFpClass, mode: DenormalMode) -> bool {
    &&& k.classes.bits & FC_POS_ZERO == 0
    &&& (k.classes.bits & FC_SUBNORMAL == 0 || mode.input == DenormalModeKind::Ieee
        || (mode.input == DenormalModeKind::PreserveSign && k.classes.bits & FC_POS_SUBNORMAL == 0))
}

/// Under `mode`, a value known as `k` never reads as negative zero: it is
/// no negative zero, and no negative subnormal that the input mode may
/// flush to one.
pub open spec fn never_logical_neg_zero(k: KnownFpClass, mode: DenormalMode) -> bool {
    &&& k.classes.bits & FC_NEG_ZERO == 0
    &&& (k.classes.bits & FC_NEG_SUBNORMAL == 0 || mode.input == DenormalModeKind::Ieee
        || mode.input == DenormalModeKind::PositiveZero)
}

/// Under `mode`, a value known as `k` never reads as a zero.
pub open spec fn never_logical_zero(k: KnownFpClass, mode: DenormalMode) -> bool {
    &&& k.classes.bits & FC_ZERO == 0
    &&& (k.classes.bits & FC_SUBNORMAL == 0 || mode.input == DenormalModeKind::Ieee)
}

impl KnownFpClass {
    /// Nothing known: every class, sign unknown.
    pub fn unknown() -> (r: KnownFpClass)
        ensures
            r == (KnownFpClass { classes: FpClassTest { bits: FC_ALL }, sign_bit: None }),
    {
        KnownFpClass { classes: FpClassTest { bits: FC_ALL }, sign_bit: None }
    }

    /// A value of one of the classes `classes`, sign unknown.
    pub fn from_classes(classes: FpClassTest) -> (r: KnownFpClass)
        ensures
            r == (KnownFpClass { classes, sign_bit: None }),
    {
        KnownFpClass { classes, sign_bit: None }
    }

    /// The classes the value may belong to.
    pub fn classes(&self) -> (r: FpClassTest)
        ensures
            r == self.classes,
    {
        self.classes
    }

    /// Rules out the classes of `mask`.
    pub fn known_not(&mut self, mask: u32)
        ensures
            *final(self) == known_not_model(*old(self), mask),
    {
        let c = self.classes.bits & !mask;
        self.classes = FpClassTest { bits: c };
        if c & FC_NAN == 0 && self.sign_bit.is_none() {
            if c & FC_NEGATIVE == 0 {
                self.sign_bit = Some(false);
            } else if c & FC_POSITIVE == 0 {
                self.sign_bit = Some(true);
            }
        }
    }

    /// The value is in none of the classes of `mask`.
    pub fn is_known_never(&self, mask: u32) -> (r: bool)
        ensures
            r == (self.classes.bits & mask == 0),
    {
        self.classes.bits & mask == 0
    }

    /// The value is in one of the classes of `mask`.
    pub fn is_known_always(&self, mask: u32) -> (r: bool)
        ensures
            r == (self.classes.bits & !mask == 0),
    {
        self.classes.bits & !mask == 0
    }

    /// The value is no NaN.
    pub fn is_known_never_nan(&self) -> (r: bool)
        ensures
            r == (self.classes.bits & FC_NAN == 0),
    {
        self.is_known_never(FC_NAN)
    }

    /// The value is no infinity.
    pub fn is_known_never_infinity(&self) -> (r: bool)
        ensures
            r == (self.classes.bits & FC_INF == 0),
    {
        self.is_known_never(FC_INF)
    }

    /// The value is finite: no NaN and no infinity.
    pub fn is_known_never_infinity_or_nan(&self) -> (r: bool)
        ensures
            r == (self.classes.bits & (FC_INF | FC_NAN) == 0),
    {
        self.is_known_never(FC_INF | FC_NAN)
    }

    /// The value never compares below zero.
    pub fn cannot_be_ordered_less_than_zero(&self) -> (r: bool)
        ensures
            r == (self.classes.bits & FC_ORDERED_LESS_THAN_ZERO == 0),
    {
        self.is_known_never(FC_ORDERED_LESS_THAN_ZERO)
    }

    /// The value never compares above zero.
    pub fn cannot_be_ordered_greater_than_zero(&self) -> (r: bool)
        ensures
            r == (self.classes.bits & FC_ORDERED_GREATER_THAN_ZERO == 0),
    {
        self.is_known_never(FC_ORDERED_GREATER_THAN_ZERO)
    }

    /// The value is no subnormal.
    pub fn is_known_never_subnormal(&self) -> (r: bool)
        ensures
            r == (self.classes.bits & FC_SUBNORMAL == 0),
    {
        self.is_known_never(FC_SUBNORMAL)
    }

    /// The value is no positive subnormal.
    pub fn is_known_never_positive_subnormal(&self) -> (r: bool)
        ensures
            r == (self.classes.bits & FC_POS_SUBNORMAL == 0),
    {
        self.is_known_never(FC_POS_SUBNORMAL)
    }

    /// Under `mode` the value never reads as positive zero.
    pub fn is_known_never_logical_positive_zero(&self, mode: DenormalMode) -> (r: bool)
        ensures
            r == never_logical_pos_zero(*self, mode),
    {
        self.is_known_never(FC_POS_ZERO) && (self.is_known_never(FC_SUBNORMAL) || mode.input == DenormalModeKind::Ieee
            || (mode.input == DenormalModeKind::PreserveSign && self.is_known_never(FC_POS_SUBNORMAL)))
    }

    /// Under `mode` the value never reads as negative zero.
    pub fn is_known_never_logical_negative_zero(&self, mode: DenormalMode) -> (r: bool)
        ensures
            r == never_logical_neg_zero(*self, mode),
    {
        self.is_known_never(FC_NEG_ZERO) && (self.is_known_never(FC_NEG_SUBNORMAL)
            || mode.input == DenormalModeKind::Ieee || mode.input == DenormalModeKind::PositiveZero)
    }

    /// Under `mode` the value never reads as a zero.
    pub fn is_known_never_logical_zero(&self, mode: DenormalMode) -> (r: bool)
        ensures
            r == never_logical_zero(*self, mode),
    {
        self.is_known_never(FC_ZERO) && (self.is_known_never(FC_SUBNORMAL) || mode.input == DenormalModeKind::Ieee)
    }

    /// What is known of the negated value.
    pub fn negate(&mut self)
        ensures
            *final(self) == negate_model(*old(self)),
    {
        let c = self.classes.bits;
        let n: u32 = (c & FC_NAN)
            | (if c & FC_NEG_INF != 0 { FC_POS_INF } else { 0 }) | (if c & FC_POS_INF != 0 { FC_NEG_INF } else { 0 })
            | (if c & FC_NEG_NORMAL != 0 { FC_POS_NORMAL } else { 0 }) | (if c & FC_POS_NORMAL != 0 { FC_NEG_NORMAL } else { 0 })
            | (if c & FC_NEG_SUBNORMAL != 0 { FC_POS_SUBNORMAL } else { 0 }) | (if c & FC_POS_SUBNORMAL != 0 { FC_NEG_SUBNORMAL } else { 0 })
            | (if c & FC_NEG_ZERO != 0 { FC_POS_ZERO } else { 0 }) | (if c & FC_POS_ZERO != 0 { FC_NEG_ZERO } else { 0 });
        self.classes = FpClassTest { bits: n };
        self.sign_bit = match self.sign_bit {
            Some(s) => Some(!s),
            None => None,
        };
    }

    /// What holds of a value known either as `self` or as `other`.
    pub fn union_with(self, other: KnownFpClass) -> (r: KnownFpClass)
        ensures
            r == union_model(self, other),
    {
        KnownFpClass {
            classes: FpClassTest { bits: self.classes.bits | other.classes.bits },
            sign_bit: if self.sign_bit == other.sign_bit { self.sign_bit } else { None },
        }
    }
}

/// Negating twice gives back what was known.
pub proof fn law_negate_twice(k: KnownFpClass)
    requires
        k.classes.bits <= FC_ALL,
    ensures
        negate_model(negate_model(k)) == k,
{
    let c = k.classes.bits;
    let n = negate_classes(c);
    let n2 = negate_classes(n);
    assert(n2 == c) by (bit_vector)
        requires
            c <= 0x3ffu32,
            n == (c & 3u32)
                | (if c & 4u32 != 0 { 0x200u32 } else { 0u32 }) | (if c & 0x200u32 != 0 { 4u32 } else { 0u32 })
                | (if c & 8u32 != 0 { 0x100u32 } else { 0u32 }) | (if c & 0x100u32 != 0 { 8u32 } else { 0u32 })
                | (if c & 0x10u32 != 0 { 0x80u32 } else { 0u32 }) | (if c & 0x80u32 != 0 { 0x10u32 } else { 0u32 })
                | (if c & 0x20u32 != 0 { 0x40u32 } else { 0u32 }) | (if c & 0x40u32 != 0 { 0x20u32 } else { 0u32 }),
            n2 == (n & 3u32)
                | (if n & 4u32 != 0 { 0x200u32 } else { 0u32 }) | (if n & 0x200u32 != 0 { 4u32 } else { 0u32 })
                | (if n & 8u32 != 0 { 0x100u32 } else { 0u32 }) | (if n & 0x100u32 != 0 { 8u32 } else { 0u32 })
                | (if n & 0x10u32 != 0 { 0x80u32 } else { 0u32 }) | (if n & 0x80u32 != 0 { 0x10u32 } else { 0u32 })
                | (if n & 0x20u32 != 0 { 0x40u32 } else { 0u32 }) | (if n & 0x40u32 != 0 { 0x20u32 } else { 0u32 });
}

} // verus!
