//! The numeric abstraction that the escape kernel is written against.
//!
//! A backend is a triple of types: a [`ManType`] holds one coordinate per
//! lane, a [`ManMask`] one boolean per lane and a [`ManCount`] one counter per
//! lane. Each trait describes its values by a ghost model (a sequence with one
//! entry per lane) and states every operation lane by lane over that model.
//!
//! The ghost functions have default bodies that leave the model unspecified, so
//! that a backend defined elsewhere only has to supply the executable methods;
//! nothing is proved of such a backend. The backend of this crate, arbitrary
//! precision decimals with one lane, defines its model in full.
use crate::decimal::Decimal;
use crate::decimal::DecimalValue;
use vstd::prelude::*;

verus! {

/// One counter per lane.
pub trait ManCount: Sized {
    /// The counters, lane by lane.
    open spec fn counts(&self) -> Seq<u32> {
        arbitrary()
    }

    /// The counter of lane `i`.
    fn lane(&self, i: usize) -> (n: u32)
        requires
            i < self.counts().len(),
        ensures
            n == self.counts()[i as int],
    ;

    /// Lane-wise sum.
    fn plus(&self, other: &Self) -> (r: Self)
        requires
            self.counts().len() == other.counts().len(),
            forall|i: int|
                0 <= i < self.counts().len() ==> self.counts()[i] + other.counts()[i] <= u32::MAX,
        ensures
            r.counts() =~= Seq::new(
                self.counts().len(),
                |i: int| (self.counts()[i] + other.counts()[i]) as u32,
            ),
    ;
}

/// One boolean per lane.
pub trait ManMask: Sized {
    type TypeCount: ManCount;

    /// Number of lanes of every value of this type.
    open spec fn lanes_spec() -> nat {
        arbitrary()
    }

    /// The booleans, lane by lane.
    open spec fn bits(&self) -> Seq<bool> {
        arbitrary()
    }

    /// Whether any lane is set.
    fn check(&self) -> (any: bool)
        ensures
            any == exists|i: int| 0 <= i < self.bits().len() && self.bits()[i],
    ;

    /// A counter holding `value` in every lane.
    fn new_count(value: u32) -> (c: Self::TypeCount)
        ensures
            c.counts() =~= Seq::new(Self::lanes_spec(), |i: int| value),
    ;

    /// A counter holding zero in every lane.
    fn count_zero() -> (c: Self::TypeCount)
        ensures
            c.counts() =~= Seq::new(Self::lanes_spec(), |i: int| 0u32),
    ;

    /// One in the lanes that are set, zero in the others.
    fn to_count(&self) -> (c: Self::TypeCount)
        ensures
            c.counts() =~= Seq::new(
                self.bits().len(),
                |i: int|
                    if self.bits()[i] {
                        1u32
                    } else {
                        0u32
                    },
            ),
    ;

    /// The boolean of lane `i`.
    fn lane(&self, i: usize) -> (b: bool)
        requires
            i < self.bits().len(),
        ensures
            b == self.bits()[i as int],
    ;

    /// The lanes in which two counters agree.
    fn equal(a: &Self::TypeCount, b: &Self::TypeCount) -> (m: Self)
        requires
            a.counts().len() == b.counts().len(),
        ensures
            m.bits() =~= Seq::new(a.counts().len(), |i: int| a.counts()[i] == b.counts()[i]),
    ;
}

/// One number per lane, with the arithmetic of the escape recurrence.
///
/// `Elem` is the ghost model of what a lane holds and the `elem_` functions
/// say what the backend computes on it. Every operation takes the working
/// precision; a backend of fixed precision ignores it.
pub trait ManType: Sized {
    type TypeMask: ManMask;

    type Elem;

    /// Number of lanes of every value of this type.
    open spec fn lanes_spec() -> nat {
        arbitrary()
    }

    /// Whether the value may be handed to the operations of the backend.
    open spec fn valid(&self) -> bool {
        arbitrary()
    }

    /// The numbers, lane by lane.
    open spec fn elems(&self) -> Seq<Self::Elem> {
        arbitrary()
    }

    /// What the backend makes of a decimal.
    open spec fn elem_new(value: DecimalValue, precision: nat) -> Self::Elem {
        arbitrary()
    }

    /// What the backend makes of the lane index `i`.
    open spec fn elem_index(i: nat, precision: nat) -> Self::Elem {
        arbitrary()
    }

    /// The backend's zero.
    open spec fn elem_zero(precision: nat) -> Self::Elem {
        arbitrary()
    }

    /// The backend's sum.
    open spec fn elem_plus(a: Self::Elem, b: Self::Elem, precision: nat) -> Self::Elem {
        arbitrary()
    }

    /// The backend's difference.
    open spec fn elem_minus(a: Self::Elem, b: Self::Elem, precision: nat) -> Self::Elem {
        arbitrary()
    }

    /// The backend's product.
    open spec fn elem_times(a: Self::Elem, b: Self::Elem, precision: nat) -> Self::Elem {
        arbitrary()
    }

    /// The backend's `<`.
    open spec fn elem_lt(a: Self::Elem, b: Self::Elem) -> bool {
        arbitrary()
    }

    /// `value` in every lane.
    fn new(value: &Decimal, precision: u32) -> (r: Self)
        requires
            value.wf(),
        ensures
            r.valid(),
            r.elems() =~= Seq::new(
                Self::lanes_spec(),
                |i: int| Self::elem_new(value@, precision as nat),
            ),
    ;

    /// The lane indices `0, 1, ..` in their lanes.
    fn mask(precision: u32) -> (r: Self)
        ensures
            r.valid(),
            r.elems() =~= Seq::new(
                Self::lanes_spec(),
                |i: int| Self::elem_index(i as nat, precision as nat),
            ),
    ;

    /// Zero in every lane.
    fn zero(precision: u32) -> (r: Self)
        ensures
            r.valid(),
            r.elems() =~= Seq::new(Self::lanes_spec(), |i: int| Self::elem_zero(precision as nat)),
    ;

    /// The lanes in which `self` is below `other`.
    fn check(&self, other: &Self) -> (m: Self::TypeMask)
        requires
            self.valid(),
            other.valid(),
            self.elems().len() == Self::lanes_spec(),
            other.elems().len() == Self::lanes_spec(),
        ensures
            m.bits() =~= Seq::new(
                Self::lanes_spec(),
                |i: int| Self::elem_lt(self.elems()[i], other.elems()[i]),
            ),
    ;

    /// Number of lanes; the mask type has as many.
    fn len() -> (n: usize)
        ensures
            n >= 1,
            n == Self::lanes_spec(),
            n == <Self::TypeMask as ManMask>::lanes_spec(),
    ;

    /// Lane-wise sum.
    fn plus(&self, other: &Self, precision: u32) -> (r: Self)
        requires
            self.valid(),
            other.valid(),
            self.elems().len() == Self::lanes_spec(),
            other.elems().len() == Self::lanes_spec(),
        ensures
            r.valid(),
            r.elems() =~= Seq::new(
                Self::lanes_spec(),
                |i: int| Self::elem_plus(self.elems()[i], other.elems()[i], precision as nat),
            ),
    ;

    /// Lane-wise difference.
    fn minus(&self, other: &Self, precision: u32) -> (r: Self)
        requires
            self.valid(),
            other.valid(),
            self.elems().len() == Self::lanes_spec(),
            other.elems().len() == Self::lanes_spec(),
        ensures
            r.valid(),
            r.elems() =~= Seq::new(
                Self::lanes_spec(),
                |i: int| Self::elem_minus(self.elems()[i], other.elems()[i], precision as nat),
            ),
    ;

    /// Lane-wise product.
    fn times(&self, other: &Self, precision: u32) -> (r: Self)
        requires
            self.valid(),
            other.valid(),
            self.elems().len() == Self::lanes_spec(),
            other.elems().len() == Self::lanes_spec(),
        ensures
            r.valid(),
            r.elems() =~= Seq::new(
                Self::lanes_spec(),
                |i: int| Self::elem_times(self.elems()[i], other.elems()[i], precision as nat),
            ),
    ;
}

impl ManCount for u32 {
    open spec fn counts(&self) -> Seq<u32> {
        seq![*self]
    }

    fn lane(&self, i: usize) -> (n: u32) {
        *self
    }

    fn plus(&self, other: &Self) -> (r: Self) {
        assert(self.counts()[0] + other.counts()[0] <= u32::MAX);
        *self + *other
    }
}

impl ManMask for bool {
    type TypeCount = u32;

    open spec fn lanes_spec() -> nat {
        1
    }

    open spec fn bits(&self) -> Seq<bool> {
        seq![*self]
    }

    fn check(&self) -> (any: bool) {
        assert(self.bits()[0] == *self);
        *self
    }

    fn new_count(value: u32) -> (c: u32) {
        value
    }

    fn count_zero() -> (c: u32) {
        0
    }

    fn to_count(&self) -> (c: u32) {
        if *self {
            1
        } else {
            0
        }
    }

    fn lane(&self, i: usize) -> (b: bool) {
        *self
    }

    fn equal(a: &u32, b: &u32) -> (m: bool) {
        *a == *b
    }
}

/// Arbitrary-precision decimals, one to a value. Every result is cut to the
/// working precision, so no number grows past it.
impl ManType for Decimal {
    type TypeMask = bool;

    type Elem = DecimalValue;

    open spec fn lanes_spec() -> nat {
        1
    }

    open spec fn valid(&self) -> bool {
        Decimal::wf(self)
    }

    open spec fn elems(&self) -> Seq<DecimalValue> {
        seq![self@]
    }

    open spec fn elem_new(value: DecimalValue, precision: nat) -> DecimalValue {
        value.rescaled(precision as int)
    }

    open spec fn elem_index(i: nat, precision: nat) -> DecimalValue {
        (DecimalValue { unscaled: i as int, scale: 0 }).rescaled(precision as int)
    }

    open spec fn elem_zero(precision: nat) -> DecimalValue {
        (DecimalValue { unscaled: 0, scale: 0 }).rescaled(precision as int)
    }

    open spec fn elem_plus(a: DecimalValue, b: DecimalValue, precision: nat) -> DecimalValue {
        a.plus_at(b, precision)
    }

    open spec fn elem_minus(a: DecimalValue, b: DecimalValue, precision: nat) -> DecimalValue {
        a.minus_at(b, precision)
    }

    open spec fn elem_times(a: DecimalValue, b: DecimalValue, precision: nat) -> DecimalValue {
        a.times_at(b, precision)
    }

    open spec fn elem_lt(a: DecimalValue, b: DecimalValue) -> bool {
        a.less_than(b)
    }

    fn new(value: &Decimal, precision: u32) -> (r: Decimal) {
        value.rescale(precision)
    }

    fn mask(precision: u32) -> (r: Decimal) {
        Decimal::from_u32(0).rescale(precision)
    }

    fn zero(precision: u32) -> (r: Decimal) {
        Decimal::from_u32(0).rescale(precision)
    }

    fn check(&self, other: &Decimal) -> (m: bool) {
        self.less_than(other)
    }

    fn len() -> (n: usize) {
        1
    }

    fn plus(&self, other: &Decimal, precision: u32) -> (r: Decimal) {
        self.add_at(other, precision)
    }

    fn minus(&self, other: &Decimal, precision: u32) -> (r: Decimal) {
        self.sub_at(other, precision)
    }

    fn times(&self, other: &Decimal, precision: u32) -> (r: Decimal) {
        self.mul_at(other, precision)
    }
}

} // verus!
