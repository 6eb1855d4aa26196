//! Triples, pairs of triples and pairs of exact decimals.

use crate::decimal::{Decimal, DecimalView};
use vstd::prelude::*;

verus! {

/// The mathematical content of a [`Vector3`].
pub struct Vector3View {
    pub x: DecimalView,
    pub y: DecimalView,
    pub z: DecimalView,
}

impl Vector3View {
    /// The same point with its second and third component exchanged: a model
    /// description counts the axes in another order than the scene does.
    pub open spec fn to_engine_axes(self) -> Vector3View {
        Vector3View { x: self.x, y: self.z, z: self.y }
    }

    /// The difference of two triples, component by component.
    pub open spec fn minus(self, other: Vector3View) -> Vector3View {
        Vector3View {
            x: self.x.minus(other.x),
            y: self.y.minus(other.y),
            z: self.z.minus(other.z),
        }
    }

    /// The point half way between two points.
    pub open spec fn midpoint(self, other: Vector3View) -> Vector3View {
        Vector3View {
            x: self.x.plus(other.x).halved(),
            y: self.y.plus(other.y).halved(),
            z: self.z.plus(other.z).halved(),
        }
    }

    /// The square of the triple's length: the sum of the squares of its
    /// components.
    pub open spec fn length_squared(self) -> DecimalView {
        self.x.times(self.x).plus(self.y.times(self.y)).plus(self.z.times(self.z))
    }

    /// Whether the triple points along the second axis in its positive
    /// direction: the first and third component are zero, the second is
    /// greater than zero.
    pub open spec fn points_up(self) -> bool {
        self.x.is_zero() && self.y.is_positive() && self.z.is_zero()
    }
}

/// Three numbers, in the order in which the document wrote them.
#[derive(Debug, PartialEq, Eq)]
pub struct Vector3 {
    pub x: Decimal,
    pub y: Decimal,
    pub z: Decimal,
}

impl View for Vector3 {
    type V = Vector3View;

    open spec fn view(&self) -> Vector3View {
        Vector3View { x: self.x@, y: self.y@, z: self.z@ }
    }
}

impl Clone for Vector3 {
    fn clone(&self) -> (r: Self)
        ensures
            r@ == self@,
    {
        Vector3 { x: self.x.clone(), y: self.y.clone(), z: self.z.clone() }
    }
}

impl Vector3 {
    /// The same point with its second and third component exchanged.
    pub fn to_engine_axes(&self) -> (r: Vector3)
        ensures
            r@ == self@.to_engine_axes(),
    {
        Vector3 { x: self.x.clone(), y: self.z.clone(), z: self.y.clone() }
    }

    /// The difference of two triples, component by component.
    pub fn minus(&self, other: &Vector3) -> (r: Vector3)
        ensures
            r@ == self@.minus(other@),
    {
        Vector3 {
            x: self.x.minus(&other.x),
            y: self.y.minus(&other.y),
            z: self.z.minus(&other.z),
        }
    }

    /// The point half way between two points.
    pub fn midpoint(&self, other: &Vector3) -> (r: Vector3)
        ensures
            r@ == self@.midpoint(other@),
    {
        Vector3 {
            x: self.x.plus(&other.x).halved(),
            y: self.y.plus(&other.y).halved(),
            z: self.z.plus(&other.z).halved(),
        }
    }

    /// The square of the triple's length.
    pub fn length_squared(&self) -> (r: Decimal)
        ensures
            r@ == self@.length_squared(),
    {
        let xx = self.x.times(&self.x);
        let yy = self.y.times(&self.y);
        let zz = self.z.times(&self.z);
        xx.plus(&yy).plus(&zz)
    }

    /// Whether the triple points along the second axis in its positive
    /// direction.
    pub fn points_up(&self) -> (r: bool)
        ensures
            r == self@.points_up(),
    {
        self.x.is_zero() && self.y.is_positive() && self.z.is_zero()
    }

    /// The point whose three components are zero.
    pub fn origin() -> (r: Vector3)
        ensures
            r@ == origin(),
    {
        Vector3 { x: Decimal::zero(), y: Decimal::zero(), z: Decimal::zero() }
    }
}

/// The point whose three components are zero, each written `0`.
pub open spec fn origin() -> Vector3View {
    let zero = DecimalView { negative: false, digits: seq![0u8], scale: 0 };
    Vector3View { x: zero, y: zero, z: zero }
}

/// The mathematical content of a [`Segment`].
pub struct SegmentView {
    pub from: Vector3View,
    pub to: Vector3View,
}

/// Two end points.
#[derive(Debug, PartialEq, Eq)]
pub struct Segment {
    pub from: Vector3,
    pub to: Vector3,
}

impl View for Segment {
    type V = SegmentView;

    open spec fn view(&self) -> SegmentView {
        SegmentView { from: self.from@, to: self.to@ }
    }
}

impl Clone for Segment {
    fn clone(&self) -> (r: Self)
        ensures
            r@ == self@,
    {
        Segment { from: self.from.clone(), to: self.to.clone() }
    }
}

/// The mathematical content of an [`Interval`].
pub struct IntervalView {
    pub min: DecimalView,
    pub max: DecimalView,
}

/// Two limits, the lower one first.
#[derive(Debug, PartialEq, Eq)]
pub struct Interval {
    pub min: Decimal,
    pub max: Decimal,
}

impl View for Interval {
    type V = IntervalView;

    open spec fn view(&self) -> IntervalView {
        IntervalView { min: self.min@, max: self.max@ }
    }
}

impl Clone for Interval {
    fn clone(&self) -> (r: Self)
        ensures
            r@ == self@,
    {
        Interval { min: self.min.clone(), max: self.max.clone() }
    }
}

} // verus!
