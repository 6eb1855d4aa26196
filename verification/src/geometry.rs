//! What is derived from a declared geometry: its shape, its collision volume,
//! its mass distribution and where it is placed.
//!
//! Lengths are given by their squares and rotations by the direction that
//! they turn to: both are exact, and a root or a quaternion is not.

use crate::decimal::{law_arithmetic_is_exact, Decimal, DecimalView};
use crate::error::{ParseError, ParseErrorView};
use crate::model::{Body, Geom, GeomView};
use crate::mujoco_xml_parser::result_view;
use crate::vector::{origin, SegmentView, Vector3, Vector3View};
use vstd::prelude::*;

verus! {

/// The mathematical content of a [`Shape`].
pub enum ShapeView {
    Sphere { radius: DecimalView },
    Capsule3d { radius: DecimalView, length_squared: DecimalView },
}

/// The shape of a geometry.
#[derive(Debug, PartialEq, Eq)]
pub enum Shape {
    /// A ball.
    Sphere { radius: Decimal },
    /// A cylinder closed by two half balls. The length is that of the
    /// cylinder, given by its square.
    Capsule3d { radius: Decimal, length_squared: Decimal },
}

impl View for Shape {
    type V = ShapeView;

    open spec fn view(&self) -> ShapeView {
        match *self {
            Shape::Sphere { radius } => ShapeView::Sphere { radius: radius@ },
            Shape::Capsule3d { radius, length_squared } => ShapeView::Capsule3d {
                radius: radius@,
                length_squared: length_squared@,
            },
        }
    }
}

impl Clone for Shape {
    fn clone(&self) -> (r: Self)
        ensures
            r@ == self@,
    {
        match self {
            Shape::Sphere { radius } => Shape::Sphere { radius: radius.clone() },
            Shape::Capsule3d { radius, length_squared } => Shape::Capsule3d {
                radius: radius.clone(),
                length_squared: length_squared.clone(),
            },
        }
    }
}

/// The mathematical content of a [`Collider`].
pub enum ColliderView {
    Sphere { radius: DecimalView },
    Capsule { radius: DecimalView, length_squared: DecimalView },
}

/// The volume that stands for a geometry where collisions are found.
#[derive(Debug, PartialEq, Eq)]
pub enum Collider {
    /// A ball.
    Sphere { radius: Decimal },
    /// A capsule. The length is that of its cylinder, given by its square.
    Capsule { radius: Decimal, length_squared: Decimal },
}

impl View for Collider {
    type V = ColliderView;

    open spec fn view(&self) -> ColliderView {
        match *self {
            Collider::Sphere { radius } => ColliderView::Sphere { radius: radius@ },
            Collider::Capsule { radius, length_squared } => ColliderView::Capsule {
                radius: radius@,
                length_squared: length_squared@,
            },
        }
    }
}

impl Clone for Collider {
    fn clone(&self) -> (r: Self)
        ensures
            r@ == self@,
    {
        match self {
            Collider::Sphere { radius } => Collider::Sphere { radius: radius.clone() },
            Collider::Capsule { radius, length_squared } => Collider::Capsule {
                radius: radius.clone(),
                length_squared: length_squared.clone(),
            },
        }
    }
}

/// The mathematical content of a [`MassProperties`].
pub struct MassPropertiesView {
    pub shape: ShapeView,
    pub density: DecimalView,
}

/// How mass is spread over a geometry: evenly over its shape, with the given
/// density.
#[derive(Debug, PartialEq, Eq)]
pub struct MassProperties {
    pub shape: Shape,
    pub density: Decimal,
}

impl View for MassProperties {
    type V = MassPropertiesView;

    open spec fn view(&self) -> MassPropertiesView {
        MassPropertiesView { shape: self.shape@, density: self.density@ }
    }
}

impl Clone for MassProperties {
    fn clone(&self) -> (r: Self)
        ensures
            r@ == self@,
    {
        MassProperties { shape: self.shape.clone(), density: self.density.clone() }
    }
}

/// The mathematical content of an [`Orientation`].
pub enum OrientationView {
    Identity,
    Arc { direction: Vector3View },
}

/// How a geometry is turned.
#[derive(Debug, PartialEq, Eq)]
pub enum Orientation {
    /// Not at all.
    Identity,
    /// By the rotation that carries the upward axis `(0, 1, 0)` onto
    /// `direction`, which need not have the length one. Where the direction
    /// is zero, no such rotation is defined.
    Arc { direction: Vector3 },
}

impl View for Orientation {
    type V = OrientationView;

    open spec fn view(&self) -> OrientationView {
        match *self {
            Orientation::Identity => OrientationView::Identity,
            Orientation::Arc { direction } => OrientationView::Arc { direction: direction@ },
        }
    }
}

impl Clone for Orientation {
    fn clone(&self) -> (r: Self)
        ensures
            r@ == self@,
    {
        match self {
            Orientation::Identity => Orientation::Identity,
            Orientation::Arc { direction } => Orientation::Arc { direction: direction.clone() },
        }
    }
}

/// The mathematical content of a [`Transform`].
pub struct TransformView {
    pub translation: Vector3View,
    pub rotation: OrientationView,
}

/// Where something is placed in the scene, and how it is turned. The
/// translation counts the axes as the scene does.
#[derive(Debug, PartialEq, Eq)]
pub struct Transform {
    pub translation: Vector3,
    pub rotation: Orientation,
}

impl View for Transform {
    type V = TransformView;

    open spec fn view(&self) -> TransformView {
        TransformView { translation: self.translation@, rotation: self.rotation@ }
    }
}

impl Clone for Transform {
    fn clone(&self) -> (r: Self)
        ensures
            r@ == self@,
    {
        Transform { translation: self.translation.clone(), rotation: self.rotation.clone() }
    }
}

/// The number one, written `1`.
pub open spec fn one() -> DecimalView {
    DecimalView { negative: false, digits: seq![1u8], scale: 0 }
}

/// Whether the geometry is declared a sphere.
pub open spec fn is_sphere(g: GeomView) -> bool {
    g.geom_type == "sphere"@
}

/// Whether the geometry is declared a capsule.
pub open spec fn is_capsule(g: GeomView) -> bool {
    g.geom_type == "capsule"@
}

/// The shape of a geometry. A sphere has the size as its radius. So has a
/// capsule; its length is the distance of its end points, and one where it
/// has none. Of any other kind no shape is known.
pub open spec fn shape_of(g: GeomView) -> Result<ShapeView, ParseErrorView> {
    if is_sphere(g) {
        Ok(ShapeView::Sphere { radius: g.size })
    } else if is_capsule(g) {
        Ok(
            ShapeView::Capsule3d {
                radius: g.size,
                length_squared: match g.endpoints {
                    Some(ends) => ends.to.minus(ends.from).length_squared(),
                    None => one(),
                },
            },
        )
    } else {
        Err(ParseErrorView::UnsupportedGeometryKind { kind: g.geom_type })
    }
}

/// The collision volume of a geometry: that of its shape.
pub open spec fn collider_of(g: GeomView) -> Result<ColliderView, ParseErrorView> {
    match shape_of(g) {
        Ok(ShapeView::Sphere { radius }) => Ok(ColliderView::Sphere { radius }),
        Ok(ShapeView::Capsule3d { radius, length_squared }) => Ok(
            ColliderView::Capsule { radius, length_squared },
        ),
        Err(e) => Err(e),
    }
}

/// The mass distribution of a geometry: its shape, with the density one.
pub open spec fn mass_of(g: GeomView) -> Result<MassPropertiesView, ParseErrorView> {
    match shape_of(g) {
        Ok(shape) => Ok(MassPropertiesView { shape, density: one() }),
        Err(e) => Err(e),
    }
}

/// The direction from the first of two end points to the second, in the
/// scene's order of axes.
pub open spec fn direction_of(ends: SegmentView) -> Vector3View {
    ends.to.to_engine_axes().minus(ends.from.to_engine_axes())
}

/// How a geometry is turned. Only a capsule with end points is turned at all:
/// by the rotation that carries the upward axis onto the direction from its
/// first end point to its second, both taken in the scene's order of axes.
/// Where that direction is upward already, this is no rotation.
pub open spec fn orientation_of(g: GeomView) -> OrientationView {
    if is_capsule(g) && g.endpoints is Some {
        let direction = direction_of(g.endpoints->0);
        if direction.points_up() {
            OrientationView::Identity
        } else {
            OrientationView::Arc { direction }
        }
    } else {
        OrientationView::Identity
    }
}

/// Where a geometry is placed, in the scene's order of axes: at its declared
/// position if it has one; else, for a capsule with end points, half way
/// between them; else at the origin.
pub open spec fn placement_of(g: GeomView) -> Vector3View {
    match g.pos {
        Some(p) => p.to_engine_axes(),
        None => if is_capsule(g) && g.endpoints is Some {
            let ends = g.endpoints->0;
            ends.from.to_engine_axes().midpoint(ends.to.to_engine_axes())
        } else {
            origin()
        },
    }
}

impl Geom {
    /// Whether the geometry is declared a sphere.
    pub fn is_sphere(&self) -> (r: bool)
        ensures
            r == is_sphere(self@),
    {
        let sphere: String = "sphere".to_owned();
        self.geom_type == sphere
    }

    /// Whether the geometry is declared a capsule.
    pub fn is_capsule(&self) -> (r: bool)
        ensures
            r == is_capsule(self@),
    {
        let capsule: String = "capsule".to_owned();
        self.geom_type == capsule
    }

    /// The shape of the geometry.
    pub fn shape(&self) -> (r: Result<Shape, ParseError>)
        ensures
            result_view(r) == shape_of(self@),
    {
        if self.is_sphere() {
            Ok(Shape::Sphere { radius: self.size.clone() })
        } else if self.is_capsule() {
            let length_squared = match &self.endpoints {
                Some(ends) => ends.to.minus(&ends.from).length_squared(),
                None => Decimal::one(),
            };
            Ok(Shape::Capsule3d { radius: self.size.clone(), length_squared })
        } else {
            Err(ParseError::UnsupportedGeometryKind { kind: self.geom_type.clone() })
        }
    }

    /// The collision volume of the geometry.
    pub fn collider(&self) -> (r: Result<Collider, ParseError>)
        ensures
            result_view(r) == collider_of(self@),
    {
        match self.shape() {
            Ok(Shape::Sphere { radius }) => Ok(Collider::Sphere { radius }),
            Ok(Shape::Capsule3d { radius, length_squared }) => Ok(
                Collider::Capsule { radius, length_squared },
            ),
            Err(e) => Err(e),
        }
    }

    /// The mass distribution of the geometry.
    pub fn mass_properties_bundle(&self) -> (r: Result<MassProperties, ParseError>)
        ensures
            result_view(r) == mass_of(self@),
    {
        match self.shape() {
            Ok(shape) => Ok(MassProperties { shape, density: Decimal::one() }),
            Err(e) => Err(e),
        }
    }

    /// How the geometry is turned.
    pub fn rotation(&self) -> (r: Orientation)
        ensures
            r@ == orientation_of(self@),
    {
        if self.is_capsule() {
            match &self.endpoints {
                Some(ends) => {
                    let direction = ends.to.to_engine_axes().minus(&ends.from.to_engine_axes());
                    if direction.points_up() {
                        Orientation::Identity
                    } else {
                        Orientation::Arc { direction }
                    }
                },
                None => Orientation::Identity,
            }
        } else {
            Orientation::Identity
        }
    }

    /// Where the geometry is placed, in the scene's order of axes.
    pub fn postion(&self) -> (r: Vector3)
        ensures
            r@ == placement_of(self@),
    {
        match &self.pos {
            Some(p) => p.to_engine_axes(),
            None => {
                if self.is_capsule() {
                    match &self.endpoints {
                        Some(ends) => ends.from.to_engine_axes().midpoint(
                            &ends.to.to_engine_axes(),
                        ),
                        None => Vector3::origin(),
                    }
                } else {
                    Vector3::origin()
                }
            },
        }
    }

    /// Where the geometry is placed and how it is turned.
    pub fn transform(&self) -> (r: Transform)
        ensures
            r@ == (TransformView {
                translation: placement_of(self@),
                rotation: orientation_of(self@),
            }),
    {
        Transform { translation: self.postion(), rotation: self.rotation() }
    }
}

impl Body {
    /// Where the body is placed: at its position, taken in the scene's order
    /// of axes, and not turned.
    pub fn transform(&self) -> (r: Transform)
        ensures
            r@ == (TransformView {
                translation: self@.pos.to_engine_axes(),
                rotation: OrientationView::Identity,
            }),
    {
        Transform { translation: self.pos.to_engine_axes(), rotation: Orientation::Identity }
    }
}

/// A sphere without a declared position is placed at the origin.
pub proof fn law_sphere_sits_at_origin(g: GeomView)
    requires
        is_sphere(g),
        g.pos is None,
    ensures
        placement_of(g) == origin(),
{
    reveal_strlit("sphere");
    reveal_strlit("capsule");
    assert("sphere"@.len() != "capsule"@.len());
}

/// A geometry is turned exactly where it is a capsule with end points whose
/// direction, in the scene's order of axes, is not upward.
pub proof fn law_turned_capsules(g: GeomView)
    ensures
        orientation_of(g) is Arc <==> is_capsule(g) && g.endpoints is Some && !direction_of(
            g.endpoints->0,
        ).points_up(),
        orientation_of(g) matches OrientationView::Arc { direction } ==> direction
            == direction_of(g.endpoints->0),
{
}

/// The collision volume and the mass distribution of a geometry are known
/// exactly where its shape is, which is where it is a sphere or a capsule.
pub proof fn law_shape_is_known(g: GeomView)
    ensures
        shape_of(g) is Ok <==> is_sphere(g) || is_capsule(g),
        collider_of(g) is Ok <==> shape_of(g) is Ok,
        mass_of(g) is Ok <==> shape_of(g) is Ok,
{
}

/// A declared position is where a geometry is placed, whatever its kind and
/// its end points.
pub proof fn law_declared_position_wins(g: GeomView)
    requires
        g.pos is Some,
    ensures
        placement_of(g) == g.pos->0.to_engine_axes(),
{
}

/// A capsule with end points and without a declared position is placed half
/// way between them: counted in the units of the result, twice each of its
/// coordinates is the sum of the two end points' coordinates, with the second
/// and third axis exchanged.
pub proof fn law_capsule_sits_half_way(g: GeomView)
    requires
        is_capsule(g),
        g.pos is None,
        g.endpoints is Some,
    ensures
        ({
            let from = g.endpoints->0.from;
            let to = g.endpoints->0.to;
            let at = placement_of(g);
            &&& 2 * at.x.units() == 10 * from.x.plus(to.x).units()
            &&& 2 * at.y.units() == 10 * from.z.plus(to.z).units()
            &&& 2 * at.z.units() == 10 * from.y.plus(to.y).units()
            &&& at.x.scale == from.x.plus(to.x).scale + 1
            &&& at.y.scale == from.z.plus(to.z).scale + 1
            &&& at.z.scale == from.y.plus(to.y).scale + 1
        }),
{
    let from = g.endpoints->0.from;
    let to = g.endpoints->0.to;
    law_arithmetic_is_exact(from.x.plus(to.x), from.x);
    law_arithmetic_is_exact(from.y.plus(to.y), from.x);
    law_arithmetic_is_exact(from.z.plus(to.z), from.x);
}

/// The radius of a shape is the size of its geometry.
pub proof fn law_radius_is_size(g: GeomView)
    requires
        shape_of(g) is Ok,
    ensures
        shape_of(g)->Ok_0 matches ShapeView::Sphere { radius } ==> radius == g.size,
        shape_of(g)->Ok_0 matches ShapeView::Capsule3d { radius, .. } ==> radius == g.size,
{
}

} // verus!
