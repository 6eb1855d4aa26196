//! What a model description declares: bodies, each with one geometry, at most
//! one joint, and the bodies nested in it.

use crate::decimal::{Decimal, DecimalView};
use crate::vector::{Interval, IntervalView, Segment, SegmentView, Vector3, Vector3View};
use vstd::prelude::*;

verus! {

/// The characters of a text that may be absent.
pub open spec fn text_view(text: Option<String>) -> Option<Seq<char>> {
    match text {
        Some(t) => Some(t@),
        None => None,
    }
}

/// The content of a value that may be absent.
pub open spec fn option_view<T: View>(value: Option<T>) -> Option<T::V> {
    match value {
        Some(v) => Some(v@),
        None => None,
    }
}

/// The mathematical content of a [`Geom`].
pub struct GeomView {
    pub endpoints: Option<SegmentView>,
    pub pos: Option<Vector3View>,
    pub name: Seq<char>,
    pub size: DecimalView,
    pub geom_type: Seq<char>,
}

/// The geometry of a body, as the document declares it.
#[derive(Debug, PartialEq, Eq)]
pub struct Geom {
    /// The two end points, where the document gives them.
    pub endpoints: Option<Segment>,
    /// The position, where the document gives one.
    pub pos: Option<Vector3>,
    /// The geometry's label.
    pub name: String,
    /// The radius.
    pub size: Decimal,
    /// The kind of geometry, as the document names it.
    pub geom_type: String,
}

impl View for Geom {
    type V = GeomView;

    open spec fn view(&self) -> GeomView {
        GeomView {
            endpoints: option_view(self.endpoints),
            pos: option_view(self.pos),
            name: self.name@,
            size: self.size@,
            geom_type: self.geom_type@,
        }
    }
}

/// The mathematical content of a [`Joint`].
pub struct JointView {
    pub pos: Vector3View,
    pub axis: Option<Vector3View>,
    pub range: Option<IntervalView>,
    pub name: Option<Seq<char>>,
    pub joint_type: Seq<char>,
    pub margin: Option<DecimalView>,
}

/// The joint that ties a body to its parent, as the document declares it.
#[derive(Debug, PartialEq, Eq)]
pub struct Joint {
    /// The pivot.
    pub pos: Vector3,
    /// The axis of rotation or translation.
    pub axis: Option<Vector3>,
    /// The limits.
    pub range: Option<Interval>,
    /// The joint's label.
    pub name: Option<String>,
    /// The kind of joint, as the document names it.
    pub joint_type: String,
    /// The margin.
    pub margin: Option<Decimal>,
}

impl View for Joint {
    type V = JointView;

    open spec fn view(&self) -> JointView {
        JointView {
            pos: self.pos@,
            axis: option_view(self.axis),
            range: option_view(self.range),
            name: text_view(self.name),
            joint_type: self.joint_type@,
            margin: option_view(self.margin),
        }
    }
}

/// The mathematical content of a [`Body`].
pub struct BodyView {
    pub pos: Vector3View,
    pub name: Option<Seq<char>>,
    pub geom: GeomView,
    pub children: Seq<BodyView>,
    pub joint: Option<JointView>,
}

/// A body with the bodies nested in it.
#[derive(Debug, PartialEq, Eq)]
pub struct Body {
    /// The position, in the order of axes of the document.
    pub pos: Vector3,
    /// The body's label.
    pub name: Option<String>,
    /// The body's one geometry.
    pub geom: Geom,
    /// The bodies nested in this one, in the order of the document.
    pub children: Vec<Body>,
    /// The body's joint, if it has one.
    pub joint: Option<Joint>,
}

/// The content of a body: its own fields and the contents of its children.
pub open spec fn body_view(b: Body) -> BodyView
    decreases b,
{
    BodyView {
        pos: b.pos@,
        name: text_view(b.name),
        geom: b.geom@,
        children: Seq::new(
            b.children@.len(),
            |i: int|
                if 0 <= i < b.children@.len() {
                    body_view(b.children@[i])
                } else {
                    arbitrary()
                },
        ),
        joint: option_view(b.joint),
    }
}

impl View for Body {
    type V = BodyView;

    open spec fn view(&self) -> BodyView {
        body_view(*self)
    }
}

/// The contents of a run of bodies.
pub open spec fn body_views(s: Seq<Body>) -> Seq<BodyView> {
    Seq::new(s.len(), |i: int| s[i]@)
}

/// The children of a body's content are the contents of its children.
pub proof fn lemma_body_children(b: &Body)
    ensures
        b@.children == body_views(b.children@),
{
    assert(b@.children =~= body_views(b.children@));
}

impl Clone for Geom {
    fn clone(&self) -> (r: Self)
        ensures
            r@ == self@,
    {
        Geom {
            endpoints: match &self.endpoints {
                Some(ends) => Some(ends.clone()),
                None => None,
            },
            pos: match &self.pos {
                Some(p) => Some(p.clone()),
                None => None,
            },
            name: self.name.clone(),
            size: self.size.clone(),
            geom_type: self.geom_type.clone(),
        }
    }
}

impl Clone for Joint {
    fn clone(&self) -> (r: Self)
        ensures
            r@ == self@,
    {
        Joint {
            pos: self.pos.clone(),
            axis: match &self.axis {
                Some(a) => Some(a.clone()),
                None => None,
            },
            range: match &self.range {
                Some(r) => Some(r.clone()),
                None => None,
            },
            name: match &self.name {
                Some(n) => Some(n.clone()),
                None => None,
            },
            joint_type: self.joint_type.clone(),
            margin: match &self.margin {
                Some(m) => Some(m.clone()),
                None => None,
            },
        }
    }
}

impl Clone for Body {
    fn clone(&self) -> (r: Self)
        ensures
            r@ == self@,
        decreases self,
    {
        let mut children: Vec<Body> = Vec::new();
        let mut i: usize = 0;
        while i < self.children.len()
            invariant
                i <= self.children.len(),
                body_views(children@) == body_views(self.children@).take(i as int),
            decreases self.children.len() - i,
        {
            let child = self.children[i].clone();
            let ghost before = body_views(children@);
            children.push(child);
            assert(body_views(children@) =~= before.push(self.children@[i as int]@));
            assert(body_views(self.children@).take(i + 1) =~= body_views(self.children@).take(
                i as int,
            ).push(self.children@[i as int]@));
            i += 1;
        }
        assert(body_views(self.children@).take(i as int) =~= body_views(self.children@));
        let body = Body {
            pos: self.pos.clone(),
            name: match &self.name {
                Some(n) => Some(n.clone()),
                None => None,
            },
            geom: self.geom.clone(),
            children,
            joint: match &self.joint {
                Some(j) => Some(j.clone()),
                None => None,
            },
        };
        proof {
            lemma_body_children(&body);
            lemma_body_children(self);
        }
        body
    }
}

} // verus!
