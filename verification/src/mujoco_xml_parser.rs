//! Reading a model description: from the elements of the document to the
//! forest of bodies that it declares.

use crate::decimal::{Decimal, DecimalView};
use crate::error::{
    attribute_name, element_tag, AttributeKind, ElementKind, ParseError, ParseErrorView,
};
use crate::grammar::{
    fromto_value, number_value, parse_3_vec, parse_fromto, parse_number, parse_range,
    range_value, read_as, vec3_value, NumberForm,
};
use crate::model::{
    body_views, lemma_body_children, option_view, Body, BodyView, Geom, GeomView, Joint,
    JointView,
};
use crate::vector::{Interval, IntervalView, Segment, SegmentView, Vector3, Vector3View};
use crate::xml::{
    attribute_value, element_views, first_with_tag, lemma_children_views, AttributeView, Element,
    ElementView,
};
use vstd::prelude::*;

verus! {

/// The text of an attribute that an element must have.
pub open spec fn required_text(
    attributes: Seq<AttributeView>,
    element: ElementKind,
    attribute: AttributeKind,
) -> Result<Seq<char>, ParseErrorView> {
    match attribute_value(attributes, attribute_name(attribute)) {
        Some(text) => Ok(text),
        None => Err(ParseErrorView::MissingAttribute { element, attribute }),
    }
}

/// The triple in an attribute that an element must have.
pub open spec fn required_vec3(
    attributes: Seq<AttributeView>,
    element: ElementKind,
    attribute: AttributeKind,
) -> Result<Vector3View, ParseErrorView> {
    match attribute_value(attributes, attribute_name(attribute)) {
        Some(text) => read_as(vec3_value(text), text, element, attribute),
        None => Err(ParseErrorView::MissingAttribute { element, attribute }),
    }
}

/// The number in an attribute that an element must have.
pub open spec fn required_number(
    attributes: Seq<AttributeView>,
    element: ElementKind,
    attribute: AttributeKind,
) -> Result<DecimalView, ParseErrorView> {
    match attribute_value(attributes, attribute_name(attribute)) {
        Some(text) => read_as(number_value(text, NumberForm::Plain), text, element, attribute),
        None => Err(ParseErrorView::MissingAttribute { element, attribute }),
    }
}

/// What reading gave, as a value that could have been absent.
pub open spec fn present<T>(value: Result<T, ParseErrorView>) -> Result<Option<T>, ParseErrorView> {
    match value {
        Ok(v) => Ok(Some(v)),
        Err(e) => Err(e),
    }
}

/// The triple in an attribute that may be absent.
pub open spec fn optional_vec3(
    attributes: Seq<AttributeView>,
    element: ElementKind,
    attribute: AttributeKind,
) -> Result<Option<Vector3View>, ParseErrorView> {
    match attribute_value(attributes, attribute_name(attribute)) {
        Some(text) => present(read_as(vec3_value(text), text, element, attribute)),
        None => Ok(None),
    }
}

/// The pair of limits in an attribute that may be absent.
pub open spec fn optional_range(
    attributes: Seq<AttributeView>,
    element: ElementKind,
    attribute: AttributeKind,
) -> Result<Option<IntervalView>, ParseErrorView> {
    match attribute_value(attributes, attribute_name(attribute)) {
        Some(text) => present(read_as(range_value(text), text, element, attribute)),
        None => Ok(None),
    }
}

/// The pair of end points in an attribute that may be absent.
pub open spec fn optional_fromto(
    attributes: Seq<AttributeView>,
    element: ElementKind,
    attribute: AttributeKind,
) -> Result<Option<SegmentView>, ParseErrorView> {
    match attribute_value(attributes, attribute_name(attribute)) {
        Some(text) => present(read_as(fromto_value(text), text, element, attribute)),
        None => Ok(None),
    }
}

/// The number in an attribute that may be absent.
pub open spec fn optional_number(
    attributes: Seq<AttributeView>,
    element: ElementKind,
    attribute: AttributeKind,
) -> Result<Option<DecimalView>, ParseErrorView> {
    match attribute_value(attributes, attribute_name(attribute)) {
        Some(text) => present(
            read_as(number_value(text, NumberForm::Plain), text, element, attribute),
        ),
        None => Ok(None),
    }
}

/// The content of a result.
pub open spec fn result_view<T: View>(r: Result<T, ParseError>) -> Result<T::V, ParseErrorView> {
    match r {
        Ok(v) => Ok(v@),
        Err(e) => Err(e@),
    }
}

/// The content of a result that may hold nothing.
pub open spec fn optional_view<T: View>(r: Result<Option<T>, ParseError>) -> Result<
    Option<T::V>,
    ParseErrorView,
> {
    match r {
        Ok(v) => Ok(option_view(v)),
        Err(e) => Err(e@),
    }
}

/// The content of a result that holds a forest.
pub open spec fn forest_view(r: Result<Vec<Body>, ParseError>) -> Result<
    Seq<BodyView>,
    ParseErrorView,
> {
    match r {
        Ok(v) => Ok(body_views(v@)),
        Err(e) => Err(e@),
    }
}

/// The joint that a `joint` element declares. Its position and its kind must
/// be there; the first fault in the order position, kind, range, axis, margin
/// is the one reported.
pub open spec fn joint_of(e: ElementView) -> Result<JointView, ParseErrorView> {
    let el = ElementKind::Joint;
    let pos = required_vec3(e.attributes, el, AttributeKind::Position);
    let kind = required_text(e.attributes, el, AttributeKind::Kind);
    let range = optional_range(e.attributes, el, AttributeKind::Range);
    let axis = optional_vec3(e.attributes, el, AttributeKind::Axis);
    let margin = optional_number(e.attributes, el, AttributeKind::Margin);
    if pos is Err {
        Err(pos->Err_0)
    } else if kind is Err {
        Err(kind->Err_0)
    } else if range is Err {
        Err(range->Err_0)
    } else if axis is Err {
        Err(axis->Err_0)
    } else if margin is Err {
        Err(margin->Err_0)
    } else {
        Ok(
            JointView {
                pos: pos->Ok_0,
                axis: axis->Ok_0,
                range: range->Ok_0,
                name: attribute_value(e.attributes, attribute_name(AttributeKind::Name)),
                joint_type: kind->Ok_0,
                margin: margin->Ok_0,
            },
        )
    }
}

/// The geometry that a `geom` element declares. Its name, its kind and its
/// size must be there; the first fault in the order end points, position,
/// name, kind, size is the one reported.
pub open spec fn geom_of(e: ElementView) -> Result<GeomView, ParseErrorView> {
    let el = ElementKind::Geom;
    let endpoints = optional_fromto(e.attributes, el, AttributeKind::Endpoints);
    let pos = optional_vec3(e.attributes, el, AttributeKind::Position);
    let name = required_text(e.attributes, el, AttributeKind::Name);
    let kind = required_text(e.attributes, el, AttributeKind::Kind);
    let size = required_number(e.attributes, el, AttributeKind::Size);
    if endpoints is Err {
        Err(endpoints->Err_0)
    } else if pos is Err {
        Err(pos->Err_0)
    } else if name is Err {
        Err(name->Err_0)
    } else if kind is Err {
        Err(kind->Err_0)
    } else if size is Err {
        Err(size->Err_0)
    } else {
        Ok(
            GeomView {
                endpoints: endpoints->Ok_0,
                pos: pos->Ok_0,
                name: name->Ok_0,
                size: size->Ok_0,
                geom_type: kind->Ok_0,
            },
        )
    }
}

/// The joint of a body: none if the body has no `joint` child, and else what
/// the first such child declares.
pub open spec fn joint_among(children: Seq<ElementView>) -> Result<
    Option<JointView>,
    ParseErrorView,
> {
    match first_with_tag(children, element_tag(ElementKind::Joint)) {
        Some(j) => match joint_of(j) {
            Ok(joint) => Ok(Some(joint)),
            Err(e) => Err(e),
        },
        None => Ok(None),
    }
}

/// The geometry of a body: what its first `geom` child declares; a body
/// without such a child is a fault.
pub open spec fn geom_among(children: Seq<ElementView>) -> Result<GeomView, ParseErrorView> {
    match first_with_tag(children, element_tag(ElementKind::Geom)) {
        Some(g) => geom_of(g),
        None => Err(
            ParseErrorView::MissingRequiredChild {
                element: ElementKind::Body,
                expected_tag: ElementKind::Geom,
            },
        ),
    }
}

/// The body that a `body` element declares, with the bodies nested in it. The
/// first fault is the one reported, in the order: the position, a missing
/// geometry, the joint, the geometry, the nested bodies.
pub open spec fn body_of(e: ElementView) -> Result<BodyView, ParseErrorView>
    decreases e, 0int,
{
    let pos = required_vec3(e.attributes, ElementKind::Body, AttributeKind::Position);
    let joint = joint_among(e.children);
    let geom = geom_among(e.children);
    let children = bodies_from(e.children, 0);
    if pos is Err {
        Err(pos->Err_0)
    } else if first_with_tag(e.children, element_tag(ElementKind::Geom)) is None {
        Err(geom->Err_0)
    } else if joint is Err {
        Err(joint->Err_0)
    } else if geom is Err {
        Err(geom->Err_0)
    } else if children is Err {
        Err(children->Err_0)
    } else {
        Ok(
            BodyView {
                pos: pos->Ok_0,
                name: attribute_value(e.attributes, attribute_name(AttributeKind::Name)),
                geom: geom->Ok_0,
                children: children->Ok_0,
                joint: joint->Ok_0,
            },
        )
    }
}

/// The bodies that the `body` elements among `elements` declare, from
/// position `from` on and in their order; elements with another tag are passed
/// over. The first body that cannot be read makes the whole a fault.
pub open spec fn bodies_from(elements: Seq<ElementView>, from: int) -> Result<
    Seq<BodyView>,
    ParseErrorView,
>
    decreases elements, elements.len() - from,
{
    if from < 0 || from >= elements.len() {
        Ok(Seq::empty())
    } else if elements[from].tag == element_tag(ElementKind::Body) {
        match body_of(elements[from]) {
            Err(e) => Err(e),
            Ok(first) => match bodies_from(elements, from + 1) {
                Err(e) => Err(e),
                Ok(rest) => Ok(seq![first] + rest),
            },
        }
    } else {
        bodies_from(elements, from + 1)
    }
}

/// The text of an attribute that `e` must have.
fn text_of<'a>(e: &'a Element, element: ElementKind, attribute: AttributeKind) -> (r: Result<
    &'a str,
    ParseError,
>)
    ensures
        result_view(r) == required_text(e@.attributes, element, attribute),
{
    match e.attribute(attribute.name()) {
        Some(text) => Ok(text),
        None => Err(ParseError::MissingAttribute { element, attribute }),
    }
}

/// The triple in an attribute that `e` must have.
fn vec3_of(e: &Element, element: ElementKind, attribute: AttributeKind) -> (r: Result<
    Vector3,
    ParseError,
>)
    ensures
        result_view(r) == required_vec3(e@.attributes, element, attribute),
{
    match e.attribute(attribute.name()) {
        Some(text) => parse_3_vec(text, element, attribute),
        None => Err(ParseError::MissingAttribute { element, attribute }),
    }
}

/// The number in an attribute that `e` must have.
fn number_of(e: &Element, element: ElementKind, attribute: AttributeKind) -> (r: Result<
    Decimal,
    ParseError,
>)
    ensures
        result_view(r) == required_number(e@.attributes, element, attribute),
{
    match e.attribute(attribute.name()) {
        Some(text) => parse_number(text, element, attribute),
        None => Err(ParseError::MissingAttribute { element, attribute }),
    }
}

/// The triple in an attribute that `e` may have.
fn vec3_if_any(e: &Element, element: ElementKind, attribute: AttributeKind) -> (r: Result<
    Option<Vector3>,
    ParseError,
>)
    ensures
        optional_view(r) == optional_vec3(e@.attributes, element, attribute),
{
    match e.attribute(attribute.name()) {
        Some(text) => match parse_3_vec(text, element, attribute) {
            Ok(v) => Ok(Some(v)),
            Err(x) => Err(x),
        },
        None => Ok(None),
    }
}

/// The pair of limits in an attribute that `e` may have.
fn range_if_any(e: &Element, element: ElementKind, attribute: AttributeKind) -> (r: Result<
    Option<Interval>,
    ParseError,
>)
    ensures
        optional_view(r) == optional_range(e@.attributes, element, attribute),
{
    match e.attribute(attribute.name()) {
        Some(text) => match parse_range(text, element, attribute) {
            Ok(v) => Ok(Some(v)),
            Err(x) => Err(x),
        },
        None => Ok(None),
    }
}

/// The pair of end points in an attribute that `e` may have.
fn fromto_if_any(e: &Element, element: ElementKind, attribute: AttributeKind) -> (r: Result<
    Option<Segment>,
    ParseError,
>)
    ensures
        optional_view(r) == optional_fromto(e@.attributes, element, attribute),
{
    match e.attribute(attribute.name()) {
        Some(text) => match parse_fromto(text, element, attribute) {
            Ok(v) => Ok(Some(v)),
            Err(x) => Err(x),
        },
        None => Ok(None),
    }
}

/// The number in an attribute that `e` may have.
fn number_if_any(e: &Element, element: ElementKind, attribute: AttributeKind) -> (r: Result<
    Option<Decimal>,
    ParseError,
>)
    ensures
        optional_view(r) == optional_number(e@.attributes, element, attribute),
{
    match e.attribute(attribute.name()) {
        Some(text) => match parse_number(text, element, attribute) {
            Ok(v) => Ok(Some(v)),
            Err(x) => Err(x),
        },
        None => Ok(None),
    }
}

/// Reads the joint that a `joint` element declares.
pub fn parse_joint(element: &Element) -> (r: Result<Joint, ParseError>)
    ensures
        result_view(r) == joint_of(element@),
{
    let el = ElementKind::Joint;
    let pos = match vec3_of(element, el, AttributeKind::Position) {
        Ok(v) => v,
        Err(x) => {
            return Err(x);
        },
    };
    let name = match element.attribute(AttributeKind::Name.name()) {
        Some(text) => Some(text.to_owned()),
        None => None,
    };
    let joint_type = match text_of(element, el, AttributeKind::Kind) {
        Ok(v) => v.to_owned(),
        Err(x) => {
            return Err(x);
        },
    };
    let range = match range_if_any(element, el, AttributeKind::Range) {
        Ok(v) => v,
        Err(x) => {
            return Err(x);
        },
    };
    let axis = match vec3_if_any(element, el, AttributeKind::Axis) {
        Ok(v) => v,
        Err(x) => {
            return Err(x);
        },
    };
    let margin = match number_if_any(element, el, AttributeKind::Margin) {
        Ok(v) => v,
        Err(x) => {
            return Err(x);
        },
    };
    Ok(Joint { pos, axis, range, name, joint_type, margin })
}

/// Reads the geometry that a `geom` element declares.
pub fn parse_geom(element: &Element) -> (r: Result<Geom, ParseError>)
    ensures
        result_view(r) == geom_of(element@),
{
    let el = ElementKind::Geom;
    let endpoints = match fromto_if_any(element, el, AttributeKind::Endpoints) {
        Ok(v) => v,
        Err(x) => {
            return Err(x);
        },
    };
    let pos = match vec3_if_any(element, el, AttributeKind::Position) {
        Ok(v) => v,
        Err(x) => {
            return Err(x);
        },
    };
    let name = match text_of(element, el, AttributeKind::Name) {
        Ok(v) => v.to_owned(),
        Err(x) => {
            return Err(x);
        },
    };
    let geom_type = match text_of(element, el, AttributeKind::Kind) {
        Ok(v) => v.to_owned(),
        Err(x) => {
            return Err(x);
        },
    };
    let size = match number_of(element, el, AttributeKind::Size) {
        Ok(v) => v,
        Err(x) => {
            return Err(x);
        },
    };
    Ok(Geom { endpoints, pos, name, size, geom_type })
}

/// Reads the body that a `body` element declares, with the bodies nested in
/// it.
pub fn parse_body(element: &Element) -> (r: Result<Body, ParseError>)
    ensures
        result_view(r) == body_of(element@),
    decreases element, 1int,
{
    let pos = match vec3_of(element, ElementKind::Body, AttributeKind::Position) {
        Ok(v) => v,
        Err(x) => {
            return Err(x);
        },
    };
    let name = match element.attribute(AttributeKind::Name.name()) {
        Some(text) => Some(text.to_owned()),
        None => None,
    };
    let geom_node = match element.child(ElementKind::Geom.tag()) {
        Some(node) => node,
        None => {
            return Err(
                ParseError::MissingRequiredChild {
                    element: ElementKind::Body,
                    expected_tag: ElementKind::Geom,
                },
            );
        },
    };
    let joint = match element.child(ElementKind::Joint.tag()) {
        Some(node) => match parse_joint(node) {
            Ok(j) => Some(j),
            Err(x) => {
                return Err(x);
            },
        },
        None => None,
    };
    let geom = match parse_geom(geom_node) {
        Ok(g) => g,
        Err(x) => {
            return Err(x);
        },
    };
    let children = match parse_parent_node(element) {
        Ok(c) => c,
        Err(x) => {
            return Err(x);
        },
    };
    let body = Body { pos, name, geom, children, joint };
    proof {
        lemma_body_children(&body);
    }
    Ok(body)
}

/// Reads the bodies that stand directly below `node`, in the order of the
/// document. A child with another tag than `body` is passed over; the first
/// body that cannot be read makes the whole a fault.
pub fn parse_parent_node(node: &Element) -> (r: Result<Vec<Body>, ParseError>)
    ensures
        forest_view(r) == bodies_from(node@.children, 0),
    decreases node, 0int,
{
    let wanted: String = ElementKind::Body.tag().to_owned();
    let ghost elements = node@.children;
    let ghost whole = bodies_from(elements, 0);
    proof {
        lemma_children_views(node);
    }
    let mut bodies: Vec<Body> = Vec::new();
    let mut i: usize = 0;
    assert(Seq::<BodyView>::empty() + whole->Ok_0 =~= whole->Ok_0);
    while i < node.children.len()
        invariant
            i <= node.children.len(),
            elements == node@.children,
            elements == element_views(node.children@),
            wanted@ == element_tag(ElementKind::Body),
            whole == bodies_from(elements, 0),
            match bodies_from(elements, i as int) {
                Ok(rest) => whole == Ok::<Seq<BodyView>, ParseErrorView>(body_views(bodies@) + rest),
                Err(e) => whole == Err::<Seq<BodyView>, ParseErrorView>(e),
            },
        decreases node.children.len() - i,
    {
        let element = &node.children[i];
        assert(elements[i as int] == element@);
        proof {
            lemma_children_views(element);
        }
        if element.tag == wanted {
            match parse_body(element) {
                Ok(body) => {
                    let ghost before = body_views(bodies@);
                    bodies.push(body);
                    proof {
                        assert(body_views(bodies@) =~= before + seq![body@]);
                        match bodies_from(elements, i + 1) {
                            Ok(rest) => {
                                assert((before + seq![body@]) + rest =~= before + (seq![body@]
                                    + rest));
                            },
                            Err(e) => {},
                        }
                    }
                },
                Err(x) => {
                    return Err(x);
                },
            }
        }
        i += 1;
    }
    assert(body_views(bodies@) + Seq::<BodyView>::empty() =~= body_views(bodies@));
    Ok(bodies)
}

/// The places of the `body` elements among `elements`, from position `from`
/// on and in their order.
pub open spec fn body_places(elements: Seq<ElementView>, from: int) -> Seq<int>
    decreases elements.len() - from,
{
    if from < 0 || from >= elements.len() {
        Seq::empty()
    } else if elements[from].tag == element_tag(ElementKind::Body) {
        seq![from] + body_places(elements, from + 1)
    } else {
        body_places(elements, from + 1)
    }
}

/// `body_places` lists places of `body` elements, and lists them in rising
/// order; and every `body` element from `from` on is at one of them.
pub proof fn law_body_places(elements: Seq<ElementView>, from: int)
    requires
        0 <= from,
    ensures
        forall|k: int|
            0 <= k < body_places(elements, from).len() ==> from <= (#[trigger] body_places(
                elements,
                from,
            )[k]) < elements.len() && elements[body_places(elements, from)[k]].tag
                == element_tag(ElementKind::Body),
        forall|j: int, k: int|
            0 <= j < k < body_places(elements, from).len() ==> body_places(elements, from)[j]
                < body_places(elements, from)[k],
        forall|i: int|
            from <= i < elements.len() && (#[trigger] elements[i]).tag == element_tag(
                ElementKind::Body,
            ) ==> body_places(elements, from).contains(i),
    decreases elements.len() - from,
{
    if from < elements.len() {
        law_body_places(elements, from + 1);
        let rest = body_places(elements, from + 1);
        let all = body_places(elements, from);
        if elements[from].tag == element_tag(ElementKind::Body) {
            assert(all =~= seq![from] + rest);
            assert(all[0] == from);
            assert forall|k: int| 1 <= k < all.len() implies all[k] == rest[k - 1] by {}
            assert forall|i: int|
                from <= i < elements.len() && (#[trigger] elements[i]).tag == element_tag(
                    ElementKind::Body,
                ) implies all.contains(i) by {
                if i > from {
                    let k = choose|k: int| 0 <= k < rest.len() && rest[k] == i;
                    assert(all[k + 1] == i);
                }
            }
        }
    }
}

/// A body without a position is a fault, and said to be one.
pub proof fn law_body_needs_position(e: ElementView)
    requires
        attribute_value(e.attributes, "pos"@) is None,
    ensures
        body_of(e) == Err::<BodyView, ParseErrorView>(
            ParseErrorView::MissingAttribute {
                element: ElementKind::Body,
                attribute: AttributeKind::Position,
            },
        ),
{
}

/// A body with a position but without a geometry is a fault, and said to be
/// one.
pub proof fn law_body_needs_geometry(e: ElementView)
    requires
        required_vec3(e.attributes, ElementKind::Body, AttributeKind::Position) is Ok,
        first_with_tag(e.children, "geom"@) is None,
    ensures
        body_of(e) == Err::<BodyView, ParseErrorView>(
            ParseErrorView::MissingRequiredChild {
                element: ElementKind::Body,
                expected_tag: ElementKind::Geom,
            },
        ),
{
}

/// One body that cannot be read makes the whole forest a fault, whatever
/// stands beside it.
pub proof fn law_one_fault_fails_all(elements: Seq<ElementView>, at: int)
    requires
        0 <= at < elements.len(),
        elements[at].tag == element_tag(ElementKind::Body),
        body_of(elements[at]) is Err,
    ensures
        bodies_from(elements, 0) is Err,
{
    lemma_fault_reaches(elements, 0, at);
}

/// A fault at `at` is a fault of every stretch that begins at or before `at`.
proof fn lemma_fault_reaches(elements: Seq<ElementView>, from: int, at: int)
    requires
        0 <= from <= at < elements.len(),
        elements[at].tag == element_tag(ElementKind::Body),
        body_of(elements[at]) is Err,
    ensures
        bodies_from(elements, from) is Err,
    decreases at - from,
{
    if from < at {
        lemma_fault_reaches(elements, from + 1, at);
    }
}

/// A fault in a nested body is a fault of the body that it is nested in.
pub proof fn law_nested_fault_fails_body(e: ElementView)
    requires
        bodies_from(e.children, 0) is Err,
    ensures
        body_of(e) is Err,
{
}

/// The bodies that are read are those that the document declares, in its
/// order: there is one for each `body` element, and the one at place `k` is
/// what the `k`-th `body` element declares.
pub proof fn law_bodies_follow_document(elements: Seq<ElementView>)
    requires
        bodies_from(elements, 0) is Ok,
    ensures
        bodies_from(elements, 0)->Ok_0.len() == body_places(elements, 0).len(),
        forall|k: int|
            0 <= k < body_places(elements, 0).len() ==> body_of(
                elements[#[trigger] body_places(elements, 0)[k]],
            ) == Ok::<BodyView, ParseErrorView>(bodies_from(elements, 0)->Ok_0[k]),
{
    lemma_bodies_follow(elements, 0);
}

/// The same of the bodies from `from` on.
proof fn lemma_bodies_follow(elements: Seq<ElementView>, from: int)
    requires
        0 <= from,
        bodies_from(elements, from) is Ok,
    ensures
        bodies_from(elements, from)->Ok_0.len() == body_places(elements, from).len(),
        forall|k: int|
            0 <= k < body_places(elements, from).len() ==> body_of(
                elements[#[trigger] body_places(elements, from)[k]],
            ) == Ok::<BodyView, ParseErrorView>(bodies_from(elements, from)->Ok_0[k]),
    decreases elements.len() - from,
{
    if from < elements.len() {
        let rest_places = body_places(elements, from + 1);
        let places = body_places(elements, from);
        if elements[from].tag == element_tag(ElementKind::Body) {
            lemma_bodies_follow(elements, from + 1);
            let first = body_of(elements[from])->Ok_0;
            let rest = bodies_from(elements, from + 1)->Ok_0;
            assert(bodies_from(elements, from)->Ok_0 =~= seq![first] + rest);
            assert(places =~= seq![from] + rest_places);
            assert forall|k: int| 0 <= k < places.len() implies body_of(
                elements[#[trigger] places[k]],
            ) == Ok::<BodyView, ParseErrorView>(bodies_from(elements, from)->Ok_0[k]) by {
                if k > 0 {
                    assert(places[k] == rest_places[k - 1]);
                }
            }
        } else {
            lemma_bodies_follow(elements, from + 1);
        }
    }
}

/// The children of a body are the bodies that its element's `body` children
/// declare.
pub proof fn law_children_are_nested_bodies(e: ElementView)
    requires
        body_of(e) is Ok,
    ensures
        bodies_from(e.children, 0) == Ok::<Seq<BodyView>, ParseErrorView>(
            body_of(e)->Ok_0.children,
        ),
{
}

/// The larger of two numbers.
pub open spec fn larger(a: nat, b: nat) -> nat {
    if a >= b {
        a
    } else {
        b
    }
}

/// How deep bodies are nested in a body: one for the body itself, and with it
/// the depth of its deepest child.
pub open spec fn body_depth(b: BodyView) -> nat
    decreases b, 0int,
{
    1 + deepest_body(b.children)
}

/// The depth of the deepest of `bodies`, and zero where there are none.
pub open spec fn deepest_body(bodies: Seq<BodyView>) -> nat
    decreases bodies, 1int,
{
    if bodies.len() == 0 {
        0
    } else {
        larger(body_depth(bodies[0]), deepest_body(bodies.drop_first()))
    }
}

/// How deep `body` elements are nested in an element: one for the element
/// itself, and with it the depth of its deepest `body` child.
pub open spec fn nesting_depth(e: ElementView) -> nat
    decreases e, 0int,
{
    1 + deepest_nesting(e.children, 0)
}

/// The depth of the deepest `body` element among `elements` from position
/// `from` on, and zero where there is none.
pub open spec fn deepest_nesting(elements: Seq<ElementView>, from: int) -> nat
    decreases elements, elements.len() - from,
{
    if from < 0 || from >= elements.len() {
        0
    } else if elements[from].tag == element_tag(ElementKind::Body) {
        larger(nesting_depth(elements[from]), deepest_nesting(elements, from + 1))
    } else {
        deepest_nesting(elements, from + 1)
    }
}

/// Bodies are nested as deep as their elements are: `body` elements nested to
/// some depth give a chain of bodies of that length.
pub proof fn law_depth_is_kept(e: ElementView)
    requires
        body_of(e) is Ok,
    ensures
        body_depth(body_of(e)->Ok_0) == nesting_depth(e),
    decreases e, 0int,
{
    lemma_depths_are_kept(e.children, 0);
}

/// The same of the bodies from `from` on.
proof fn lemma_depths_are_kept(elements: Seq<ElementView>, from: int)
    requires
        0 <= from,
        bodies_from(elements, from) is Ok,
    ensures
        deepest_body(bodies_from(elements, from)->Ok_0) == deepest_nesting(elements, from),
    decreases elements, elements.len() - from,
{
    if from < elements.len() {
        lemma_depths_are_kept(elements, from + 1);
        if elements[from].tag == element_tag(ElementKind::Body) {
            law_depth_is_kept(elements[from]);
            let first = body_of(elements[from])->Ok_0;
            let rest = bodies_from(elements, from + 1)->Ok_0;
            let all = bodies_from(elements, from)->Ok_0;
            assert(all =~= seq![first] + rest);
            assert(all.drop_first() =~= rest);
            assert(all[0] == first);
        }
    }
}

} // verus!
