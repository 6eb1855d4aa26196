//! What can go wrong while a model description is read.

use vstd::prelude::*;

verus! {

/// The elements of a model description that the reader knows.
#[derive(Clone, Copy, Debug, PartialEq, Eq, Structural)]
pub enum ElementKind {
    /// The document as a whole.
    Document,
    /// The `worldbody` element, which holds the root bodies.
    Worldbody,
    /// A `body` element.
    Body,
    /// A `geom` element.
    Geom,
    /// A `joint` element.
    Joint,
}

/// The tag that a kind of element carries in the document; the document as a
/// whole carries none.
pub open spec fn element_tag(kind: ElementKind) -> Seq<char> {
    match kind {
        ElementKind::Document => ""@,
        ElementKind::Worldbody => "worldbody"@,
        ElementKind::Body => "body"@,
        ElementKind::Geom => "geom"@,
        ElementKind::Joint => "joint"@,
    }
}

impl ElementKind {
    /// The tag that this kind of element carries in the document.
    pub fn tag(&self) -> (r: &'static str)
        ensures
            r@ == element_tag(*self),
    {
        match self {
            ElementKind::Document => "",
            ElementKind::Worldbody => "worldbody",
            ElementKind::Body => "body",
            ElementKind::Geom => "geom",
            ElementKind::Joint => "joint",
        }
    }
}

/// The attributes that the reader looks at.
#[derive(Clone, Copy, Debug, PartialEq, Eq, Structural)]
pub enum AttributeKind {
    /// `pos`: where a body, a geometry or a joint's pivot sits.
    Position,
    /// `name`: a label.
    Name,
    /// `type`: the kind of a geometry or of a joint.
    Kind,
    /// `size`: the radius of a geometry.
    Size,
    /// `fromto`: the two end points of a geometry.
    Endpoints,
    /// `range`: the limits of a joint.
    Range,
    /// `axis`: the axis of a joint.
    Axis,
    /// `margin`: the margin of a joint.
    Margin,
}

/// The name under which an attribute stands in the document.
pub open spec fn attribute_name(kind: AttributeKind) -> Seq<char> {
    match kind {
        AttributeKind::Position => "pos"@,
        AttributeKind::Name => "name"@,
        AttributeKind::Kind => "type"@,
        AttributeKind::Size => "size"@,
        AttributeKind::Endpoints => "fromto"@,
        AttributeKind::Range => "range"@,
        AttributeKind::Axis => "axis"@,
        AttributeKind::Margin => "margin"@,
    }
}

impl AttributeKind {
    /// The name under which this attribute stands in the document.
    pub fn name(&self) -> (r: &'static str)
        ensures
            r@ == attribute_name(*self),
    {
        match self {
            AttributeKind::Position => "pos",
            AttributeKind::Name => "name",
            AttributeKind::Kind => "type",
            AttributeKind::Size => "size",
            AttributeKind::Endpoints => "fromto",
            AttributeKind::Range => "range",
            AttributeKind::Axis => "axis",
            AttributeKind::Margin => "margin",
        }
    }
}

/// Why a model description could not be read, or a shape not be derived.
#[derive(Debug, PartialEq, Eq)]
pub enum ParseError {
    /// An element lacks an attribute that it must have.
    MissingAttribute { element: ElementKind, attribute: AttributeKind },
    /// An attribute is there, but its text is not of the form that it must have.
    MalformedAttribute { element: ElementKind, attribute: AttributeKind, raw_text: String },
    /// An element lacks a child that it must have.
    MissingRequiredChild { element: ElementKind, expected_tag: ElementKind },
    /// A shape was asked of a geometry whose kind is neither sphere nor capsule.
    UnsupportedGeometryKind { kind: String },
    /// The text is not a well-formed document.
    MalformedDocument,
}

/// The mathematical content of a [`ParseError`].
pub enum ParseErrorView {
    MissingAttribute { element: ElementKind, attribute: AttributeKind },
    MalformedAttribute { element: ElementKind, attribute: AttributeKind, raw_text: Seq<char> },
    MissingRequiredChild { element: ElementKind, expected_tag: ElementKind },
    UnsupportedGeometryKind { kind: Seq<char> },
    MalformedDocument,
}

impl View for ParseError {
    type V = ParseErrorView;

    open spec fn view(&self) -> ParseErrorView {
        match *self {
            ParseError::MissingAttribute {
                element,
                attribute,
            } => ParseErrorView::MissingAttribute { element, attribute },
            ParseError::MalformedAttribute {
                element,
                attribute,
                raw_text,
            } => ParseErrorView::MalformedAttribute { element, attribute, raw_text: raw_text@ },
            ParseError::MissingRequiredChild {
                element,
                expected_tag,
            } => ParseErrorView::MissingRequiredChild { element, expected_tag },
            ParseError::UnsupportedGeometryKind {
                kind,
            } => ParseErrorView::UnsupportedGeometryKind { kind: kind@ },
            ParseError::MalformedDocument => ParseErrorView::MalformedDocument,
        }
    }
}

impl Clone for ParseError {
    fn clone(&self) -> (r: Self)
        ensures
            r@ == self@,
    {
        match self {
            ParseError::MissingAttribute { element, attribute } => ParseError::MissingAttribute {
                element: *element,
                attribute: *attribute,
            },
            ParseError::MalformedAttribute {
                element,
                attribute,
                raw_text,
            } => ParseError::MalformedAttribute {
                element: *element,
                attribute: *attribute,
                raw_text: raw_text.clone(),
            },
            ParseError::MissingRequiredChild {
                element,
                expected_tag,
            } => ParseError::MissingRequiredChild { element: *element, expected_tag: *expected_tag },
            ParseError::UnsupportedGeometryKind { kind } => ParseError::UnsupportedGeometryKind {
                kind: kind.clone(),
            },
            ParseError::MalformedDocument => ParseError::MalformedDocument,
        }
    }
}

} // verus!
