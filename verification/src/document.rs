//! From the text of a document to the forest of bodies that it declares.

use crate::error::{element_tag, ElementKind, ParseError, ParseErrorView};
use crate::model::{Body, BodyView};
use crate::mujoco_xml_parser::{bodies_from, forest_view, parse_parent_node};
use crate::xml::{
    build_tree, check_listing, is_listing, node_views, tree_at, Attribute, XmlNode, XmlNodeView,
};
use vstd::prelude::*;

verus! {

/// Why `roxmltree` could not read a text.
#[verifier::external_type_specification]
#[verifier::external_body]
pub struct ExXmlError(roxmltree::Error);

/// The nodes that `roxmltree` finds in a text, in the order of the document
/// and each with the place of its parent, or nothing where it rejects the
/// text.
pub uninterp spec fn document_nodes(text: Seq<char>) -> Option<Seq<XmlNodeView>>;

/// Reads a text with `roxmltree::Document::parse` and lists the nodes of the
/// document as `Document::descendants` walks them: for each node the place of
/// `Node::parent` in that walk, the local part of `Node::tag_name`, and of
/// each of `Node::attributes` the namespace, the local name and the value.
/// Nothing of this is proved: the contract only gives the outcome its name,
/// `document_nodes`.
#[verifier::external_body]
fn read_nodes(text: &str) -> (r: Result<Vec<XmlNode>, roxmltree::Error>)
    ensures
        match r {
            Ok(nodes) => document_nodes(text@) == Some(node_views(nodes@)),
            Err(_) => document_nodes(text@) is None,
        },
{
    let document = roxmltree::Document::parse(text)?;
    Ok(document.descendants().map(|n| XmlNode {
        parent: n.parent().map(|p| p.id().get_usize()),
        tag: n.tag_name().name().to_string(),
        attributes: n.attributes().map(|a| Attribute {
            namespace: a.namespace().map(|s| s.to_string()),
            name: a.name().to_string(),
            value: a.value().to_string(),
        }).collect(),
    }).collect())
}

/// The position of the first node at or after `from` that has the tag `tag`,
/// or the number of nodes if there is none.
pub open spec fn node_index(nodes: Seq<XmlNodeView>, tag: Seq<char>, from: int) -> int
    decreases nodes.len() - from,
{
    if from < 0 || from >= nodes.len() || nodes[from].tag == tag {
        from
    } else {
        node_index(nodes, tag, from + 1)
    }
}

/// The forest that a list of nodes declares: the bodies directly below the
/// first `worldbody` element of the document. A list that is no tree is a
/// malformed document; a document without a `worldbody` lacks a child that it
/// must have.
pub open spec fn forest_of_nodes(nodes: Seq<XmlNodeView>) -> Result<Seq<BodyView>, ParseErrorView> {
    let at = node_index(nodes, element_tag(ElementKind::Worldbody), 0);
    if !is_listing(nodes) {
        Err(ParseErrorView::MalformedDocument)
    } else if at >= nodes.len() {
        Err(
            ParseErrorView::MissingRequiredChild {
                element: ElementKind::Document,
                expected_tag: ElementKind::Worldbody,
            },
        )
    } else {
        bodies_from(tree_at(nodes, at).children, 0)
    }
}

/// The forest that a document declares, given the nodes that were found in
/// its text: where none were found, the document is malformed.
pub open spec fn forest_of_document(nodes: Option<Seq<XmlNodeView>>) -> Result<
    Seq<BodyView>,
    ParseErrorView,
> {
    match nodes {
        Some(n) => forest_of_nodes(n),
        None => Err(ParseErrorView::MalformedDocument),
    }
}

/// Reads the forest of bodies that a list of nodes declares.
pub fn parse_nodes(nodes: Vec<XmlNode>) -> (r: Result<Vec<Body>, ParseError>)
    ensures
        forest_view(r) == forest_of_nodes(node_views(nodes@)),
{
    if !check_listing(&nodes) {
        return Err(ParseError::MalformedDocument);
    }
    let wanted: String = ElementKind::Worldbody.tag().to_owned();
    let ghost all = node_views(nodes@);
    let mut at: usize = 0;
    while at < nodes.len()
        invariant
            at <= nodes.len(),
            all == node_views(nodes@),
            wanted@ == element_tag(ElementKind::Worldbody),
            node_index(all, wanted@, 0) == node_index(all, wanted@, at as int),
        ensures
            at <= nodes.len(),
            at == node_index(all, wanted@, 0),
        decreases nodes.len() - at,
    {
        assert(all[at as int] == nodes@[at as int]@);
        if nodes[at].tag == wanted {
            break ;
        }
        at += 1;
    }
    if at >= nodes.len() {
        return Err(
            ParseError::MissingRequiredChild {
                element: ElementKind::Document,
                expected_tag: ElementKind::Worldbody,
            },
        );
    }
    let worldbody = build_tree(nodes, at);
    parse_parent_node(&worldbody)
}

/// Reads the forest of bodies that the text of a model description declares.
pub fn parse_mujoco_config(document: &str) -> (r: Result<Vec<Body>, ParseError>)
    ensures
        forest_view(r) == forest_of_document(document_nodes(document@)),
{
    match read_nodes(document) {
        Ok(nodes) => parse_nodes(nodes),
        Err(_) => Err(ParseError::MalformedDocument),
    }
}

} // verus!
