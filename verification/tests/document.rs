use mujoco_model::document::{parse_mujoco_config, parse_nodes};
use mujoco_model::error::{AttributeKind, ElementKind, ParseError};
use mujoco_model::grammar::to_text;
use mujoco_model::model::Body;
use mujoco_model::mujoco_xml_parser::{parse_body, parse_geom, parse_joint, parse_parent_node};
use mujoco_model::xml::{build_tree, check_listing, Attribute, Element, XmlNode};

fn attribute(name: &str, value: &str) -> Attribute {
    Attribute { namespace: None, name: name.to_string(), value: value.to_string() }
}

fn element(tag: &str, attributes: &[(&str, &str)], children: Vec<Element>) -> Element {
    Element {
        tag: tag.to_string(),
        attributes: attributes.iter().map(|(n, v)| attribute(n, v)).collect(),
        children,
    }
}

fn node(parent: Option<usize>, tag: &str, attributes: &[(&str, &str)]) -> XmlNode {
    XmlNode {
        parent,
        tag: tag.to_string(),
        attributes: attributes.iter().map(|(n, v)| attribute(n, v)).collect(),
    }
}

fn ball(name: &str) -> Element {
    element("geom", &[("name", name), ("type", "sphere"), ("size", "0.25")], vec![])
}

fn names(forest: &[Body]) -> Vec<String> {
    forest.iter().map(|b| b.name.clone().unwrap_or_default()).collect()
}

const ANT: &str = r#"<mujoco model="ant">
  <!-- a cut-down ant -->
  <worldbody>
    <light pos="0 0 1.3"/>
    <geom name="floor" type="plane" size="40 40 40"/>
    <body name="torso" pos="0 0 0.75">
      <geom name="torso_geom" pos="0 0 0" size="0.25" type="sphere"/>
      <joint armature="0" margin="0.01" name="root" pos="0 0 0" type="free"/>
      <body name="front_left_leg" pos="0 0 0">
        <geom fromto="0.0 0.0 0.0 0.2 0.2 0.0" name="aux_1_geom" size="0.08" type="capsule"/>
        <body name="aux_1" pos="0.2 0.2 0">
          <joint axis="0 0 1" name="hip_1" pos="0.0 0.0 0.0" range="-30 30" type="hinge"/>
          <geom fromto="0.0 0.0 0.0 0.2 0.2 0.0" name="left_leg_geom" size="0.08" type="capsule"/>
        </body>
      </body>
      <body name="front_right_leg" pos="0 0 0">
        <geom fromto="0.0 0.0 0.0 -0.2 0.2 0.0" name="aux_2_geom" size="0.08" type="capsule"/>
      </body>
    </body>
    <body name="marker" pos="1 1 1">
      <geom name="marker_geom" size="0.05" type="sphere"/>
    </body>
  </worldbody>
</mujoco>"#;

#[test]
fn a_document_with_one_body_is_read() {
    let text = "<mujoco><worldbody><body name=\"torso\" pos=\"0 0 0.75\">\
                <geom name=\"g\" type=\"sphere\" size=\"0.25\"/></body></worldbody></mujoco>";
    let forest = parse_mujoco_config(text).unwrap();
    assert_eq!(forest.len(), 1);
    assert_eq!(forest[0].name, Some("torso".to_string()));
    assert_eq!(to_text(&forest[0].pos.x), "0");
    assert_eq!(to_text(&forest[0].pos.z), "0.75");
    assert_eq!(forest[0].geom.name, "g");
    assert_eq!(forest[0].geom.geom_type, "sphere");
    assert_eq!(to_text(&forest[0].geom.size), "0.25");
    assert!(forest[0].geom.endpoints.is_none());
    assert!(forest[0].geom.pos.is_none());
    assert!(forest[0].joint.is_none());
    assert!(forest[0].children.is_empty());
}

#[test]
fn a_whole_model_is_read() {
    let forest = parse_mujoco_config(ANT).unwrap();
    assert_eq!(names(&forest), vec!["torso", "marker"]);
    let torso = &forest[0];
    let joint = torso.joint.as_ref().unwrap();
    assert_eq!(joint.joint_type, "free");
    assert_eq!(joint.name, Some("root".to_string()));
    assert_eq!(to_text(joint.margin.as_ref().unwrap()), "0.01");
    assert!(joint.axis.is_none());
    assert!(joint.range.is_none());
    assert_eq!(to_text(&torso.geom.pos.as_ref().unwrap().z), "0");
    assert_eq!(names(&torso.children), vec!["front_left_leg", "front_right_leg"]);
    let leg = &torso.children[0];
    assert!(leg.joint.is_none());
    assert_eq!(leg.geom.geom_type, "capsule");
    let ends = leg.geom.endpoints.as_ref().unwrap();
    assert_eq!(to_text(&ends.to.x), "0.2");
    assert_eq!(names(&leg.children), vec!["aux_1"]);
    let hip = leg.children[0].joint.as_ref().unwrap();
    assert_eq!(hip.joint_type, "hinge");
    assert_eq!(to_text(&hip.axis.as_ref().unwrap().z), "1");
    assert_eq!(to_text(&hip.range.as_ref().unwrap().min), "-30");
    assert_eq!(to_text(&hip.range.as_ref().unwrap().max), "30");
    assert_eq!(to_text(&torso.children[1].geom.endpoints.as_ref().unwrap().to.x), "-0.2");
}

#[test]
fn copies_are_equal_to_what_they_copy() {
    let forest = parse_mujoco_config(ANT).unwrap();
    let copy: Vec<Body> = forest.iter().map(|b| b.clone()).collect();
    assert_eq!(copy, forest);
    assert_eq!(forest[0].geom.clone(), forest[0].geom);
    assert_eq!(forest[0].joint.clone(), forest[0].joint);
    let e = element("body", &[("pos", "1 2 3")], vec![ball("a"), element("body", &[], vec![ball("b")])]);
    assert_eq!(e.clone(), e);
    let n = node(Some(3), "geom", &[("name", "g")]);
    assert_eq!(n.clone(), n);
    let fault = ParseError::MalformedAttribute {
        element: ElementKind::Geom,
        attribute: AttributeKind::Size,
        raw_text: "x".to_string(),
    };
    assert_eq!(fault.clone(), fault);
}

#[test]
fn a_body_without_position_is_a_fault() {
    let text = "<mujoco><worldbody><body name=\"a\" pos=\"0 0 0\"><geom name=\"g\" type=\"sphere\" \
                size=\"1\"/></body><body name=\"b\"><geom name=\"g\" type=\"sphere\" size=\"1\"/>\
                </body></worldbody></mujoco>";
    assert_eq!(
        parse_mujoco_config(text),
        Err(ParseError::MissingAttribute {
            element: ElementKind::Body,
            attribute: AttributeKind::Position,
        })
    );
    assert_eq!(AttributeKind::Position.name(), "pos");
    assert_eq!(ElementKind::Body.tag(), "body");
}

#[test]
fn a_body_without_geometry_fails_the_whole_forest() {
    let good = element("body", &[("pos", "0 0 0")], vec![ball("g")]);
    let bare = element("body", &[("pos", "0 0 0")], vec![]);
    let also_good = element("body", &[("pos", "1 1 1")], vec![ball("h")]);
    let world = element("worldbody", &[], vec![good, bare, also_good]);
    assert_eq!(
        parse_parent_node(&world),
        Err(ParseError::MissingRequiredChild {
            element: ElementKind::Body,
            expected_tag: ElementKind::Geom,
        })
    );
}

#[test]
fn the_geometry_of_a_nested_body_is_not_that_of_its_parent() {
    let inner = element("body", &[("pos", "0 0 0")], vec![ball("g")]);
    let outer = element("body", &[("pos", "0 0 0")], vec![inner]);
    assert_eq!(
        parse_body(&outer),
        Err(ParseError::MissingRequiredChild {
            element: ElementKind::Body,
            expected_tag: ElementKind::Geom,
        })
    );
}

#[test]
fn a_nested_body_is_the_one_child() {
    let inner = element(
        "body",
        &[("name", "inner"), ("pos", "1 2 3")],
        vec![element("geom", &[("name", "ig"), ("type", "capsule"), ("size", "0.1")], vec![])],
    );
    let outer = element("body", &[("name", "outer"), ("pos", "0 0 0")], vec![ball("og"), inner]);
    let body = parse_body(&outer).unwrap();
    assert_eq!(body.children.len(), 1);
    let child = &body.children[0];
    assert_eq!(child.name, Some("inner".to_string()));
    assert_eq!(
        (to_text(&child.pos.x), to_text(&child.pos.y), to_text(&child.pos.z)),
        ("1".to_string(), "2".to_string(), "3".to_string())
    );
    assert_eq!(child.geom.name, "ig");
    assert_eq!(child.geom.geom_type, "capsule");
    assert_eq!(to_text(&child.geom.size), "0.1");
    assert!(child.children.is_empty());
}

#[test]
fn nesting_of_any_depth_gives_a_chain_of_that_length() {
    for depth in 1..8usize {
        let mut text = String::from("<mujoco><worldbody>");
        for level in 0..depth {
            text.push_str(&format!(
                "<body name=\"b{}\" pos=\"0 0 {}\"><geom name=\"g{}\" type=\"sphere\" size=\"1\"/>",
                level, level, level
            ));
        }
        for _ in 0..depth {
            text.push_str("</body>");
        }
        text.push_str("</worldbody></mujoco>");
        let forest = parse_mujoco_config(&text).unwrap();
        assert_eq!(forest.len(), 1);
        let mut body = &forest[0];
        let mut length = 1;
        assert_eq!(body.name, Some("b0".to_string()));
        while !body.children.is_empty() {
            assert_eq!(body.children.len(), 1);
            body = &body.children[0];
            assert_eq!(body.name, Some(format!("b{}", length)));
            assert_eq!(to_text(&body.pos.z), length.to_string());
            length += 1;
        }
        assert_eq!(length, depth);
    }
}

#[test]
fn root_bodies_keep_the_order_of_the_document() {
    let mut text = String::from("<mujoco><worldbody>");
    for name in ["c", "a", "d", "b"] {
        text.push_str(&format!(
            "<!-- {} --><body name=\"{}\" pos=\"0 0 0\"><geom name=\"g\" type=\"sphere\" \
             size=\"1\"/></body>\n<site/>",
            name, name
        ));
    }
    text.push_str("</worldbody></mujoco>");
    let forest = parse_mujoco_config(&text).unwrap();
    assert_eq!(names(&forest), vec!["c", "a", "d", "b"]);
}

#[test]
fn malformed_markup_is_a_malformed_document() {
    for text in ["", "<mujoco>", "<a></b>", "not markup", "<mujoco><worldbody></mujoco>"] {
        assert_eq!(parse_mujoco_config(text), Err(ParseError::MalformedDocument), "{:?}", text);
    }
}

#[test]
fn a_document_without_container_is_a_fault() {
    assert_eq!(
        parse_mujoco_config("<mujoco><body pos=\"0 0 0\"/></mujoco>"),
        Err(ParseError::MissingRequiredChild {
            element: ElementKind::Document,
            expected_tag: ElementKind::Worldbody,
        })
    );
}

#[test]
fn the_first_container_is_the_one_read() {
    let text = "<mujoco><worldbody><body name=\"first\" pos=\"0 0 0\"><geom name=\"g\" \
                type=\"sphere\" size=\"1\"/></body></worldbody><worldbody><body name=\"second\"/>\
                </worldbody></mujoco>";
    assert_eq!(names(&parse_mujoco_config(text).unwrap()), vec!["first"]);
    assert_eq!(parse_mujoco_config("<worldbody/>").unwrap().len(), 0);
}

#[test]
fn an_attribute_in_a_namespace_is_not_the_plain_one() {
    let text = "<mujoco xmlns:n=\"urn:n\"><worldbody><body n:pos=\"0 0 0\"><geom name=\"g\" \
                type=\"sphere\" size=\"1\"/></body></worldbody></mujoco>";
    assert_eq!(
        parse_mujoco_config(text),
        Err(ParseError::MissingAttribute {
            element: ElementKind::Body,
            attribute: AttributeKind::Position,
        })
    );
    let with_prefix = "<n:mujoco xmlns:n=\"urn:n\"><n:worldbody><n:body pos=\"0 0 0\" \
                       n:pos=\"x\"><n:geom name=\"g\" type=\"sphere\" size=\"1\"/></n:body>\
                       </n:worldbody></n:mujoco>";
    assert_eq!(parse_mujoco_config(with_prefix).unwrap().len(), 1);
}

#[test]
fn faults_are_reported_in_their_order() {
    let fault = |e: &Element| parse_body(e).unwrap_err();
    let missing = |element, attribute| ParseError::MissingAttribute { element, attribute };
    let malformed = |element, attribute, raw: &str| ParseError::MalformedAttribute {
        element,
        attribute,
        raw_text: raw.to_string(),
    };
    let bad_geom = element("geom", &[("name", "g"), ("type", "sphere")], vec![]);
    let bad_joint = element("joint", &[("pos", "0 0 0")], vec![]);
    let bad_child = element("body", &[], vec![]);
    // the position comes before everything else
    let e = element("body", &[("pos", "0 0")], vec![]);
    assert_eq!(fault(&e), malformed(ElementKind::Body, AttributeKind::Position, "0 0"));
    // then the joint, before the geometry
    let e = element(
        "body",
        &[("pos", "0 0 0")],
        vec![bad_child, bad_geom, bad_joint],
    );
    assert_eq!(fault(&e), missing(ElementKind::Joint, AttributeKind::Kind));
    // then the geometry, before the nested bodies
    let bad_geom = element("geom", &[("name", "g"), ("type", "sphere")], vec![]);
    let bad_child = element("body", &[], vec![]);
    let e = element("body", &[("pos", "0 0 0")], vec![bad_child, bad_geom]);
    assert_eq!(fault(&e), missing(ElementKind::Geom, AttributeKind::Size));
    // then the nested bodies
    let bad_child = element("body", &[], vec![]);
    let e = element("body", &[("pos", "0 0 0")], vec![bad_child, ball("g")]);
    assert_eq!(fault(&e), missing(ElementKind::Body, AttributeKind::Position));
}

#[test]
fn a_geometry_needs_name_kind_and_size() {
    let fault = |attributes: &[(&str, &str)]| parse_geom(&element("geom", attributes, vec![])).unwrap_err();
    let missing = |attribute| ParseError::MissingAttribute { element: ElementKind::Geom, attribute };
    let malformed = |attribute, raw: &str| ParseError::MalformedAttribute {
        element: ElementKind::Geom,
        attribute,
        raw_text: raw.to_string(),
    };
    assert_eq!(fault(&[]), missing(AttributeKind::Name));
    assert_eq!(fault(&[("name", "g")]), missing(AttributeKind::Kind));
    assert_eq!(fault(&[("name", "g"), ("type", "sphere")]), missing(AttributeKind::Size));
    assert_eq!(
        fault(&[("name", "g"), ("type", "sphere"), ("size", "big")]),
        malformed(AttributeKind::Size, "big")
    );
    assert_eq!(
        fault(&[("name", "g"), ("type", "plane"), ("size", "40 40 40")]),
        malformed(AttributeKind::Size, "40 40 40")
    );
    assert_eq!(fault(&[("fromto", "0 0 0 0 0 1")]), malformed(AttributeKind::Endpoints, "0 0 0 0 0 1"));
    assert_eq!(
        fault(&[("fromto", "0.0 0.0 0.0 0.0 0.0 1.0"), ("pos", "x")]),
        malformed(AttributeKind::Position, "x")
    );
    let g = parse_geom(&element(
        "geom",
        &[("size", "0.5"), ("type", "box"), ("name", "crate"), ("pos", "1 2 3"), ("rgba", "1 0 0 1")],
        vec![],
    ))
    .unwrap();
    assert_eq!(g.geom_type, "box");
    assert_eq!(g.name, "crate");
    assert_eq!(to_text(&g.pos.unwrap().y), "2");
}

#[test]
fn a_joint_needs_position_and_kind() {
    let fault = |attributes: &[(&str, &str)]| parse_joint(&element("joint", attributes, vec![])).unwrap_err();
    let missing = |attribute| ParseError::MissingAttribute { element: ElementKind::Joint, attribute };
    let malformed = |attribute, raw: &str| ParseError::MalformedAttribute {
        element: ElementKind::Joint,
        attribute,
        raw_text: raw.to_string(),
    };
    assert_eq!(fault(&[]), missing(AttributeKind::Position));
    assert_eq!(fault(&[("type", "hinge")]), missing(AttributeKind::Position));
    assert_eq!(fault(&[("pos", "0 0 0")]), missing(AttributeKind::Kind));
    assert_eq!(fault(&[("pos", "0 0"), ("type", "hinge")]), malformed(AttributeKind::Position, "0 0"));
    assert_eq!(
        fault(&[("pos", "0 0 0"), ("type", "hinge"), ("range", "1"), ("axis", "x"), ("margin", "y")]),
        malformed(AttributeKind::Range, "1")
    );
    assert_eq!(
        fault(&[("pos", "0 0 0"), ("type", "hinge"), ("axis", "x"), ("margin", "y")]),
        malformed(AttributeKind::Axis, "x")
    );
    assert_eq!(
        fault(&[("pos", "0 0 0"), ("type", "hinge"), ("margin", "y")]),
        malformed(AttributeKind::Margin, "y")
    );
    let j = parse_joint(&element("joint", &[("pos", "0 0 0"), ("type", "none")], vec![])).unwrap();
    assert_eq!(j.joint_type, "none");
    assert!(j.name.is_none() && j.axis.is_none() && j.range.is_none() && j.margin.is_none());
}

#[test]
fn attributes_and_children_are_found_by_name() {
    let mut e = element("body", &[("pos", "1"), ("pos", "2")], vec![ball("a"), ball("b")]);
    assert_eq!(e.attribute("pos"), Some("1"));
    assert_eq!(e.attribute("name"), None);
    assert_eq!(e.child("geom").unwrap().attribute("name"), Some("a"));
    assert!(e.child("joint").is_none());
    e.attributes[0].namespace = Some("urn:n".to_string());
    assert_eq!(e.attribute("pos"), Some("2"));
}

#[test]
fn a_list_of_nodes_is_a_tree_or_a_fault() {
    let good = vec![
        node(None, "", &[]),
        node(Some(0), "mujoco", &[]),
        node(Some(1), "worldbody", &[]),
        node(Some(2), "body", &[("pos", "0 0 0"), ("name", "a")]),
        node(Some(3), "geom", &[("name", "g"), ("type", "sphere"), ("size", "1")]),
        node(Some(3), "body", &[("pos", "0 0 1"), ("name", "a1")]),
        node(Some(5), "geom", &[("name", "g"), ("type", "sphere"), ("size", "1")]),
        node(Some(3), "body", &[("pos", "0 0 2"), ("name", "a2")]),
        node(Some(7), "geom", &[("name", "g"), ("type", "sphere"), ("size", "1")]),
        node(Some(2), "body", &[("pos", "0 0 0"), ("name", "b")]),
        node(Some(9), "geom", &[("name", "g"), ("type", "sphere"), ("size", "1")]),
        node(Some(1), "option", &[]),
    ];
    assert!(check_listing(&good));
    let forest = parse_nodes(good.clone()).unwrap();
    assert_eq!(names(&forest), vec!["a", "b"]);
    assert_eq!(names(&forest[0].children), vec!["a1", "a2"]);
    let tree = build_tree(good.clone(), 3);
    assert_eq!(tree.tag, "body");
    let tags: Vec<&str> = tree.children.iter().map(|c| c.tag.as_str()).collect();
    assert_eq!(tags, vec!["geom", "body", "body"]);
    assert_eq!(tree.children[2].attribute("name"), Some("a2"));
    assert_eq!(tree.children[2].children.len(), 1);

    let mut forward = good.clone();
    forward[4].parent = Some(4);
    assert!(!check_listing(&forward));
    assert_eq!(parse_nodes(forward), Err(ParseError::MalformedDocument));
    let mut two_roots = good.clone();
    two_roots[9].parent = None;
    assert_eq!(parse_nodes(two_roots), Err(ParseError::MalformedDocument));
    let mut rooted = good.clone();
    rooted[0].parent = Some(0);
    assert_eq!(parse_nodes(rooted), Err(ParseError::MalformedDocument));
    assert_eq!(parse_nodes(vec![]), Err(ParseError::MalformedDocument));
    assert_eq!(
        parse_nodes(vec![node(None, "", &[]), node(Some(0), "mujoco", &[])]),
        Err(ParseError::MissingRequiredChild {
            element: ElementKind::Document,
            expected_tag: ElementKind::Worldbody,
        })
    );
}
