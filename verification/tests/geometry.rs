use mujoco_model::decimal::Decimal;
use mujoco_model::document::parse_mujoco_config;
use mujoco_model::error::{AttributeKind, ElementKind, ParseError};
use mujoco_model::geometry::{Collider, Orientation, Shape};
use mujoco_model::grammar::{parse_fromto, parse_number, to_text};
use mujoco_model::model::Geom;
use mujoco_model::vector::Vector3;

fn number(text: &str) -> Decimal {
    parse_number(text, ElementKind::Geom, AttributeKind::Size).unwrap()
}

fn float(d: &Decimal) -> f64 {
    to_text(d).parse().unwrap()
}

fn capsule(fromto: &str, size: &str) -> Geom {
    Geom {
        endpoints: Some(parse_fromto(fromto, ElementKind::Geom, AttributeKind::Endpoints).unwrap()),
        pos: None,
        name: "g".to_string(),
        size: number(size),
        geom_type: "capsule".to_string(),
    }
}

fn sphere(size: &str) -> Geom {
    Geom {
        endpoints: None,
        pos: None,
        name: "g".to_string(),
        size: number(size),
        geom_type: "sphere".to_string(),
    }
}

#[test]
fn decimal_arithmetic_is_exact() {
    let a = number("1.5");
    let b = number("-0.25");
    assert_eq!(to_text(&a.minus(&b)), "1.75");
    assert_eq!(to_text(&a.plus(&b)), "1.25");
    assert_eq!(to_text(&b.minus(&a)), "-1.75");
    assert_eq!(to_text(&a.times(&b)), "-0.375");
    assert_eq!(to_text(&a.halved()), "0.75");
    assert_eq!(to_text(&number("0.1").times(&number("0.1"))), "0.01");
    assert_eq!(to_text(&number("999").plus(&number("1"))), "1000");
    assert_eq!(to_text(&number("1000").minus(&number("1"))), "999");
    assert_eq!(to_text(&number("-0").minus(&number("0.0"))), "0.0");
    assert_eq!(to_text(&number("12.5").times(&number("12.5"))), "156.25");
}

#[test]
fn capsule_along_the_third_document_axis_is_upright() {
    let g = capsule("0.0 0.0 0.0 0.0 0.0 2.0", "0.1");
    match g.shape().unwrap() {
        Shape::Capsule3d { radius, length_squared } => {
            assert_eq!(float(&radius), 0.1);
            assert_eq!(float(&length_squared).sqrt(), 2.0);
        }
        other => panic!("not a capsule: {:?}", other),
    }
    assert_eq!(g.rotation(), Orientation::Identity);
    let at = g.postion();
    assert_eq!((float(&at.x), float(&at.y), float(&at.z)), (0.0, 1.0, 0.0));
}

#[test]
fn capsule_along_another_axis_is_turned_to_its_direction() {
    let g = capsule("0.0 0.0 0.0 0.2 0.2 0.0", "0.08");
    let direction = match g.rotation() {
        Orientation::Arc { direction } => direction,
        other => panic!("not turned: {:?}", other),
    };
    let d = [float(&direction.x), float(&direction.y), float(&direction.z)];
    assert_eq!(d, [0.2, 0.0, 0.2]);
    let length = (d[0] * d[0] + d[1] * d[1] + d[2] * d[2]).sqrt();
    let to = [d[0] / length, d[1] / length, d[2] / length];
    let up = [0.0, 1.0, 0.0];
    // the rotation that carries `up` onto `to`, as a unit quaternion
    let dot = up[0] * to[0] + up[1] * to[1] + up[2] * to[2];
    let cross = [
        up[1] * to[2] - up[2] * to[1],
        up[2] * to[0] - up[0] * to[2],
        up[0] * to[1] - up[1] * to[0],
    ];
    let norm = (cross[0] * cross[0] + cross[1] * cross[1] + cross[2] * cross[2]
        + (1.0 + dot) * (1.0 + dot))
        .sqrt();
    let q = [cross[0] / norm, cross[1] / norm, cross[2] / norm, (1.0 + dot) / norm];
    assert!((q[3] - 1.0).abs() > 1e-6);
    // apply it to `up` again
    let u = [q[0], q[1], q[2]];
    let uv = [
        u[1] * up[2] - u[2] * up[1],
        u[2] * up[0] - u[0] * up[2],
        u[0] * up[1] - u[1] * up[0],
    ];
    let uuv = [
        u[1] * uv[2] - u[2] * uv[1],
        u[2] * uv[0] - u[0] * uv[2],
        u[0] * uv[1] - u[1] * uv[0],
    ];
    for k in 0..3 {
        let turned = up[k] + 2.0 * (q[3] * uv[k] + uuv[k]);
        assert!((turned - to[k]).abs() < 1e-12);
    }
}

#[test]
fn sphere_without_position_sits_at_the_origin() {
    let g = sphere("0.25");
    assert_eq!(g.postion(), Vector3::origin());
    assert_eq!(g.rotation(), Orientation::Identity);
    match g.shape().unwrap() {
        Shape::Sphere { radius } => assert_eq!(to_text(&radius), "0.25"),
        other => panic!("not a sphere: {:?}", other),
    }
    match g.collider().unwrap() {
        Collider::Sphere { radius } => assert_eq!(to_text(&radius), "0.25"),
        other => panic!("not a sphere: {:?}", other),
    }
}

#[test]
fn derived_values_can_be_copied() {
    let g = capsule("0.0 0.0 0.0 0.2 0.2 0.0", "0.08");
    let shape = g.shape().unwrap();
    assert_eq!(shape.clone(), shape);
    let collider = g.collider().unwrap();
    assert_eq!(collider.clone(), collider);
    let mass = g.mass_properties_bundle().unwrap();
    assert_eq!(mass.clone(), mass);
    let placed = g.transform();
    assert_eq!(placed.clone(), placed);
    assert_eq!(placed.rotation, g.rotation());
    assert_eq!(placed.translation, g.postion());
    assert_eq!(to_text(&placed.translation.x), "0.10");
    assert_eq!(to_text(&placed.translation.y), "0.00");
    assert_eq!(to_text(&placed.translation.z), "0.10");
}

#[test]
fn explicit_position_wins_and_is_remapped() {
    let mut g = capsule("0.0 0.0 0.0 0.0 0.0 2.0", "0.1");
    g.pos = Some(Vector3 { x: number("1"), y: number("2"), z: number("3") });
    let at = g.postion();
    assert_eq!((to_text(&at.x), to_text(&at.y), to_text(&at.z)), ("1".into(), "3".into(), "2".into()));
}

#[test]
fn capsule_without_end_points_has_the_default_length() {
    let mut g = sphere("0.3");
    g.geom_type = "capsule".to_string();
    match g.shape().unwrap() {
        Shape::Capsule3d { radius, length_squared } => {
            assert_eq!(to_text(&radius), "0.3");
            assert_eq!(to_text(&length_squared), "1");
        }
        other => panic!("not a capsule: {:?}", other),
    }
    assert_eq!(g.rotation(), Orientation::Identity);
    assert_eq!(g.postion(), Vector3::origin());
    let mass = g.mass_properties_bundle().unwrap();
    assert_eq!(to_text(&mass.density), "1");
}

#[test]
fn another_kind_has_no_shape() {
    let mut g = sphere("0.3");
    g.geom_type = "box".to_string();
    let expected = ParseError::UnsupportedGeometryKind { kind: "box".to_string() };
    assert_eq!(g.shape(), Err(expected.clone()));
    assert_eq!(g.collider(), Err(expected.clone()));
    assert_eq!(g.mass_properties_bundle().err(), Some(expected));
    assert_eq!(g.rotation(), Orientation::Identity);
    assert_eq!(g.postion(), Vector3::origin());
}

#[test]
fn body_transform_exchanges_the_second_and_third_axis() {
    let text = "<mujoco><worldbody><body pos=\"1 2 3\">\
                <geom name=\"g\" type=\"sphere\" size=\"0.25\"/></body></worldbody></mujoco>";
    let forest = parse_mujoco_config(text).unwrap();
    let t = forest[0].transform();
    assert_eq!(
        (to_text(&t.translation.x), to_text(&t.translation.y), to_text(&t.translation.z)),
        ("1".to_string(), "3".to_string(), "2".to_string())
    );
    assert_eq!(t.rotation, Orientation::Identity);
}
