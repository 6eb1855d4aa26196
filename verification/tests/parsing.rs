use mujoco_model::decimal::Decimal;
use mujoco_model::error::{AttributeKind, ElementKind, ParseError};
use mujoco_model::grammar::{
    parse_3_vec, parse_fields, parse_fromto, parse_literal, parse_number, parse_range, to_text,
    Gap, NumberForm,
};
use mujoco_model::text::{chars_of, digit_of, find_first, whitespace, CharClass};

fn malformed(raw: &str) -> ParseError {
    ParseError::MalformedAttribute {
        element: ElementKind::Body,
        attribute: AttributeKind::Position,
        raw_text: raw.to_string(),
    }
}

fn vec3(text: &str) -> Result<(String, String, String), ParseError> {
    parse_3_vec(text, ElementKind::Body, AttributeKind::Position)
        .map(|v| (to_text(&v.x), to_text(&v.y), to_text(&v.z)))
}

fn texts(a: &str, b: &str, c: &str) -> (String, String, String) {
    (a.to_string(), b.to_string(), c.to_string())
}

fn number(text: &str) -> Result<Decimal, ParseError> {
    parse_number(text, ElementKind::Body, AttributeKind::Position)
}

#[test]
fn three_vector_fields_are_read_exactly() {
    let v = parse_3_vec("1.5 -2 +.25", ElementKind::Body, AttributeKind::Position).unwrap();
    assert!(!v.x.is_negative());
    assert_eq!(v.x.digits(), &vec![1u8, 5]);
    assert_eq!(v.x.scale(), 1);
    assert!(v.y.is_negative());
    assert_eq!(v.y.digits(), &vec![2u8]);
    assert_eq!(v.y.scale(), 0);
    assert!(!v.z.is_negative());
    assert_eq!(v.z.digits(), &vec![2u8, 5]);
    assert_eq!(v.z.scale(), 2);
    assert_eq!(to_text(&v.x), "1.5");
    assert_eq!(to_text(&v.y), "-2");
    assert_eq!(to_text(&v.z), ".25");
}

#[test]
fn three_vector_round_trips_through_its_text() {
    for (a, b, c) in [("0", "0", "0.75"), ("-1", "1.5", "2"), ("-0.2", ".5", "007"), ("-0", "0.0", "10")] {
        let text = format!("{} {} {}", a, b, c);
        let v = parse_3_vec(&text, ElementKind::Body, AttributeKind::Position).unwrap();
        let again = format!("{} {} {}", to_text(&v.x), to_text(&v.y), to_text(&v.z));
        assert_eq!(again, text);
        let w = parse_3_vec(&again, ElementKind::Body, AttributeKind::Position).unwrap();
        assert_eq!(v, w);
    }
}

#[test]
fn three_vector_values_agree_with_floats() {
    let v = parse_3_vec("0.1 -2.5 +3", ElementKind::Body, AttributeKind::Position).unwrap();
    let x: f32 = to_text(&v.x).parse().unwrap();
    let y: f32 = to_text(&v.y).parse().unwrap();
    let z: f32 = to_text(&v.z).parse().unwrap();
    assert_eq!((x, y, z), (0.1f32, -2.5f32, 3.0f32));
}

#[test]
fn formatted_floats_round_trip_through_the_grammar() {
    let mut state: u64 = 0x2545_f491_4f6c_dd1d;
    let mut next = || {
        state ^= state << 13;
        state ^= state >> 7;
        state ^= state << 17;
        f32::from_bits((state >> 16) as u32)
    };
    let mut tried = 0;
    while tried < 500 {
        let (x, y, z) = (next(), next(), next());
        if !(x.is_finite() && y.is_finite() && z.is_finite()) {
            continue;
        }
        tried += 1;
        let text = format!("{} {} {}", x, y, z);
        let v = parse_3_vec(&text, ElementKind::Body, AttributeKind::Position).unwrap();
        let back: (f32, f32, f32) = (
            to_text(&v.x).parse().unwrap(),
            to_text(&v.y).parse().unwrap(),
            to_text(&v.z).parse().unwrap(),
        );
        assert_eq!(
            (back.0.to_bits(), back.1.to_bits(), back.2.to_bits()),
            (x.to_bits(), y.to_bits(), z.to_bits())
        );
    }
    let edges =
        [f32::MAX, f32::MIN, f32::MIN_POSITIVE, f32::from_bits(1), -f32::from_bits(1), 0.0, -0.0];
    for x in edges {
        let text = format!("{} 0 0", x);
        let v = parse_3_vec(&text, ElementKind::Body, AttributeKind::Position).unwrap();
        assert_eq!(to_text(&v.x).parse::<f32>().unwrap().to_bits(), x.to_bits());
    }
}

#[test]
fn two_fields_are_not_a_three_vector() {
    assert_eq!(vec3("1 2"), Err(malformed("1 2")));
}

#[test]
fn empty_text_is_not_a_three_vector() {
    assert_eq!(vec3(""), Err(malformed("")));
}

#[test]
fn three_vector_rejects_what_the_pattern_rejects() {
    for text in [
        "1 2 3 4", " 1 2 3", "1 2 3 ", "1  2 3", "1\t2 3", "1. 2 3", "1 2 .", "a b c", "1e5 2 3",
        "1,2,3", "--1 2 3", "+-1 2 3", "1.2.3 4 5", "1 2 3\n", "inf 0 0", "NaN 0 0", "١ ٢ ٣",
    ] {
        assert_eq!(vec3(text), Err(malformed(text)), "{:?}", text);
    }
}

#[test]
fn three_vector_accepts_what_the_pattern_accepts() {
    assert_eq!(vec3("1 2 3"), Ok(texts("1", "2", "3")));
    assert_eq!(vec3("+1 -2 .3"), Ok(texts("1", "-2", ".3")));
    assert_eq!(vec3("-.5 0.50 000"), Ok(texts("-.5", "0.50", "000")));
    assert_eq!(vec3("-0 +0 0.0"), Ok(texts("-0", "0", "0.0")));
}

#[test]
fn range_is_two_fields() {
    let r = parse_range("-30 30.5", ElementKind::Joint, AttributeKind::Range).unwrap();
    assert_eq!(to_text(&r.min), "-30");
    assert_eq!(to_text(&r.max), "30.5");
    for text in ["", "1", "1 2 3", "1  2", "1 2 ", "a b"] {
        assert_eq!(
            parse_range(text, ElementKind::Joint, AttributeKind::Range),
            Err(ParseError::MalformedAttribute {
                element: ElementKind::Joint,
                attribute: AttributeKind::Range,
                raw_text: text.to_string(),
            })
        );
    }
}

#[test]
fn end_points_are_six_strict_fields() {
    let s = parse_fromto("0.0 0.0 0.0 0.2 -0.2 0.0", ElementKind::Geom, AttributeKind::Endpoints)
        .unwrap();
    assert_eq!(to_text(&s.from.x), "0.0");
    assert_eq!(to_text(&s.to.x), "0.2");
    assert_eq!(to_text(&s.to.y), "-0.2");
    assert_eq!(to_text(&s.to.z), "0.0");
    let wide = parse_fromto(
        "0.0  0.0\t0.0\n0.2 \u{a0} 0.2 0.0",
        ElementKind::Geom,
        AttributeKind::Endpoints,
    );
    assert!(wide.is_ok());
}

#[test]
fn end_points_reject_what_the_pattern_rejects() {
    for text in [
        "",
        "0 0 0 0 0 2",
        "0.0 0.0 0.0 0.0 0.0 2",
        "0.0 0.0 0.0 0.0 0.0",
        "0.0 0.0 0.0 0.0 0.0 2.0 1.0",
        " 0.0 0.0 0.0 0.0 0.0 2.0",
        "0.0 0.0 0.0 0.0 0.0 2.0 ",
        "+0.1 0.0 0.0 0.0 0.0 2.0",
        ".5 0.0 0.0 0.0 0.0 2.0",
        "0. 0.0 0.0 0.0 0.0 2.0",
    ] {
        assert_eq!(
            parse_fromto(text, ElementKind::Geom, AttributeKind::Endpoints),
            Err(ParseError::MalformedAttribute {
                element: ElementKind::Geom,
                attribute: AttributeKind::Endpoints,
                raw_text: text.to_string(),
            }),
            "{:?}",
            text
        );
    }
}

#[test]
fn a_number_is_one_plain_literal() {
    assert_eq!(to_text(&number("0.08").unwrap()), "0.08");
    assert_eq!(to_text(&number("+7").unwrap()), "7");
    for text in ["", "-", "+", ".", "1.", "1 ", " 1", "1e3", "0x10", "1_000", "inf"] {
        assert_eq!(number(text), Err(malformed(text)), "{:?}", text);
    }
}

#[test]
fn a_number_beyond_the_float_range_is_malformed() {
    let largest = "340282346638528859811704183484516925440";
    assert!(number(largest).is_ok());
    assert!(number(&format!("-{}.000", largest)).is_ok());
    assert!(number(&format!("{}", f32::MAX)).is_ok());
    let last = "340282356779733661637539395458142568447.999";
    assert!(number(last).is_ok());
    assert_eq!(last.parse::<f32>().unwrap(), f32::MAX);
    let first = "340282356779733661637539395458142568448";
    assert_eq!(number(first), Err(malformed(first)));
    assert!(first.parse::<f32>().unwrap().is_infinite());
    let huge = format!("-1{}", "0".repeat(40));
    assert_eq!(number(&huge), Err(malformed(&huge)));
    let long_but_small = format!("0.1{}", "0".repeat(300));
    assert!(number(&long_but_small).is_ok());
    let long_zero = format!("-{}.{}", "0".repeat(100), "0".repeat(400));
    assert!(number(&long_zero).is_ok());
}

#[test]
fn a_number_below_the_float_range_is_malformed() {
    let half_step = "700649232162408535461864791644958065640130970938257885878534141944895541342930300743319094181060791015625";
    let smallest = format!(
        "0.{}{}",
        "0".repeat(44),
        "140129846432481707092372958328991613128026194187651577175706828388979108268586060148663818836212158203125"
    );
    assert!(number(&smallest).is_ok());
    assert_eq!(smallest.parse::<f32>().unwrap(), f32::from_bits(1));
    let lost = format!("0.{}{}", "0".repeat(45), half_step);
    assert_eq!(number(&lost), Err(malformed(&lost)));
    assert_eq!(lost.parse::<f32>().unwrap(), 0.0);
    let kept = format!("0.{}{}1", "0".repeat(45), half_step);
    assert!(number(&kept).is_ok());
    assert_eq!(kept.parse::<f32>().unwrap(), f32::from_bits(1));
    let tiny = format!("-0.{}1", "0".repeat(60));
    assert_eq!(number(&tiny), Err(malformed(&tiny)));
    let text = format!("0 0 {}", tiny);
    assert_eq!(vec3(&text), Err(malformed(&text)));
}

#[test]
fn literals_are_read_from_a_stretch_of_text() {
    let text = chars_of("ab-12.50cd");
    let d = parse_literal(&text[2..8], NumberForm::Plain).unwrap();
    assert!(d.is_negative());
    assert_eq!(d.digits(), &vec![1u8, 2, 5, 0]);
    assert_eq!(d.scale(), 2);
    assert!(parse_literal(&text[2..9], NumberForm::Plain).is_none());
    assert!(parse_literal(&text[2..2], NumberForm::Plain).is_none());
    assert!(parse_literal(&text[3..5], NumberForm::Strict).is_none());
    assert!(parse_literal(&text[3..8], NumberForm::Strict).is_some());
}

#[test]
fn fields_are_read_in_their_order() {
    let text = chars_of("1 2 3 4");
    let f = parse_fields(&text, 4, NumberForm::Plain, Gap::Space).unwrap();
    let got: Vec<String> = f.iter().map(to_text).collect();
    assert_eq!(got, vec!["1", "2", "3", "4"]);
    assert!(parse_fields(&text, 3, NumberForm::Plain, Gap::Space).is_none());
    assert!(parse_fields(&text, 5, NumberForm::Plain, Gap::Space).is_none());
    assert!(parse_fields(&text, 0, NumberForm::Plain, Gap::Space).is_none());
    assert!(parse_fields(&text, 4, NumberForm::Strict, Gap::Whitespace).is_none());
}

#[test]
fn characters_are_classed() {
    assert_eq!(digit_of('0'), Some(0));
    assert_eq!(digit_of('9'), Some(9));
    assert_eq!(digit_of('a'), None);
    assert_eq!(digit_of('٣'), None);
    for c in ['\t', '\n', '\u{b}', '\u{c}', '\r', ' ', '\u{85}', '\u{a0}', '\u{1680}', '\u{2000}',
        '\u{200a}', '\u{2028}', '\u{2029}', '\u{202f}', '\u{205f}', '\u{3000}']
    {
        assert!(whitespace(c), "{:?}", c);
        assert!(c.is_whitespace());
    }
    for c in ['a', '0', '.', '\u{200b}', '\u{8}', '\u{e}', '\u{1f}', '\u{feff}'] {
        assert!(!whitespace(c), "{:?}", c);
        assert!(!c.is_whitespace());
    }
    let text = chars_of("12.5 x");
    assert_eq!(find_first(&text, 0, CharClass::Dot), 2);
    assert_eq!(find_first(&text, 0, CharClass::Space), 4);
    assert_eq!(find_first(&text, 4, CharClass::NotWhitespace), 5);
    assert_eq!(find_first(&text, 3, CharClass::Dot), 6);
    assert_eq!(find_first(&text, 0, CharClass::NotDigit), 2);
    assert!(CharClass::Whitespace.test(' '));
    assert!(CharClass::NotDigit.test('.') && !CharClass::NotDigit.test('7'));
}

#[test]
fn decimals_are_put_together_from_parts() {
    let d = Decimal::from_parts(true, vec![0, 5], 1).unwrap();
    assert_eq!(to_text(&d), "-0.5");
    assert!(Decimal::from_parts(false, vec![], 0).is_none());
    assert!(Decimal::from_parts(false, vec![1], 2).is_none());
    assert!(Decimal::from_parts(false, vec![1, 10], 0).is_none());
    assert_eq!(to_text(&Decimal::zero()), "0");
    assert_eq!(to_text(&Decimal::one()), "1");
    assert!(Decimal::zero().is_zero());
    assert!(!Decimal::zero().is_positive());
    assert!(Decimal::one().is_positive());
    assert!(!d.is_positive());
    assert_eq!(to_text(&d.negated()), "0.5");
    assert_eq!(d.clone(), d);
}
