//! The grammar of numeric attributes: decimal literals, and lists of them
//! with separators between.

use crate::decimal::{Decimal, DecimalView};
use crate::digits::all_decimal;
use crate::error::{AttributeKind, ElementKind, ParseError, ParseErrorView};
use crate::text::{
    chars_of, digit_char, digit_chars, digit_values, find_first, first_where, is_digit,
    is_whitespace, lemma_first_where, lemma_first_where_lands, string_of, CharClass,
};
use crate::vector::{Interval, IntervalView, Segment, SegmentView, Vector3, Vector3View};
use vstd::prelude::*;
use vstd::slice::slice_subrange;

verus! {

/// The two forms of decimal literal that attributes are written in.
#[derive(Clone, Copy, Debug, PartialEq, Eq, Structural)]
pub enum NumberForm {
    /// An optional sign, `+` or `-`; then either digits alone, or digits (or
    /// none), a point, and digits: `7`, `-1.5`, `+.25`.
    Plain,
    /// An optional `-`; then digits, a point, and digits: `0.0`, `-12.5`.
    Strict,
}

/// What stands between two fields of a list.
#[derive(Clone, Copy, Debug, PartialEq, Eq, Structural)]
pub enum Gap {
    /// Exactly one space character.
    Space,
    /// One or more white space characters.
    Whitespace,
}

impl Gap {
    /// The characters that end a field.
    pub open spec fn class(self) -> CharClass {
        match self {
            Gap::Space => CharClass::Space,
            Gap::Whitespace => CharClass::Whitespace,
        }
    }
}

/// Whether `t` begins with a sign that `form` accepts.
pub open spec fn has_sign(t: Seq<char>, form: NumberForm) -> bool {
    t.len() > 0 && (t[0] == '-' || (form is Plain && t[0] == '+'))
}

/// The number that the literal `t` denotes, if `t` is a literal of the form
/// `form`. Behind the sign, if there is one, digits are read as far as they
/// go. Either the text ends there, and at least one digit was read; or a
/// point stands there, and behind it at least one digit and nothing but
/// digits up to the end. The strict form asks for the point, and for a digit
/// before it.
pub open spec fn literal_value(t: Seq<char>, form: NumberForm) -> Option<DecimalView> {
    let start: int = if has_sign(t, form) {
        1
    } else {
        0
    };
    let negative = has_sign(t, form) && t[0] == '-';
    let point = first_where(t, start, CharClass::NotDigit);
    let end = first_where(t, point + 1, CharClass::NotDigit);
    if point == t.len() {
        if form is Plain && point > start {
            Some(DecimalView { negative, digits: digit_values(t.subrange(start, point)), scale: 0 })
        } else {
            None
        }
    } else if t[point] == '.' && end == t.len() && end > point + 1 && (form is Plain || point
        > start) {
        Some(
            DecimalView {
                negative,
                digits: digit_values(t.subrange(start, point) + t.subrange(point + 1, end)),
                scale: (end - point - 1) as nat,
            },
        )
    } else {
        None
    }
}

/// The number that the field `t` of an attribute denotes: what the literal
/// denotes, if `t` is a literal of the form `form` and the number lies in the
/// range of a 32-bit float.
pub open spec fn number_value(t: Seq<char>, form: NumberForm) -> Option<DecimalView> {
    match literal_value(t, form) {
        Some(d) => if d.in_float_range() {
            Some(d)
        } else {
            None
        },
        None => None,
    }
}

/// Where the gap that begins at `at` ends.
pub open spec fn gap_end(text: Seq<char>, at: int, gap: Gap) -> int {
    match gap {
        Gap::Space => at + 1,
        Gap::Whitespace => first_where(text, at, CharClass::NotWhitespace),
    }
}

/// The numbers that `text` lists from position `from` on, if what stands there
/// is exactly `count` fields of the form `form` with one gap between each
/// two, and nothing before, between or behind them.
pub open spec fn fields_from(
    text: Seq<char>,
    from: int,
    count: nat,
    form: NumberForm,
    gap: Gap,
) -> Option<Seq<DecimalView>>
    decreases count,
{
    if count == 0 {
        None
    } else {
        let end = first_where(text, from, gap.class());
        match number_value(text.subrange(from, end), form) {
            None => None,
            Some(first) => if count == 1 {
                if end == text.len() {
                    Some(seq![first])
                } else {
                    None
                }
            } else if end >= text.len() {
                None
            } else {
                match fields_from(text, gap_end(text, end, gap), (count - 1) as nat, form, gap) {
                    None => None,
                    Some(rest) => Some(seq![first] + rest),
                }
            },
        }
    }
}

/// The contents of a run of decimals.
pub open spec fn decimal_views(s: Seq<Decimal>) -> Seq<DecimalView> {
    Seq::new(s.len(), |i: int| s[i]@)
}

/// Puts the values of the digits that stand in `t` from `from` up to `to`
/// behind those in `out`.
fn copy_digits(t: &[char], from: usize, to: usize, out: &mut Vec<u8>)
    requires
        from <= to <= t@.len(),
        forall|j: int| from <= j < to ==> is_digit(#[trigger] t@[j]),
        all_decimal(old(out)@),
    ensures
        final(out)@ == old(out)@ + digit_values(t@.subrange(from as int, to as int)),
        all_decimal(final(out)@),
{
    let ghost before = out@;
    let mut i: usize = from;
    assert(before + digit_values(t@.subrange(from as int, i as int)) =~= before);
    while i < to
        invariant
            from <= i <= to <= t@.len(),
            forall|j: int| from <= j < to ==> is_digit(#[trigger] t@[j]),
            out@ == before + digit_values(t@.subrange(from as int, i as int)),
            all_decimal(out@),
        decreases to - i,
    {
        let c = t[i];
        assert(is_digit(t@[i as int]));
        let d: u8 = (c as u32 - '0' as u32) as u8;
        out.push(d);
        assert(before + digit_values(t@.subrange(from as int, i + 1)) =~= (before + digit_values(
            t@.subrange(from as int, i as int),
        )).push(d));
        i += 1;
    }
}

/// Reads a literal.
pub fn parse_literal(t: &[char], form: NumberForm) -> (r: Option<Decimal>)
    ensures
        match r {
            Some(d) => literal_value(t@, form) == Some(d@),
            None => literal_value(t@, form) is None,
        },
{
    let n: usize = t.len();
    let mut start: usize = 0;
    let mut negative = false;
    if n > 0 {
        let c = t[0];
        if c == '-' {
            negative = true;
            start = 1;
        } else if c == '+' {
            match form {
                NumberForm::Plain => {
                    start = 1;
                },
                NumberForm::Strict => {},
            }
        }
    }
    assert(start == if has_sign(t@, form) {
        1int
    } else {
        0
    });
    assert(negative == (has_sign(t@, form) && t@[0] == '-'));
    let point = find_first(t, start, CharClass::NotDigit);
    proof {
        lemma_first_where_lands(t@, start as int, CharClass::NotDigit);
    }
    let mut digits: Vec<u8> = Vec::new();
    if point == n {
        match form {
            NumberForm::Strict => {
                return None;
            },
            NumberForm::Plain => {},
        }
        if point == start {
            return None;
        }
        copy_digits(t, start, point, &mut digits);
        return Some(Decimal::assemble(negative, digits, 0));
    }
    if t[point] != '.' {
        return None;
    }
    let end = find_first(t, point + 1, CharClass::NotDigit);
    proof {
        lemma_first_where_lands(t@, point + 1, CharClass::NotDigit);
    }
    if end != n || end == point + 1 {
        return None;
    }
    match form {
        NumberForm::Strict => {
            if point == start {
                return None;
            }
        },
        NumberForm::Plain => {},
    }
    copy_digits(t, start, point, &mut digits);
    copy_digits(t, point + 1, end, &mut digits);
    proof {
        let whole = digit_values(t@.subrange(start as int, point as int));
        let fraction = digit_values(t@.subrange(point + 1, end as int));
        assert(Seq::<u8>::empty() + whole =~= whole);
        assert(whole + fraction =~= digit_values(
            t@.subrange(start as int, point as int) + t@.subrange(point + 1, end as int),
        ));
    }
    Some(Decimal::assemble(negative, digits, end - point - 1))
}

/// Reads the field that stands in `text` from `from` up to `to`.
pub fn parse_field(text: &[char], from: usize, to: usize, form: NumberForm) -> (r: Option<
    Decimal,
>)
    requires
        from <= to <= text@.len(),
    ensures
        match r {
            Some(d) => number_value(text@.subrange(from as int, to as int), form) == Some(d@),
            None => number_value(text@.subrange(from as int, to as int), form) is None,
        },
{
    match parse_literal(slice_subrange(text, from, to), form) {
        Some(d) => if d.in_float_range() {
            Some(d)
        } else {
            None
        },
        None => None,
    }
}

/// Reads `count` fields of the form `form` from `text`, with one gap
/// between each two, and nothing before, between or behind them.
pub fn parse_fields(text: &Vec<char>, count: usize, form: NumberForm, gap: Gap) -> (r: Option<
    Vec<Decimal>,
>)
    ensures
        match r {
            Some(fields) => fields_from(text@, 0, count as nat, form, gap) == Some(
                decimal_views(fields@),
            ) && fields@.len() == count,
            None => fields_from(text@, 0, count as nat, form, gap) is None,
        },
{
    if count == 0 {
        return None;
    }
    let stop = match gap {
        Gap::Space => CharClass::Space,
        Gap::Whitespace => CharClass::Whitespace,
    };
    let ghost whole = fields_from(text@, 0, count as nat, form, gap);
    let mut out: Vec<Decimal> = Vec::new();
    let mut from: usize = 0;
    let mut k: usize = 0;
    assert(Seq::<DecimalView>::empty() + whole.unwrap() =~= whole.unwrap());
    loop
        invariant
            k < count,
            from <= text.len(),
            stop == gap.class(),
            out@.len() == k,
            whole == fields_from(text@, 0, count as nat, form, gap),
            match fields_from(text@, from as int, (count - k) as nat, form, gap) {
                Some(rest) => whole == Some(decimal_views(out@) + rest),
                None => whole is None,
            },
        decreases count - k,
    {
        let end = find_first(text.as_slice(), from, stop);
        match parse_field(text.as_slice(), from, end, form) {
            None => {
                return None;
            },
            Some(d) => {
                let ghost before = decimal_views(out@);
                if k + 1 == count {
                    if end == text.len() {
                        out.push(d);
                        proof {
                            assert(decimal_views(out@) =~= before + seq![d@]);
                        }
                        return Some(out);
                    } else {
                        return None;
                    }
                }
                if end >= text.len() {
                    return None;
                }
                let next = match gap {
                    Gap::Space => end + 1,
                    Gap::Whitespace => find_first(
                        text.as_slice(),
                        end,
                        CharClass::NotWhitespace,
                    ),
                };
                out.push(d);
                proof {
                    assert(next == gap_end(text@, end as int, gap));
                    assert(decimal_views(out@) =~= before + seq![d@]);
                    match fields_from(text@, next as int, (count - k - 1) as nat, form, gap) {
                        Some(rest) => {
                            assert((before + seq![d@]) + rest =~= before + (seq![d@] + rest));
                        },
                        None => {},
                    }
                }
                from = next;
                k += 1;
            },
        }
    }
}

/// The triple that `text` denotes, if it is three plain literals with one
/// space between each two.
pub open spec fn vec3_value(text: Seq<char>) -> Option<Vector3View> {
    match fields_from(text, 0, 3, NumberForm::Plain, Gap::Space) {
        Some(f) => Some(Vector3View { x: f[0], y: f[1], z: f[2] }),
        None => None,
    }
}

/// The pair of limits that `text` denotes, if it is two plain literals with
/// one space between them.
pub open spec fn range_value(text: Seq<char>) -> Option<IntervalView> {
    match fields_from(text, 0, 2, NumberForm::Plain, Gap::Space) {
        Some(f) => Some(IntervalView { min: f[0], max: f[1] }),
        None => None,
    }
}

/// The pair of end points that `text` denotes, if it is six strict literals
/// with white space between each two.
pub open spec fn fromto_value(text: Seq<char>) -> Option<SegmentView> {
    match fields_from(text, 0, 6, NumberForm::Strict, Gap::Whitespace) {
        Some(f) => Some(
            SegmentView {
                from: Vector3View { x: f[0], y: f[1], z: f[2] },
                to: Vector3View { x: f[3], y: f[4], z: f[5] },
            },
        ),
        None => None,
    }
}

/// What reading an attribute's text gives: the value that the text denotes,
/// or else the complaint that the attribute is malformed, with the text in it.
pub open spec fn read_as<T>(
    value: Option<T>,
    raw_text: Seq<char>,
    element: ElementKind,
    attribute: AttributeKind,
) -> Result<T, ParseErrorView> {
    match value {
        Some(v) => Ok(v),
        None => Err(ParseErrorView::MalformedAttribute { element, attribute, raw_text }),
    }
}

/// The complaint that the attribute `attribute` of an `element` holds `repr`,
/// which is not of the form that it must have.
pub fn malformed(repr: &str, element: ElementKind, attribute: AttributeKind) -> (e: ParseError)
    ensures
        e@ == (ParseErrorView::MalformedAttribute { element, attribute, raw_text: repr@ }),
{
    ParseError::MalformedAttribute { element, attribute, raw_text: repr.to_owned() }
}

/// Reads one number: a plain literal, the value of the attribute `attribute`
/// of an `element`.
pub fn parse_number(repr: &str, element: ElementKind, attribute: AttributeKind) -> (r: Result<
    Decimal,
    ParseError,
>)
    ensures
        match read_as(number_value(repr@, NumberForm::Plain), repr@, element, attribute) {
            Ok(v) => r matches Ok(d) && d@ == v,
            Err(e) => r matches Err(x) && x@ == e,
        },
{
    let text = chars_of(repr);
    assert(text@.subrange(0, text@.len() as int) =~= text@);
    match parse_field(text.as_slice(), 0, text.len(), NumberForm::Plain) {
        Some(d) => Ok(d),
        None => Err(malformed(repr, element, attribute)),
    }
}

/// Reads a triple: three plain literals with one space between each two.
pub fn parse_3_vec(repr: &str, element: ElementKind, attribute: AttributeKind) -> (r: Result<
    Vector3,
    ParseError,
>)
    ensures
        match read_as(vec3_value(repr@), repr@, element, attribute) {
            Ok(v) => r matches Ok(d) && d@ == v,
            Err(e) => r matches Err(x) && x@ == e,
        },
{
    let text = chars_of(repr);
    match parse_fields(&text, 3, NumberForm::Plain, Gap::Space) {
        Some(mut fields) => {
            let ghost all = decimal_views(fields@);
            let z = fields.pop().unwrap();
            let y = fields.pop().unwrap();
            let x = fields.pop().unwrap();
            assert(x@ == all[0] && y@ == all[1] && z@ == all[2]);
            Ok(Vector3 { x, y, z })
        },
        None => Err(malformed(repr, element, attribute)),
    }
}

/// Reads a pair of limits: two plain literals with one space between them.
pub fn parse_range(repr: &str, element: ElementKind, attribute: AttributeKind) -> (r: Result<
    Interval,
    ParseError,
>)
    ensures
        match read_as(range_value(repr@), repr@, element, attribute) {
            Ok(v) => r matches Ok(d) && d@ == v,
            Err(e) => r matches Err(x) && x@ == e,
        },
{
    let text = chars_of(repr);
    match parse_fields(&text, 2, NumberForm::Plain, Gap::Space) {
        Some(mut fields) => {
            let ghost all = decimal_views(fields@);
            let max = fields.pop().unwrap();
            let min = fields.pop().unwrap();
            assert(min@ == all[0] && max@ == all[1]);
            Ok(Interval { min, max })
        },
        None => Err(malformed(repr, element, attribute)),
    }
}

/// Reads a pair of end points: six strict literals with white space between
/// each two.
pub fn parse_fromto(repr: &str, element: ElementKind, attribute: AttributeKind) -> (r: Result<
    Segment,
    ParseError,
>)
    ensures
        match read_as(fromto_value(repr@), repr@, element, attribute) {
            Ok(v) => r matches Ok(d) && d@ == v,
            Err(e) => r matches Err(x) && x@ == e,
        },
{
    let text = chars_of(repr);
    match parse_fields(&text, 6, NumberForm::Strict, Gap::Whitespace) {
        Some(mut fields) => {
            let ghost all = decimal_views(fields@);
            let z2 = fields.pop().unwrap();
            let y2 = fields.pop().unwrap();
            let x2 = fields.pop().unwrap();
            let z1 = fields.pop().unwrap();
            let y1 = fields.pop().unwrap();
            let x1 = fields.pop().unwrap();
            assert(x1@ == all[0] && y1@ == all[1] && z1@ == all[2]);
            assert(x2@ == all[3] && y2@ == all[4] && z2@ == all[5]);
            Ok(
                Segment {
                    from: Vector3 { x: x1, y: y1, z: z1 },
                    to: Vector3 { x: x2, y: y2, z: z2 },
                },
            )
        },
        None => Err(malformed(repr, element, attribute)),
    }
}

/// How a decimal is written: a minus sign if it is negative, the digits
/// before the point, and, if there are digits behind the point, the point and
/// those digits.
pub open spec fn decimal_text(d: DecimalView) -> Seq<char> {
    let sign = if d.negative {
        seq!['-']
    } else {
        Seq::empty()
    };
    if d.scale == 0 {
        sign + digit_chars(d.whole())
    } else {
        sign + digit_chars(d.whole()) + seq!['.'] + digit_chars(d.fraction())
    }
}

/// How a triple is written: its three components with one space between each
/// two.
pub open spec fn vec3_text(a: Seq<char>, b: Seq<char>, c: Seq<char>) -> Seq<char> {
    a + seq![' '] + b + seq![' '] + c
}

/// Writes a decimal.
pub fn to_text(d: &Decimal) -> (r: String)
    ensures
        r@ == decimal_text(d@),
{
    proof {
        use_type_invariant(d);
    }
    let digits = d.digits();
    let point: usize = digits.len() - d.scale();
    let mut out: Vec<char> = Vec::new();
    if d.is_negative() {
        out.push('-');
    }
    let ghost sign = out@;
    let mut i: usize = 0;
    while i < digits.len()
        invariant
            i <= digits.len(),
            point <= digits.len(),
            point == d@.digits.len() - d@.scale,
            digits@ == d@.digits,
            all_decimal(digits@),
            i <= point ==> out@ == sign + digit_chars(digits@.take(i as int)),
            i > point ==> out@ == sign + digit_chars(d@.whole()) + seq!['.'] + digit_chars(
                digits@.subrange(point as int, i as int),
            ),
        decreases digits.len() - i,
    {
        let ghost before = out@;
        if i == point {
            proof {
                assert(digits@.take(i as int) == d@.whole());
                assert(digit_chars(digits@.subrange(point as int, i as int)) =~= Seq::<
                    char,
                >::empty());
            }
            out.push('.');
            assert(out@ =~= sign + digit_chars(d@.whole()) + seq!['.'] + digit_chars(
                digits@.subrange(point as int, i as int),
            ));
        }
        let c = ((digits[i] as u32) + ('0' as u32)) as u8 as char;
        assert(c == digit_char(digits@[i as int]));
        out.push(c);
        proof {
            if i < point {
                assert(digit_chars(digits@.take(i + 1)) =~= digit_chars(digits@.take(i as int)).push(
                    c,
                ));
            } else {
                assert(digit_chars(digits@.subrange(point as int, i + 1)) =~= digit_chars(
                    digits@.subrange(point as int, i as int),
                ).push(c));
            }
        }
        i += 1;
    }
    proof {
        if d@.scale == 0 {
            assert(digits@.take(i as int) =~= d@.whole());
        } else {
            assert(digits@.subrange(point as int, i as int) =~= d@.fraction());
        }
    }
    string_of(&out)
}

/// No character of a literal is white space.
pub proof fn lemma_literal_has_no_gap(t: Seq<char>, form: NumberForm)
    requires
        literal_value(t, form) is Some,
    ensures
        forall|i: int| 0 <= i < t.len() ==> !is_whitespace(#[trigger] t[i]) && t[i] != ' ',
{
    let start: int = if has_sign(t, form) {
        1
    } else {
        0
    };
    let point = first_where(t, start, CharClass::NotDigit);
    let end = first_where(t, point + 1, CharClass::NotDigit);
    lemma_first_where_lands(t, start, CharClass::NotDigit);
    if point < t.len() {
        lemma_first_where_lands(t, point + 1, CharClass::NotDigit);
    }
    assert forall|i: int| 0 <= i < t.len() implies !is_whitespace(#[trigger] t[i]) && t[i]
        != ' ' by {
        if start <= i < point {
            assert(!CharClass::NotDigit.holds(t[i]));
        } else if point < i {
            assert(!CharClass::NotDigit.holds(t[i]));
        }
    }
}

/// A literal that stands in `text` at `from`, with the end of the text or a
/// gap behind it, is the field that a scan from `from` finds.
pub proof fn lemma_field_found(
    text: Seq<char>,
    from: int,
    field: Seq<char>,
    form: NumberForm,
    gap: Gap,
)
    requires
        0 <= from,
        from + field.len() <= text.len(),
        text.subrange(from, from + field.len()) == field,
        literal_value(field, form) is Some,
        from + field.len() == text.len() || gap.class().holds(text[from + field.len()]),
    ensures
        first_where(text, from, gap.class()) == from + field.len(),
{
    lemma_literal_has_no_gap(field, form);
    assert forall|j: int| from <= j < from + field.len() implies !gap.class().holds(
        #[trigger] text[j],
    ) by {
        assert(text[j] == field[j - from]);
    }
    lemma_first_where(text, from, gap.class(), from + field.len());
}

/// Three fields with one space between each two are read as the triple of
/// the numbers that the three fields denote.
pub proof fn law_vec3_of_fields(a: Seq<char>, b: Seq<char>, c: Seq<char>)
    requires
        number_value(a, NumberForm::Plain) is Some,
        number_value(b, NumberForm::Plain) is Some,
        number_value(c, NumberForm::Plain) is Some,
    ensures
        vec3_value(vec3_text(a, b, c)) == Some(
            Vector3View {
                x: number_value(a, NumberForm::Plain)->0,
                y: number_value(b, NumberForm::Plain)->0,
                z: number_value(c, NumberForm::Plain)->0,
            },
        ),
{
    let text = vec3_text(a, b, c);
    let form = NumberForm::Plain;
    let gap = Gap::Space;
    let p1 = a.len() as int + 1;
    let p2 = p1 + b.len() + 1;
    assert(text.len() == p2 + c.len());
    assert(text.subrange(0, a.len() as int) =~= a);
    assert(text.subrange(p1, p1 + b.len()) =~= b);
    assert(text.subrange(p2, p2 + c.len()) =~= c);
    assert(text[a.len() as int] == ' ');
    assert(text[p1 + b.len()] == ' ');
    lemma_field_found(text, 0, a, form, gap);
    lemma_field_found(text, p1, b, form, gap);
    lemma_field_found(text, p2, c, form, gap);
    let va = number_value(a, form)->0;
    let vb = number_value(b, form)->0;
    let vc = number_value(c, form)->0;
    assert(fields_from(text, p2, 1, form, gap) == Some(seq![vc]));
    assert(gap_end(text, p1 + b.len(), gap) == p2);
    assert(fields_from(text, p1, 2, form, gap) == Some(seq![vb] + seq![vc]));
    assert(gap_end(text, a.len() as int, gap) == p1);
    assert(fields_from(text, 0, 3, form, gap) == Some(seq![va] + (seq![vb] + seq![vc])));
}

/// A well-formed decimal, written out, is a plain literal that denotes that
/// same decimal.
pub proof fn lemma_text_round_trip(d: DecimalView)
    requires
        d.wf(),
    ensures
        literal_value(decimal_text(d), NumberForm::Plain) == Some(d),
{
    let t = decimal_text(d);
    let form = NumberForm::Plain;
    let whole = digit_chars(d.whole());
    let fraction = digit_chars(d.fraction());
    let start: int = if d.negative {
        1
    } else {
        0
    };
    let point = start + whole.len();
    assert forall|i: int| 0 <= i < whole.len() implies is_digit(#[trigger] whole[i]) by {
        assert(d.digits[i] <= 9);
    }
    assert forall|i: int| 0 <= i < fraction.len() implies is_digit(#[trigger] fraction[i]) by {
        assert(d.digits[d.digits.len() - d.scale + i] <= 9);
    }
    assert(t.len() > start);
    assert(has_sign(t, form) == d.negative) by {
        if !d.negative {
            if whole.len() > 0 {
                assert(t[0] == whole[0]);
                assert(is_digit(whole[0]));
            } else {
                assert(t[0] == '.');
            }
        }
    }
    assert forall|j: int| start <= j < point implies !CharClass::NotDigit.holds(#[trigger] t[j]) by {
        assert(t[j] == whole[j - start]);
        assert(is_digit(whole[j - start]));
    }
    if d.scale == 0 {
        assert(point == t.len());
        lemma_first_where(t, start, CharClass::NotDigit, point);
        assert(t.subrange(start, point) =~= whole);
        assert(digit_values(whole) =~= d.digits) by {
            assert forall|i: int| 0 <= i < d.digits.len() implies digit_values(whole)[i]
                == d.digits[i] by {
                assert(d.digits[i] <= 9);
            }
        }
    } else {
        assert(t[point] == '.');
        lemma_first_where(t, start, CharClass::NotDigit, point);
        let end = t.len() as int;
        assert(end == point + 1 + fraction.len());
        assert forall|j: int| point + 1 <= j < end implies !CharClass::NotDigit.holds(
            #[trigger] t[j],
        ) by {
            assert(t[j] == fraction[j - point - 1]);
            assert(is_digit(fraction[j - point - 1]));
        }
        lemma_first_where(t, point + 1, CharClass::NotDigit, end);
        assert(t.subrange(start, point) =~= whole);
        assert(t.subrange(point + 1, end) =~= fraction);
        assert(digit_values(whole + fraction) =~= d.digits) by {
            assert forall|i: int| 0 <= i < d.digits.len() implies digit_values(whole + fraction)[i]
                == d.digits[i] by {
                assert(d.digits[i] <= 9);
            }
        }
    }
}

/// A literal is a written decimal, with a sign or without: what it denotes is
/// well formed, and the literal is how the decimal's magnitude is written,
/// with `-` in front if the decimal is negative, and else with nothing or, in
/// the plain form, with `+` in front.
pub proof fn law_literal_is_written(t: Seq<char>, form: NumberForm)
    requires
        literal_value(t, form) is Some,
    ensures
        ({
            let d = literal_value(t, form)->0;
            let magnitude = decimal_text(
                DecimalView { negative: false, digits: d.digits, scale: d.scale },
            );
            &&& d.wf()
            &&& d.negative ==> t == seq!['-'] + magnitude
            &&& !d.negative ==> t == magnitude || (form is Plain && t == seq!['+'] + magnitude)
            &&& form is Strict ==> d.scale > 0 && d.digits.len() > d.scale
        }),
{
    let d = literal_value(t, form)->0;
    let start: int = if has_sign(t, form) {
        1
    } else {
        0
    };
    let point = first_where(t, start, CharClass::NotDigit);
    let end = first_where(t, point + 1, CharClass::NotDigit);
    lemma_first_where_lands(t, start, CharClass::NotDigit);
    if point < t.len() {
        lemma_first_where_lands(t, point + 1, CharClass::NotDigit);
    }
    let plain = DecimalView { negative: false, digits: d.digits, scale: d.scale };
    let magnitude = decimal_text(plain);
    let whole = t.subrange(start, point);
    assert forall|i: int| 0 <= i < whole.len() implies is_digit(#[trigger] whole[i]) by {
        assert(!CharClass::NotDigit.holds(t[start + i]));
    }
    if point == t.len() {
        assert(d.digits =~= digit_values(whole));
        assert(plain.whole() =~= d.digits);
        assert(digit_chars(plain.whole()) =~= whole) by {
            assert forall|i: int| 0 <= i < whole.len() implies digit_chars(plain.whole())[i]
                == whole[i] by {
                assert(is_digit(whole[i]));
            }
        }
        assert(Seq::<char>::empty() + whole =~= whole);
        assert(t.skip(start) =~= whole);
    } else {
        let fraction = t.subrange(point + 1, end);
        assert forall|i: int| 0 <= i < fraction.len() implies is_digit(#[trigger] fraction[i]) by {
            assert(!CharClass::NotDigit.holds(t[point + 1 + i]));
        }
        assert(d.digits =~= digit_values(whole + fraction));
        assert(plain.whole() =~= digit_values(whole));
        assert(plain.fraction() =~= digit_values(fraction));
        assert(digit_chars(plain.whole()) =~= whole) by {
            assert forall|i: int| 0 <= i < whole.len() implies digit_chars(plain.whole())[i]
                == whole[i] by {
                assert(is_digit(whole[i]));
            }
        }
        assert(digit_chars(plain.fraction()) =~= fraction) by {
            assert forall|i: int| 0 <= i < fraction.len() implies digit_chars(plain.fraction())[i]
                == fraction[i] by {
                assert(is_digit(fraction[i]));
            }
        }
        assert(t.skip(start) =~= Seq::<char>::empty() + whole + seq!['.'] + fraction);
    }
    assert(t.skip(start) == magnitude);
    assert forall|i: int| 0 <= i < d.digits.len() implies #[trigger] d.digits[i] <= 9 by {}
    if start == 1 {
        assert(t =~= seq![t[0]] + t.skip(1));
    } else {
        assert(t.skip(0) =~= t);
    }
}

/// Three well-formed decimals in the range of a 32-bit float, written out
/// with one space between each two, are read back as exactly those three
/// decimals.
pub proof fn law_vec3_round_trip(x: DecimalView, y: DecimalView, z: DecimalView)
    requires
        x.wf() && x.in_float_range(),
        y.wf() && y.in_float_range(),
        z.wf() && z.in_float_range(),
    ensures
        vec3_value(vec3_text(decimal_text(x), decimal_text(y), decimal_text(z))) == Some(
            Vector3View { x, y, z },
        ),
{
    lemma_text_round_trip(x);
    lemma_text_round_trip(y);
    lemma_text_round_trip(z);
    law_vec3_of_fields(decimal_text(x), decimal_text(y), decimal_text(z));
}

/// Only three fields with one space between each two are read as a triple:
/// a text that is read as one is made of three such fields, which denote the
/// triple's three numbers.
pub proof fn law_vec3_only_of_fields(text: Seq<char>)
    requires
        vec3_value(text) is Some,
    ensures
        exists|a: Seq<char>, b: Seq<char>, c: Seq<char>|
            text == #[trigger] vec3_text(a, b, c) && number_value(a, NumberForm::Plain) == Some(
                vec3_value(text)->0.x,
            ) && number_value(b, NumberForm::Plain) == Some(vec3_value(text)->0.y)
                && number_value(c, NumberForm::Plain) == Some(vec3_value(text)->0.z),
{
    let form = NumberForm::Plain;
    let gap = Gap::Space;
    let stop = CharClass::Space;
    let e1 = first_where(text, 0, stop);
    let p1 = e1 + 1;
    let e2 = first_where(text, p1, stop);
    let p2 = e2 + 1;
    let e3 = first_where(text, p2, stop);
    assert(gap.class() == stop);
    assert(fields_from(text, 0, 3, form, gap) is Some);
    assert(e1 < text.len());
    lemma_first_where_lands(text, 0, stop);
    assert(gap_end(text, e1, gap) == p1);
    assert(fields_from(text, p1, 2, form, gap) is Some);
    lemma_first_where_lands(text, p1, stop);
    assert(e2 < text.len());
    assert(gap_end(text, e2, gap) == p2);
    assert(fields_from(text, p2, 1, form, gap) is Some);
    assert(e3 == text.len());
    let a = text.subrange(0, e1);
    let b = text.subrange(p1, e2);
    let c = text.subrange(p2, e3);
    assert(text[e1] == ' ');
    assert(text[e2] == ' ');
    assert(text =~= vec3_text(a, b, c));
    let va = number_value(a, form)->0;
    let vb = number_value(b, form)->0;
    let vc = number_value(c, form)->0;
    assert(fields_from(text, p2, 1, form, gap) == Some(seq![vc]));
    assert(fields_from(text, p1, 2, form, gap) == Some(seq![vb] + seq![vc]));
    assert(fields_from(text, 0, 3, form, gap) == Some(seq![va] + (seq![vb] + seq![vc])));
}

/// Whether `g` is a gap of the kind `gap`.
pub open spec fn is_gap(g: Seq<char>, gap: Gap) -> bool {
    match gap {
        Gap::Space => g == seq![' '],
        Gap::Whitespace => g.len() > 0 && forall|i: int|
            0 <= i < g.len() ==> is_whitespace(#[trigger] g[i]),
    }
}

/// The fields of a list with the gaps between them: the first field, the
/// first gap, the second field, and so on up to the last field.
pub open spec fn joined(fields: Seq<Seq<char>>, gaps: Seq<Seq<char>>) -> Seq<char>
    decreases fields.len(),
{
    if fields.len() == 0 {
        Seq::empty()
    } else if fields.len() == 1 || gaps.len() == 0 {
        fields[0]
    } else {
        fields[0] + gaps[0] + joined(fields.drop_first(), gaps.drop_first())
    }
}

/// The numbers that fields denote.
pub open spec fn field_values(fields: Seq<Seq<char>>, form: NumberForm) -> Seq<DecimalView> {
    Seq::new(fields.len(), |i: int| number_value(fields[i], form)->0)
}

/// Fields with gaps between them are read as the numbers that the fields
/// denote: this is so of every number of fields, of both forms of field and
/// of both kinds of gap, and so of triples, of pairs of limits and of pairs of
/// end points alike.
pub proof fn law_list_of_fields(
    fields: Seq<Seq<char>>,
    gaps: Seq<Seq<char>>,
    form: NumberForm,
    gap: Gap,
)
    requires
        fields.len() >= 1,
        gaps.len() == fields.len() - 1,
        forall|i: int| 0 <= i < fields.len() ==> number_value(#[trigger] fields[i], form) is Some,
        forall|i: int| 0 <= i < gaps.len() ==> is_gap(#[trigger] gaps[i], gap),
    ensures
        fields_from(joined(fields, gaps), 0, fields.len(), form, gap) == Some(
            field_values(fields, form),
        ),
{
    lemma_list_behind(Seq::empty(), fields, gaps, form, gap);
    assert(Seq::<char>::empty() + joined(fields, gaps) =~= joined(fields, gaps));
}

/// A field that stands last in a text is found there, and ends the text.
proof fn lemma_last_field(before: Seq<char>, field: Seq<char>, form: NumberForm, gap: Gap)
    requires
        literal_value(field, form) is Some,
    ensures
        first_where(before + field, before.len() as int, gap.class()) == (before + field).len(),
        (before + field).subrange(before.len() as int, (before + field).len() as int) == field,
{
    let text = before + field;
    assert(text.subrange(before.len() as int, text.len() as int) =~= field);
    lemma_field_found(text, before.len() as int, field, form, gap);
}

/// A field with a gap and more text behind it is found where it stands, and
/// the gap ends where that text begins, if the text begins with no white
/// space.
proof fn lemma_inner_field(
    before: Seq<char>,
    field: Seq<char>,
    space: Seq<char>,
    rest: Seq<char>,
    form: NumberForm,
    gap: Gap,
)
    requires
        literal_value(field, form) is Some,
        is_gap(space, gap),
        rest.len() > 0,
        !is_whitespace(rest[0]),
    ensures
        ({
            let text = before + field + space + rest;
            let end = (before.len() + field.len()) as int;
            &&& first_where(text, before.len() as int, gap.class()) == end
            &&& end < text.len()
            &&& text.subrange(before.len() as int, end) == field
            &&& gap_end(text, end, gap) == end + space.len()
        }),
{
    let text = before + field + space + rest;
    let from = before.len() as int;
    let end = from + field.len();
    let after = end + space.len();
    assert(text.subrange(from, end) =~= field);
    assert(text[end] == space[0]);
    assert(is_whitespace(' '));
    assert(gap.class().holds(space[0]));
    lemma_field_found(text, from, field, form, gap);
    assert(text[after] == rest[0]);
    match gap {
        Gap::Space => {},
        Gap::Whitespace => {
            assert forall|j: int| end <= j < after implies !CharClass::NotWhitespace.holds(
                #[trigger] text[j],
            ) by {
                assert(text[j] == space[j - end]);
            }
            lemma_first_where(text, end, CharClass::NotWhitespace, after);
        },
    }
}

/// What fields and gaps are joined to begins with the first character of the
/// first field.
proof fn lemma_joined_begins(fields: Seq<Seq<char>>, gaps: Seq<Seq<char>>)
    requires
        fields.len() >= 1,
        fields[0].len() > 0,
    ensures
        joined(fields, gaps).len() > 0,
        joined(fields, gaps)[0] == fields[0][0],
{
}

/// The same of a list that stands behind some other text.
proof fn lemma_list_behind(
    before: Seq<char>,
    fields: Seq<Seq<char>>,
    gaps: Seq<Seq<char>>,
    form: NumberForm,
    gap: Gap,
)
    requires
        fields.len() >= 1,
        gaps.len() == fields.len() - 1,
        forall|i: int| 0 <= i < fields.len() ==> number_value(#[trigger] fields[i], form) is Some,
        forall|i: int| 0 <= i < gaps.len() ==> is_gap(#[trigger] gaps[i], gap),
    ensures
        fields_from(
            before + joined(fields, gaps),
            before.len() as int,
            fields.len(),
            form,
            gap,
        ) == Some(field_values(fields, form)),
    decreases fields.len(),
{
    let first = fields[0];
    assert(number_value(first, form) is Some);
    if fields.len() == 1 {
        lemma_last_field(before, first, form, gap);
        assert(field_values(fields, form) =~= seq![number_value(first, form)->0]);
    } else {
        let space = gaps[0];
        let rest_fields = fields.drop_first();
        let rest_gaps = gaps.drop_first();
        let rest = joined(rest_fields, rest_gaps);
        let next = rest_fields[0];
        assert(is_gap(space, gap));
        assert(next == fields[1]);
        assert(number_value(next, form) is Some);
        lemma_literal_has_no_gap(next, form);
        lemma_literal_nonempty(next, form);
        lemma_joined_begins(rest_fields, rest_gaps);
        lemma_inner_field(before, first, space, rest, form, gap);
        assert forall|i: int| 0 <= i < rest_fields.len() implies number_value(
            #[trigger] rest_fields[i],
            form,
        ) is Some by {
            assert(rest_fields[i] == fields[i + 1]);
        }
        assert forall|i: int| 0 <= i < rest_gaps.len() implies is_gap(
            #[trigger] rest_gaps[i],
            gap,
        ) by {
            assert(rest_gaps[i] == gaps[i + 1]);
        }
        let front = before + first + space;
        lemma_list_behind(front, rest_fields, rest_gaps, form, gap);
        assert(front + rest =~= before + joined(fields, gaps));
        assert(field_values(fields, form) =~= seq![number_value(first, form)->0] + field_values(
            rest_fields,
            form,
        )) by {
            assert forall|i: int| 1 <= i < fields.len() implies field_values(fields, form)[i]
                == field_values(rest_fields, form)[i - 1] by {
                assert(rest_fields[i - 1] == fields[i]);
            }
        }
    }
}

/// A literal has at least one character.
proof fn lemma_literal_nonempty(t: Seq<char>, form: NumberForm)
    requires
        literal_value(t, form) is Some,
    ensures
        t.len() > 0,
{
    if t.len() == 0 {
        assert(first_where(t, 0, CharClass::NotDigit) == 0);
    }
}

} // verus!
