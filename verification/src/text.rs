//! Characters and the scanning of character sequences.

use vstd::prelude::*;

verus! {

/// Whether `c` is one of the ten decimal digits.
pub open spec fn is_digit(c: char) -> bool {
    '0' <= c && c <= '9'
}

/// The value of a decimal digit character.
pub open spec fn digit_value(c: char) -> u8
    recommends
        is_digit(c),
{
    (c as u32 - '0' as u32) as u8
}

/// The character that writes a decimal digit.
pub open spec fn digit_char(d: u8) -> char
    recommends
        d <= 9,
{
    (d as u32 + '0' as u32) as char
}

/// The values of a run of digit characters.
pub open spec fn digit_values(s: Seq<char>) -> Seq<u8> {
    Seq::new(s.len(), |i: int| digit_value(s[i]))
}

/// The characters that write a run of digits.
pub open spec fn digit_chars(d: Seq<u8>) -> Seq<char> {
    Seq::new(d.len(), |i: int| digit_char(d[i]))
}

/// Whether `c` is white space: a character with the Unicode property
/// `White_Space`.
pub open spec fn is_whitespace(c: char) -> bool {
    ||| ('\u{9}' <= c && c <= '\u{d}')
    ||| c == ' '
    ||| c == '\u{85}'
    ||| c == '\u{a0}'
    ||| c == '\u{1680}'
    ||| ('\u{2000}' <= c && c <= '\u{200a}')
    ||| c == '\u{2028}'
    ||| c == '\u{2029}'
    ||| c == '\u{202f}'
    ||| c == '\u{205f}'
    ||| c == '\u{3000}'
}

/// A class of characters that a scan looks for.
#[derive(Clone, Copy, Debug, PartialEq, Eq, Structural)]
pub enum CharClass {
    /// The decimal point, `.`.
    Dot,
    /// The space character, U+0020.
    Space,
    /// Any white space.
    Whitespace,
    /// Anything but white space.
    NotWhitespace,
    /// Anything but a decimal digit.
    NotDigit,
}

impl CharClass {
    /// Whether `c` belongs to the class.
    pub open spec fn holds(self, c: char) -> bool {
        match self {
            CharClass::Dot => c == '.',
            CharClass::Space => c == ' ',
            CharClass::Whitespace => is_whitespace(c),
            CharClass::NotWhitespace => !is_whitespace(c),
            CharClass::NotDigit => !is_digit(c),
        }
    }

    /// Whether `c` belongs to the class.
    pub fn test(&self, c: char) -> (r: bool)
        ensures
            r == self.holds(c),
    {
        match self {
            CharClass::Dot => c == '.',
            CharClass::Space => c == ' ',
            CharClass::Whitespace => whitespace(c),
            CharClass::NotWhitespace => !whitespace(c),
            CharClass::NotDigit => digit_of(c).is_none(),
        }
    }
}

/// The first position at or after `from` whose character is of class `stop`,
/// or the length of `text` if there is none.
pub open spec fn first_where(text: Seq<char>, from: int, stop: CharClass) -> int
    decreases text.len() - from,
{
    if from < 0 || from >= text.len() || stop.holds(text[from]) {
        from
    } else {
        first_where(text, from + 1, stop)
    }
}

/// `first_where` is the one position that no earlier character of the class
/// precedes and that either ends the text or holds a character of the class.
pub proof fn lemma_first_where(text: Seq<char>, from: int, stop: CharClass, at: int)
    requires
        0 <= from <= at <= text.len(),
        forall|j: int| from <= j < at ==> !stop.holds(#[trigger] text[j]),
        at == text.len() || stop.holds(text[at]),
    ensures
        first_where(text, from, stop) == at,
    decreases at - from,
{
    if from < at {
        assert(!stop.holds(text[from]));
        lemma_first_where(text, from + 1, stop, at);
    }
}

/// Where `first_where` lands, and that nothing before it is of the class.
pub proof fn lemma_first_where_lands(text: Seq<char>, from: int, stop: CharClass)
    requires
        0 <= from <= text.len(),
    ensures
        from <= first_where(text, from, stop) <= text.len(),
        forall|j: int| from <= j < first_where(text, from, stop) ==> !stop.holds(#[trigger] text[j]),
        first_where(text, from, stop) < text.len() ==> stop.holds(
            text[first_where(text, from, stop)],
        ),
    decreases text.len() - from,
{
    if from < text.len() && !stop.holds(text[from]) {
        lemma_first_where_lands(text, from + 1, stop);
    }
}

/// Scans `text` from `from` for the first character of class `stop`.
pub fn find_first(text: &[char], from: usize, stop: CharClass) -> (r: usize)
    requires
        from <= text.len(),
    ensures
        r == first_where(text@, from as int, stop),
        from <= r <= text.len(),
{
    let mut i: usize = from;
    while i < text.len() && !stop.test(text[i])
        invariant
            from <= i <= text.len(),
            forall|j: int| from <= j < i ==> !stop.holds(#[trigger] text@[j]),
        decreases text.len() - i,
    {
        i += 1;
    }
    proof {
        lemma_first_where(text@, from as int, stop, i as int);
    }
    i
}

/// The value of a digit character, if it is one.
pub fn digit_of(c: char) -> (r: Option<u8>)
    ensures
        r is Some <==> is_digit(c),
        r matches Some(d) ==> d == digit_value(c) && d <= 9 && digit_char(d) == c,
{
    if '0' <= c && c <= '9' {
        Some((c as u32 - '0' as u32) as u8)
    } else {
        None
    }
}

/// Whether `c` is white space.
pub fn whitespace(c: char) -> (r: bool)
    ensures
        r == is_whitespace(c),
{
    ('\u{9}' <= c && c <= '\u{d}') || c == ' ' || c == '\u{85}' || c == '\u{a0}' || c == '\u{1680}'
        || ('\u{2000}' <= c && c <= '\u{200a}') || c == '\u{2028}' || c == '\u{2029}' || c
        == '\u{202f}' || c == '\u{205f}' || c == '\u{3000}'
}

/// The characters of a string, one by one.
pub fn chars_of(s: &str) -> (r: Vec<char>)
    ensures
        r@ == s@,
{
    let mut out: Vec<char> = Vec::new();
    for c in it: s.chars()
        invariant
            out@ == it.seq().take(it.index()),
            it.seq() == s@,
    {
        out.push(c);
    }
    out
}

/// The string made of the characters of `chars`, in their order. This is
/// `String::from_iter` of the standard library on the characters; that the
/// string holds exactly those characters is taken from its documentation, not
/// proved.
#[verifier::external_body]
pub(crate) fn string_of(chars: &Vec<char>) -> (r: String)
    ensures
        r@ == chars@,
{
    String::from_iter(chars.iter())
}

} // verus!
