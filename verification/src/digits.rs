//! Arithmetic on runs of decimal digits, most significant digit first.

use vstd::prelude::*;

verus! {

/// Ten to the power `e`.
pub open spec fn pow10(e: nat) -> nat
    decreases e,
{
    if e == 0 {
        1
    } else {
        10 * pow10((e - 1) as nat)
    }
}

/// The number that a run of decimal digits denotes, most significant digit first.
pub open spec fn digits_value(digits: Seq<u8>) -> nat
    decreases digits.len(),
{
    if digits.len() == 0 {
        0
    } else {
        10 * digits_value(digits.drop_last()) + digits.last() as nat
    }
}

/// Whether every entry of `digits` is a decimal digit, `0` to `9`.
pub open spec fn all_decimal(digits: Seq<u8>) -> bool {
    forall|i: int| 0 <= i < digits.len() ==> #[trigger] digits[i] <= 9
}

/// A run of `n` zeros.
pub open spec fn zeros(n: nat) -> Seq<u8> {
    Seq::new(n, |i: int| 0u8)
}

/// Powers of ten are positive.
pub proof fn lemma_pow10_positive(e: nat)
    ensures
        pow10(e) > 0,
    decreases e,
{
    if e > 0 {
        lemma_pow10_positive((e - 1) as nat);
    }
}

/// One more digit at the end: ten times the value, plus the digit.
pub proof fn lemma_value_push(s: Seq<u8>, d: u8)
    ensures
        digits_value(s.push(d)) == 10 * digits_value(s) + d,
{
    assert(s.push(d).drop_last() =~= s);
}

/// The value of two runs put together.
pub proof fn lemma_value_concat(a: Seq<u8>, b: Seq<u8>)
    ensures
        digits_value(a + b) == digits_value(a) * pow10(b.len()) + digits_value(b),
    decreases b.len(),
{
    if b.len() == 0 {
        assert(a + b =~= a);
        assert(digits_value(a) * pow10(0) == digits_value(a)) by (nonlinear_arith)
            requires
                pow10(0) == 1,
        ;
    } else {
        let front = b.drop_last();
        lemma_value_concat(a, front);
        assert((a + b).drop_last() =~= a + front);
        assert((a + b).last() == b.last());
        let va = digits_value(a) as int;
        let p = pow10(front.len()) as int;
        assert(pow10(b.len()) == 10 * p);
        assert(10 * (va * p) == va * (10 * p)) by (nonlinear_arith);
    }
}

/// A run of decimal digits denotes less than ten to its length.
pub proof fn lemma_value_bound(s: Seq<u8>)
    requires
        all_decimal(s),
    ensures
        digits_value(s) < pow10(s.len()),
    decreases s.len(),
{
    if s.len() > 0 {
        assert(all_decimal(s.drop_last())) by {
            assert forall|i: int| 0 <= i < s.drop_last().len() implies #[trigger] s.drop_last()[i]
                <= 9 by {
                assert(s.drop_last()[i] == s[i]);
            }
        }
        lemma_value_bound(s.drop_last());
        assert(s.last() <= 9);
    }
}

/// A run of zeros denotes zero.
pub proof fn lemma_value_zeros(s: Seq<u8>)
    requires
        forall|i: int| 0 <= i < s.len() ==> #[trigger] s[i] == 0,
    ensures
        digits_value(s) == 0,
    decreases s.len(),
{
    if s.len() > 0 {
        assert forall|i: int| 0 <= i < s.drop_last().len() implies #[trigger] s.drop_last()[i]
            == 0 by {
            assert(s.drop_last()[i] == s[i]);
        }
        lemma_value_zeros(s.drop_last());
        assert(s.last() == s[s.len() - 1]);
    }
}

/// The value of the digits from position `i` on: the digit at `i` with its
/// weight, plus the value of the digits behind it.
pub proof fn lemma_value_tail(s: Seq<u8>, i: int)
    requires
        0 <= i < s.len(),
    ensures
        digits_value(s.skip(i)) == s[i] * pow10((s.len() - i - 1) as nat) + digits_value(
            s.skip(i + 1),
        ),
{
    let head = seq![s[i]];
    let rest = s.skip(i + 1);
    assert(s.skip(i) =~= head + rest);
    lemma_value_concat(head, rest);
    assert(head =~= Seq::<u8>::empty().push(s[i]));
    lemma_value_push(Seq::<u8>::empty(), s[i]);
}

/// Leading zeros do not change the value.
pub proof fn lemma_value_skip_zeros(s: Seq<u8>, k: int)
    requires
        0 <= k <= s.len(),
        forall|i: int| 0 <= i < k ==> #[trigger] s[i] == 0,
    ensures
        digits_value(s.skip(k)) == digits_value(s),
{
    assert(s =~= s.take(k) + s.skip(k));
    lemma_value_concat(s.take(k), s.skip(k));
    lemma_value_zeros(s.take(k));
    assert(0 * pow10(s.skip(k).len()) == 0) by (nonlinear_arith);
}

/// The digits of `x` with `extra` zeros behind them: the value times ten to
/// `extra`.
pub(crate) fn shifted(x: &Vec<u8>, extra: usize) -> (r: Vec<u8>)
    requires
        all_decimal(x@),
    ensures
        r@ == x@ + zeros(extra as nat),
        all_decimal(r@),
        digits_value(r@) == digits_value(x@) * pow10(extra as nat),
{
    let mut out: Vec<u8> = Vec::new();
    let mut i: usize = 0;
    while i < x.len()
        invariant
            i <= x.len(),
            out@ == x@.take(i as int),
        decreases x.len() - i,
    {
        out.push(x[i]);
        assert(x@.take(i + 1) =~= x@.take(i as int).push(x@[i as int]));
        i += 1;
    }
    assert(x@.take(i as int) =~= x@);
    let mut k: usize = 0;
    while k < extra
        invariant
            k <= extra,
            out@ == x@ + zeros(k as nat),
        decreases extra - k,
    {
        out.push(0);
        assert(x@ + zeros((k + 1) as nat) =~= (x@ + zeros(k as nat)).push(0u8));
        k += 1;
    }
    proof {
        lemma_value_concat(x@, zeros(extra as nat));
        lemma_value_zeros(zeros(extra as nat));
    }
    out
}

/// The larger of two lengths.
pub open spec fn longer(a: nat, b: nat) -> nat {
    if a >= b {
        a
    } else {
        b
    }
}

/// The digits of `x` with zeros in front of them, so many that the run is one
/// digit longer than the longer of `x` and `width`. The value stays.
pub(crate) fn widened(x: &Vec<u8>, width: usize) -> (r: Vec<u8>)
    requires
        all_decimal(x@),
    ensures
        r@.len() == longer(x@.len(), width as nat) + 1,
        r@[0] == 0,
        all_decimal(r@),
        digits_value(r@) == digits_value(x@),
{
    let mut out: Vec<u8> = Vec::new();
    out.push(0);
    let mut k: usize = x.len();
    while k < width
        invariant
            x.len() <= k,
            k <= width || k == x.len(),
            out@.len() == k - x.len() + 1,
            forall|j: int| 0 <= j < out@.len() ==> #[trigger] out@[j] == 0,
        decreases width - k,
    {
        out.push(0);
        k += 1;
    }
    let ghost front = out@;
    let mut i: usize = 0;
    while i < x.len()
        invariant
            i <= x.len(),
            out@ == front + x@.take(i as int),
        decreases x.len() - i,
    {
        out.push(x[i]);
        assert(front + x@.take(i + 1) =~= (front + x@.take(i as int)).push(x@[i as int]));
        i += 1;
    }
    proof {
        assert(x@.take(i as int) =~= x@);
        lemma_value_concat(front, x@);
        lemma_value_zeros(front);
        assert(0 * pow10(x@.len()) == 0) by (nonlinear_arith);
    }
    out
}

/// The digits of `x` without leading zeros, but for the last `keep` digits,
/// which stay whatever they are. The value stays.
pub(crate) fn trimmed(x: &Vec<u8>, keep: usize) -> (r: Vec<u8>)
    requires
        all_decimal(x@),
        1 <= keep <= x@.len(),
    ensures
        all_decimal(r@),
        digits_value(r@) == digits_value(x@),
        keep <= r@.len() <= x@.len(),
        r@ == x@.skip(x@.len() - r@.len()),
        r@.len() > keep ==> r@[0] != 0,
{
    let limit: usize = x.len() - keep;
    let mut k: usize = 0;
    while k < limit && x[k] == 0
        invariant
            k <= limit,
            limit == x.len() - keep,
            forall|j: int| 0 <= j < k ==> #[trigger] x@[j] == 0,
        decreases limit - k,
    {
        k += 1;
    }
    let mut out: Vec<u8> = Vec::new();
    let mut i: usize = k;
    while i < x.len()
        invariant
            k <= i <= x.len(),
            out@ == x@.subrange(k as int, i as int),
        decreases x.len() - i,
    {
        out.push(x[i]);
        assert(x@.subrange(k as int, i + 1) =~= x@.subrange(k as int, i as int).push(
            x@[i as int],
        ));
        i += 1;
    }
    proof {
        assert(x@.subrange(k as int, i as int) =~= x@.skip(k as int));
        lemma_value_skip_zeros(x@, k as int);
    }
    out
}

/// A run of `n` zeros, to be filled in.
fn blank(n: usize) -> (r: Vec<u8>)
    ensures
        r@ == zeros(n as nat),
        all_decimal(r@),
{
    let mut out: Vec<u8> = Vec::new();
    let mut k: usize = 0;
    while k < n
        invariant
            k <= n,
            out@ == zeros(k as nat),
        decreases n - k,
    {
        out.push(0);
        assert(zeros((k + 1) as nat) =~= zeros(k as nat).push(0u8));
        k += 1;
    }
    out
}

/// The sum of two runs of equal length that both begin with a zero: a run of
/// that same length.
pub(crate) fn sum_of(x: &Vec<u8>, y: &Vec<u8>) -> (r: Vec<u8>)
    requires
        all_decimal(x@),
        all_decimal(y@),
        x@.len() == y@.len(),
        x@.len() > 0,
        x@[0] == 0,
        y@[0] == 0,
    ensures
        r@.len() == x@.len(),
        all_decimal(r@),
        digits_value(r@) == digits_value(x@) + digits_value(y@),
{
    let n: usize = x.len();
    let mut out: Vec<u8> = blank(n);
    let mut carry: u8 = 0;
    let mut i: usize = n;
    assert(x@.skip(n as int) =~= Seq::<u8>::empty());
    assert(y@.skip(n as int) =~= Seq::<u8>::empty());
    assert(out@.skip(n as int) =~= Seq::<u8>::empty());
    while i > 0
        invariant
            i <= n,
            n == x@.len(),
            n == y@.len(),
            n == out@.len(),
            x@[0] == 0,
            y@[0] == 0,
            all_decimal(x@),
            all_decimal(y@),
            all_decimal(out@),
            carry <= 1,
            i == 0 ==> carry == 0,
            digits_value(x@.skip(i as int)) + digits_value(y@.skip(i as int)) == digits_value(
                out@.skip(i as int),
            ) + carry * pow10((n - i) as nat),
        decreases i,
    {
        i -= 1;
        let total: u8 = x[i] + y[i] + carry;
        let digit: u8 = if total >= 10 {
            total - 10
        } else {
            total
        };
        let next: u8 = if total >= 10 {
            1
        } else {
            0
        };
        let ghost before = out@;
        out[i] = digit;
        proof {
            assert(out@.skip(i + 1) =~= before.skip(i + 1));
            lemma_value_tail(x@, i as int);
            lemma_value_tail(y@, i as int);
            lemma_value_tail(out@, i as int);
            let p = pow10((n - i - 1) as nat) as int;
            assert(pow10((n - i) as nat) == 10 * p);
            let a = x@[i as int] as int;
            let b = y@[i as int] as int;
            let c = carry as int;
            let d = digit as int;
            let e = next as int;
            assert(a + b + c == d + 10 * e);
            assert(a * p + b * p + c * p == d * p + e * (10 * p)) by (nonlinear_arith)
                requires
                    a + b + c == d + 10 * e,
            ;
        }
        carry = next;
    }
    assert(out@.skip(0) =~= out@);
    assert(x@.skip(0) =~= x@);
    assert(y@.skip(0) =~= y@);
    out
}

/// The difference of two runs of equal length: a run of that same length, and
/// whether one had to be borrowed from beyond the first digit, which is so
/// exactly where `y` denotes more than `x`.
pub(crate) fn difference_of(x: &Vec<u8>, y: &Vec<u8>) -> (r: (Vec<u8>, bool))
    requires
        all_decimal(x@),
        all_decimal(y@),
        x@.len() == y@.len(),
    ensures
        r.0@.len() == x@.len(),
        all_decimal(r.0@),
        r.1 == (digits_value(x@) < digits_value(y@)),
        !r.1 ==> digits_value(r.0@) == digits_value(x@) - digits_value(y@),
        r.1 ==> digits_value(r.0@) == digits_value(x@) - digits_value(y@) + pow10(x@.len()),
{
    let n: usize = x.len();
    let mut out: Vec<u8> = blank(n);
    let mut borrow: u8 = 0;
    let mut i: usize = n;
    assert(x@.skip(n as int) =~= Seq::<u8>::empty());
    assert(y@.skip(n as int) =~= Seq::<u8>::empty());
    assert(out@.skip(n as int) =~= Seq::<u8>::empty());
    while i > 0
        invariant
            i <= n,
            n == x@.len(),
            n == y@.len(),
            n == out@.len(),
            all_decimal(x@),
            all_decimal(y@),
            all_decimal(out@),
            borrow <= 1,
            digits_value(x@.skip(i as int)) - digits_value(y@.skip(i as int)) == digits_value(
                out@.skip(i as int),
            ) - borrow * pow10((n - i) as nat),
        decreases i,
    {
        i -= 1;
        let taken: u8 = y[i] + borrow;
        let digit: u8 = if x[i] >= taken {
            x[i] - taken
        } else {
            x[i] + 10 - taken
        };
        let next: u8 = if x[i] >= taken {
            0
        } else {
            1
        };
        let ghost before = out@;
        out[i] = digit;
        proof {
            assert(out@.skip(i + 1) =~= before.skip(i + 1));
            lemma_value_tail(x@, i as int);
            lemma_value_tail(y@, i as int);
            lemma_value_tail(out@, i as int);
            let p = pow10((n - i - 1) as nat) as int;
            assert(pow10((n - i) as nat) == 10 * p);
            let a = x@[i as int] as int;
            let b = y@[i as int] as int;
            let c = borrow as int;
            let d = digit as int;
            let e = next as int;
            assert(a - b - c == d - 10 * e);
            assert(a * p - b * p - c * p == d * p - e * (10 * p)) by (nonlinear_arith)
                requires
                    a - b - c == d - 10 * e,
            ;
        }
        borrow = next;
    }
    proof {
        assert(out@.skip(0) =~= out@);
        assert(x@.skip(0) =~= x@);
        assert(y@.skip(0) =~= y@);
        lemma_value_bound(out@);
        assert(borrow * pow10(n as nat) == if borrow == 1 {
            pow10(n as nat) as int
        } else {
            0
        }) by (nonlinear_arith)
            requires
                borrow <= 1,
        ;
    }
    (out, borrow == 1)
}

/// The product of a run that begins with a zero and one digit: a run of the
/// same length.
pub(crate) fn product_with_digit(x: &Vec<u8>, digit: u8) -> (r: Vec<u8>)
    requires
        all_decimal(x@),
        digit <= 9,
        x@.len() > 0,
        x@[0] == 0,
    ensures
        r@.len() == x@.len(),
        all_decimal(r@),
        digits_value(r@) == digits_value(x@) * digit,
{
    let n: usize = x.len();
    let mut out: Vec<u8> = blank(n);
    let mut carry: u8 = 0;
    let mut i: usize = n;
    assert(x@.skip(n as int) =~= Seq::<u8>::empty());
    assert(out@.skip(n as int) =~= Seq::<u8>::empty());
    assert(digits_value(x@.skip(n as int)) * digit == 0) by (nonlinear_arith)
        requires
            digits_value(x@.skip(n as int)) == 0,
    ;
    while i > 0
        invariant
            i <= n,
            n == x@.len(),
            n == out@.len(),
            x@[0] == 0,
            digit <= 9,
            all_decimal(x@),
            all_decimal(out@),
            carry <= 8,
            i == 0 ==> carry == 0,
            digits_value(x@.skip(i as int)) * digit == digits_value(out@.skip(i as int)) + carry
                * pow10((n - i) as nat),
        decreases i,
    {
        i -= 1;
        assert(x@[i as int] <= 9);
        assert(x@[i as int] * digit <= 81) by (nonlinear_arith)
            requires
                x@[i as int] <= 9,
                digit <= 9,
        ;
        assert(i == 0 ==> x@[i as int] * digit == 0) by (nonlinear_arith)
            requires
                i == 0 ==> x@[i as int] == 0,
        ;
        let total: u8 = x[i] * digit + carry;
        let low: u8 = total % 10;
        let next: u8 = total / 10;
        let ghost before = out@;
        out[i] = low;
        proof {
            assert(out@.skip(i + 1) =~= before.skip(i + 1));
            lemma_value_tail(x@, i as int);
            lemma_value_tail(out@, i as int);
            let p = pow10((n - i - 1) as nat) as int;
            assert(pow10((n - i) as nat) == 10 * p);
            let a = x@[i as int] as int;
            let m = digit as int;
            let c = carry as int;
            let d = low as int;
            let e = next as int;
            let rest = digits_value(x@.skip(i + 1)) as int;
            assert(a * m + c == d + 10 * e);
            assert((a * p + rest) * m == (a * m) * p + rest * m) by (nonlinear_arith);
            assert((a * m) * p + c * p == d * p + e * (10 * p)) by (nonlinear_arith)
                requires
                    a * m + c == d + 10 * e,
            ;
        }
        carry = next;
    }
    assert(out@.skip(0) =~= out@);
    assert(x@.skip(0) =~= x@);
    out
}

/// The product of two runs, without leading zeros but for its last digit.
pub(crate) fn product_of(x: &Vec<u8>, y: &Vec<u8>) -> (r: Vec<u8>)
    requires
        all_decimal(x@),
        all_decimal(y@),
    ensures
        all_decimal(r@),
        r@.len() >= 1,
        r@.len() > 1 ==> r@[0] != 0,
        digits_value(r@) == digits_value(x@) * digits_value(y@),
{
    let wide = widened(x, 0);
    let mut total: Vec<u8> = blank(1);
    let mut j: usize = 0;
    proof {
        lemma_value_zeros(total@);
        assert(y@.take(0) =~= Seq::<u8>::empty());
        assert(digits_value(x@) * 0 == 0) by (nonlinear_arith);
    }
    while j < y.len()
        invariant
            j <= y.len(),
            all_decimal(x@),
            all_decimal(y@),
            all_decimal(wide@),
            wide@.len() > 0,
            wide@[0] == 0,
            digits_value(wide@) == digits_value(x@),
            all_decimal(total@),
            total@.len() >= 1,
            total@.len() > 1 ==> total@[0] != 0,
            digits_value(total@) == digits_value(x@) * digits_value(y@.take(j as int)),
        decreases y.len() - j,
    {
        let digit = y[j];
        assert(digit <= 9);
        let part = product_with_digit(&wide, digit);
        let moved = shifted(&total, 1);
        let a = widened(&moved, part.len());
        let b = widened(&part, moved.len());
        let both = sum_of(&a, &b);
        proof {
            let vx = digits_value(x@) as int;
            let vy = digits_value(y@.take(j as int)) as int;
            assert(y@.take(j + 1) =~= y@.take(j as int).push(digit));
            lemma_value_push(y@.take(j as int), digit);
            assert(pow10(1) == 10) by {
                assert(pow10(0) == 1);
            }
            assert((vx * vy) * 10 + vx * digit == vx * (10 * vy + digit)) by (nonlinear_arith);
        }
        total = trimmed(&both, 1);
        j += 1;
    }
    assert(y@.take(j as int) =~= y@);
    total
}

/// A run of digits denotes at least what any of its prefixes denotes.
pub proof fn lemma_value_grows(prefix: Seq<u8>, digits: Seq<u8>)
    requires
        prefix.len() <= digits.len(),
        prefix =~= digits.take(prefix.len() as int),
    ensures
        digits_value(prefix) <= digits_value(digits),
    decreases digits.len(),
{
    if prefix.len() < digits.len() {
        assert(prefix =~= digits.drop_last().take(prefix.len() as int));
        lemma_value_grows(prefix, digits.drop_last());
    } else {
        assert(prefix =~= digits);
    }
}

/// Whether a run of digits denotes zero.
pub(crate) fn denotes_zero(x: &Vec<u8>) -> (r: bool)
    ensures
        r == (digits_value(x@) == 0),
{
    let mut i: usize = 0;
    while i < x.len()
        invariant
            i <= x.len(),
            digits_value(x@.take(i as int)) == 0,
        decreases x.len() - i,
    {
        proof {
            let next = x@.take(i + 1);
            assert(next.drop_last() =~= x@.take(i as int));
            assert(next.last() == x@[i as int]);
            if x@[i as int] != 0 {
                lemma_value_grows(next, x@);
            }
        }
        if x[i] != 0 {
            return false;
        }
        i += 1;
    }
    assert(x@.take(i as int) =~= x@);
    true
}

/// How a natural number is written: its decimal digits, most significant
/// first, with zeros in front where there are fewer than `width` of them.
pub open spec fn written(n: nat, width: nat) -> Seq<u8>
    decreases n + width,
{
    if n < 10 && width <= 1 {
        seq![n as u8]
    } else {
        written(n / 10, one_less(width)).push((n % 10) as u8)
    }
}

/// One less than `width`, and zero for zero.
pub open spec fn one_less(width: nat) -> nat {
    if width > 0 {
        (width - 1) as nat
    } else {
        0
    }
}

/// What `written` gives is a run of decimal digits, at least `width` long,
/// that denotes the number.
pub proof fn lemma_written(n: nat, width: nat)
    ensures
        all_decimal(written(n, width)),
        written(n, width).len() >= longer(width, 1),
        digits_value(written(n, width)) == n,
    decreases n + width,
{
    if n < 10 && width <= 1 {
        let d = seq![n as u8];
        assert(d =~= Seq::<u8>::empty().push(n as u8));
        lemma_value_push(Seq::<u8>::empty(), n as u8);
    } else {
        let front = written(n / 10, one_less(width));
        lemma_written(n / 10, one_less(width));
        lemma_value_push(front, (n % 10) as u8);
        assert forall|i: int| 0 <= i < front.push((n % 10) as u8).len() implies #[trigger] front.push(
            (n % 10) as u8,
        )[i] <= 9 by {
            if i < front.len() {
                assert(front[i] <= 9);
            }
        }
    }
}

/// A number is written in one way only: a run of decimal digits that is at
/// least `width` long, and begins with no zero where it is longer, is what
/// `written` gives for the number that it denotes.
pub proof fn lemma_written_unique(d: Seq<u8>, width: nat)
    requires
        all_decimal(d),
        d.len() >= longer(width, 1),
        d.len() > longer(width, 1) ==> d[0] != 0,
    ensures
        d == written(digits_value(d), width),
    decreases d.len(),
{
    let n = digits_value(d);
    let front = d.drop_last();
    let last = d.last();
    assert(last <= 9);
    assert(d =~= front.push(last));
    lemma_value_push(front, last);
    if d.len() == 1 {
        assert(front =~= Seq::<u8>::empty());
        assert(d =~= seq![n as u8]);
    } else {
        assert(all_decimal(front)) by {
            assert forall|i: int| 0 <= i < front.len() implies #[trigger] front[i] <= 9 by {
                assert(front[i] == d[i]);
            }
        }
        if width <= 1 {
            assert(front[0] == d[0]);
            lemma_value_tail(front, 0);
            assert(front.skip(0) =~= front);
            lemma_pow10_positive((front.len() - 1) as nat);
            assert(front[0] * pow10((front.len() - 1) as nat) >= 1) by (nonlinear_arith)
                requires
                    front[0] >= 1,
                    pow10((front.len() - 1) as nat) >= 1,
            ;
        }
        assert(n / 10 == digits_value(front));
        assert(n % 10 == last);
        if front.len() > longer(one_less(width), 1) {
            assert(front[0] == d[0]);
        }
        lemma_written_unique(front, one_less(width));
    }
}

/// The digits of a machine number.
pub(crate) fn run_of(n: u128) -> (r: Vec<u8>)
    ensures
        all_decimal(r@),
        r@.len() >= 1,
        digits_value(r@) == n,
{
    let mut out: Vec<u8> = Vec::new();
    let mut rest: u128 = n;
    proof {
        assert(rest * pow10(0) == rest) by (nonlinear_arith)
            requires
                pow10(0) == 1,
        ;
    }
    loop
        invariant
            all_decimal(out@),
            n == rest * pow10(out@.len()) + digits_value(out@),
        ensures
            all_decimal(out@),
            out@.len() >= 1,
            digits_value(out@) == n,
        decreases rest,
    {
        let digit: u8 = (rest % 10) as u8;
        let ghost before = out@;
        let ghost old_rest = rest;
        out.insert(0, digit);
        rest = rest / 10;
        proof {
            let head = seq![digit];
            assert(out@ =~= head + before);
            assert(head =~= Seq::<u8>::empty().push(digit));
            lemma_value_push(Seq::<u8>::empty(), digit);
            lemma_value_concat(head, before);
            let p = pow10(before.len()) as int;
            assert(pow10(out@.len()) == 10 * p);
            let r = rest as int;
            let d = digit as int;
            assert(old_rest == 10 * r + d);
            assert((10 * r + d) * p == r * (10 * p) + d * p) by (nonlinear_arith);
            assert forall|i: int| 0 <= i < out@.len() implies #[trigger] out@[i] <= 9 by {
                if i > 0 {
                    assert(out@[i] == before[i - 1]);
                }
            }
        }
        if rest == 0 {
            proof {
                assert(rest * pow10(out@.len()) == 0) by (nonlinear_arith)
                    requires
                        rest == 0,
                ;
            }
            break ;
        }
    }
    out
}

/// Whether the first run denotes less than the second.
pub(crate) fn run_below(x: &Vec<u8>, y: &Vec<u8>) -> (r: bool)
    requires
        all_decimal(x@),
        all_decimal(y@),
    ensures
        r == (digits_value(x@) < digits_value(y@)),
{
    let a = widened(x, y.len());
    let b = widened(y, x.len());
    let (_, borrowed) = difference_of(&a, &b);
    borrowed
}

} // verus!
