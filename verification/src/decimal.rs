//! Exact decimal numbers, as the device writes them: an optional sign, an
//! integer part and an optional fraction.

use crate::text::{
    decimal_string, decimal_text, digit_char, lemma_run_end_bounds, run_end, same_text, CharClass,
    Text,
};
use vstd::prelude::*;
use vstd::string::StringExecFns;

verus! {

/// The mathematical content of a [`Decimal`]: its sign and its digits.
pub struct DecimalView {
    /// Whether the number is below zero.
    pub negative: bool,
    /// The digits of the integer part, most significant first.
    pub whole: Seq<char>,
    /// The digits after the decimal point.
    pub fraction: Seq<char>,
}

/// Whether `s` holds decimal digits only.
pub open spec fn all_digits(s: Seq<char>) -> bool {
    forall|i: int| 0 <= i < s.len() ==> CharClass::Digit.contains(#[trigger] s[i])
}

/// `s` without the zeros that lead it; the last digit always stays.
pub open spec fn strip_leading_zeros(s: Seq<char>) -> Seq<char>
    decreases s.len(),
{
    if s.len() > 1 && s[0] == '0' {
        strip_leading_zeros(s.drop_first())
    } else {
        s
    }
}

/// `s` without the zeros that trail it.
pub open spec fn strip_trailing_zeros(s: Seq<char>) -> Seq<char>
    decreases s.len(),
{
    if s.len() > 0 && s.last() == '0' {
        strip_trailing_zeros(s.drop_last())
    } else {
        s
    }
}

/// The digit that `c` writes.
pub open spec fn digit_value(c: char) -> nat {
    (c as u32 - '0' as u32) as nat
}

/// The number that the digits `s` write, most significant first.
pub open spec fn digits_value(s: Seq<char>) -> nat
    decreases s.len(),
{
    if s.len() == 0 {
        0
    } else {
        digits_value(s.drop_last()) * 10 + digit_value(s.last())
    }
}

/// The power of ten with exponent `n`.
pub open spec fn pow10(n: nat) -> nat
    decreases n,
{
    if n == 0 {
        1
    } else {
        10 * pow10((n - 1) as nat)
    }
}

impl DecimalView {
    /// The number of digits behind the point.
    pub open spec fn scale(self) -> nat {
        self.fraction.len()
    }

    /// The number, multiplied by ten to the power of its scale: the integer
    /// that its digits write without the point, with its sign.
    pub open spec fn scaled(self) -> int {
        if self.negative {
            -(digits_value(self.whole + self.fraction) as int)
        } else {
            digits_value(self.whole + self.fraction) as int
        }
    }

    /// Whether the number is zero.
    pub open spec fn is_zero(self) -> bool {
        self.whole == seq!['0'] && self.fraction.len() == 0
    }

    /// The one way of writing a number: an integer part of at least one
    /// digit with no leading zero, a fraction with no trailing zero, and no
    /// sign on zero.
    pub open spec fn canonical(self) -> bool {
        &&& self.whole.len() >= 1
        &&& all_digits(self.whole)
        &&& self.whole.len() > 1 ==> self.whole[0] != '0'
        &&& all_digits(self.fraction)
        &&& self.fraction.len() > 0 ==> self.fraction.last() != '0'
        &&& self.is_zero() ==> !self.negative
    }

    /// The text of the number: `-` if negative, the integer part, and the
    /// fraction behind a point if there is one.
    pub open spec fn text(self) -> Seq<char> {
        let sign = if self.negative { seq!['-'] } else { Seq::<char>::empty() };
        let tail = if self.fraction.len() > 0 {
            seq!['.'] + self.fraction
        } else {
            Seq::<char>::empty()
        };
        sign + self.whole + tail
    }
}

/// The number written as `whole` `.` `fraction` with the given sign, brought
/// to canonical form.
pub open spec fn decimal_of(negative: bool, whole: Seq<char>, fraction: Seq<char>) -> DecimalView {
    let w = strip_leading_zeros(whole);
    let f = strip_trailing_zeros(fraction);
    DecimalView { negative: negative && !(w == seq!['0'] && f.len() == 0), whole: w, fraction: f }
}

/// The number that stands in `s` at `pos`, with the position behind it:
/// an optional `-`, one or more digits, and, if a point and at least one
/// digit follow, that fraction.
pub open spec fn number_at(s: Seq<char>, pos: int) -> Option<(DecimalView, int)> {
    let negative = 0 <= pos < s.len() && s[pos] == '-';
    let start = if negative { pos + 1 } else { pos };
    let whole_end = run_end(s, start, CharClass::Digit);
    let frac_end = run_end(s, whole_end + 1, CharClass::Digit);
    if whole_end <= start {
        None
    } else if whole_end < s.len() && s[whole_end] == '.' && frac_end > whole_end + 1 {
        Some(
            (
                decimal_of(
                    negative,
                    s.subrange(start, whole_end),
                    s.subrange(whole_end + 1, frac_end),
                ),
                frac_end,
            ),
        )
    } else {
        Some((decimal_of(negative, s.subrange(start, whole_end), Seq::empty()), whole_end))
    }
}

/// Stripping leading zeros leaves the part that begins at the first digit
/// that is not a zero, or at the last digit.
pub proof fn lemma_strip_leading(s: Seq<char>, k: int)
    requires
        0 <= k < s.len(),
        forall|i: int| 0 <= i < k ==> s[i] == '0',
        k == s.len() - 1 || s[k] != '0',
    ensures
        strip_leading_zeros(s) == s.subrange(k, s.len() as int),
    decreases k,
{
    if k == 0 {
        assert(s.subrange(0, s.len() as int) == s);
    } else {
        let t = s.drop_first();
        lemma_strip_leading(t, k - 1);
        assert(t.subrange(k - 1, t.len() as int) == s.subrange(k, s.len() as int));
    }
}

/// Stripping trailing zeros leaves the part that ends behind the last digit
/// that is not a zero.
pub proof fn lemma_strip_trailing(s: Seq<char>, k: int)
    requires
        0 <= k <= s.len(),
        forall|i: int| k <= i < s.len() ==> s[i] == '0',
        k == 0 || s[k - 1] != '0',
    ensures
        strip_trailing_zeros(s) == s.subrange(0, k),
    decreases s.len() - k,
{
    if k == s.len() {
        assert(s.subrange(0, k) == s);
    } else {
        let t = s.drop_last();
        lemma_strip_trailing(t, k);
        assert(t.subrange(0, k) == s.subrange(0, k));
    }
}

/// Zeros in front of digits do not change the number.
pub proof fn lemma_leading_zero(s: Seq<char>)
    ensures
        digits_value(seq!['0'] + s) == digits_value(s),
    decreases s.len(),
{
    let all = seq!['0'] + s;
    if s.len() == 0 {
        assert(all.drop_last() =~= Seq::<char>::empty());
        assert(digits_value(all.drop_last()) == 0);
    } else {
        lemma_leading_zero(s.drop_last());
        assert(all.drop_last() =~= seq!['0'] + s.drop_last());
    }
}

/// Stripping leading zeros keeps the number, whatever follows the digits.
pub proof fn lemma_strip_leading_value(s: Seq<char>, rest: Seq<char>)
    ensures
        digits_value(strip_leading_zeros(s) + rest) == digits_value(s + rest),
    decreases s.len(),
{
    if s.len() > 1 && s[0] == '0' {
        let t = s.drop_first();
        lemma_strip_leading_value(t, rest);
        lemma_leading_zero(t + rest);
        assert(seq!['0'] + (t + rest) =~= s + rest);
    }
}

/// A zero behind digits multiplies the number by ten.
pub proof fn lemma_strip_trailing_value(head: Seq<char>, s: Seq<char>)
    ensures
        digits_value(head + s) == digits_value(head + strip_trailing_zeros(s)) * pow10(
            (s.len() - strip_trailing_zeros(s).len()) as nat,
        ),
        strip_trailing_zeros(s).len() <= s.len(),
    decreases s.len(),
{
    if s.len() > 0 && s.last() == '0' {
        let t = s.drop_last();
        lemma_strip_trailing_value(head, t);
        assert((head + s).drop_last() =~= head + t);
        assert((head + s).last() == '0');
        assert(digit_value('0') == 0);
        let kept = digits_value(head + strip_trailing_zeros(t));
        let n = (t.len() - strip_trailing_zeros(t).len()) as nat;
        assert(strip_trailing_zeros(s) == strip_trailing_zeros(t));
        assert(s.len() - strip_trailing_zeros(s).len() == n + 1);
        assert(digits_value(head + s) == digits_value(head + t) * 10);
        assert(digits_value(head + t) == kept * pow10(n));
        assert(pow10(n + 1) == 10 * pow10(n));
        assert(kept * pow10(n) * 10 == kept * pow10(n + 1)) by (nonlinear_arith)
            requires
                pow10(n + 1) == 10 * pow10(n),
        ;
    } else {
        assert(strip_trailing_zeros(s) == s);
        assert(pow10(0) == 1);
        assert(digits_value(head + s) * 1 == digits_value(head + s));
    }
}

/// Canonical form keeps the number: what [`decimal_of`] makes of a sign and
/// digits is that number, with as many digits fewer behind the point as the
/// fraction had zeros at its end.
pub proof fn lemma_decimal_of_value(negative: bool, whole: Seq<char>, fraction: Seq<char>)
    ensures
        decimal_of(negative, whole, fraction).scale() <= fraction.len(),
        decimal_of(negative, whole, fraction).scaled() * pow10(
            (fraction.len() - decimal_of(negative, whole, fraction).scale()) as nat,
        ) == if negative {
            -(digits_value(whole + fraction) as int)
        } else {
            digits_value(whole + fraction) as int
        },
{
    let d = decimal_of(negative, whole, fraction);
    let n = (fraction.len() - strip_trailing_zeros(fraction).len()) as nat;
    lemma_strip_trailing_value(whole, fraction);
    lemma_strip_leading_value(whole, strip_trailing_zeros(fraction));
    let m = digits_value(d.whole + d.fraction);
    assert(digits_value(whole + fraction) == m * pow10(n));
    if d.whole == seq!['0'] && d.fraction.len() == 0 {
        assert(d.whole + d.fraction =~= seq!['0']);
        assert(seq!['0'].drop_last() =~= Seq::<char>::empty());
        assert(digits_value(seq!['0'].drop_last()) == 0);
        assert(m == 0);
        assert(m * pow10(n) == 0) by (nonlinear_arith)
            requires
                m == 0,
        ;
    }
    if d.negative {
        assert((-(m as int)) * pow10(n) == -((m * pow10(n)) as int)) by (nonlinear_arith);
    }
}

/// The number that digits write does not shrink as digits follow.
pub proof fn lemma_digits_value_grows(s: Seq<char>, k: int)
    requires
        0 <= k <= s.len(),
    ensures
        digits_value(s.take(k)) <= digits_value(s),
    decreases s.len() - k,
{
    if k < s.len() {
        lemma_digits_value_grows(s, k + 1);
        assert(s.take(k + 1).drop_last() =~= s.take(k));
    } else {
        assert(s.take(k) =~= s);
    }
}

/// The decimal digits of a number write that number, and are as few as can
/// be: only zero begins with a zero.
pub proof fn lemma_decimal_text_value(n: nat)
    ensures
        digits_value(decimal_text(n)) == n,
        all_digits(decimal_text(n)),
        decimal_text(n).len() >= 1,
        decimal_text(n)[0] == '0' <==> n == 0,
        n < 10 <==> decimal_text(n).len() == 1,
    decreases n,
{
    let text = decimal_text(n);
    if n < 10 {
        assert(text.drop_last() =~= Seq::<char>::empty());
        assert(digits_value(text.drop_last()) == 0);
        assert(digit_value(digit_char(n)) == n);
    } else {
        lemma_decimal_text_value(n / 10);
        let head = decimal_text(n / 10);
        assert(text.drop_last() =~= head);
        assert(digit_value(digit_char(n % 10)) == n % 10);
        assert(text[0] == head[0]);
        assert forall|i: int| 0 <= i < text.len() implies CharClass::Digit.contains(
            #[trigger] text[i],
        ) by {
            if i < head.len() {
                assert(text[i] == head[i]);
            }
        }
    }
}

/// What [`decimal_of`] makes of digits is canonical.
pub proof fn lemma_decimal_of_canonical(negative: bool, whole: Seq<char>, fraction: Seq<char>)
    requires
        whole.len() >= 1,
        all_digits(whole),
        all_digits(fraction),
    ensures
        decimal_of(negative, whole, fraction).canonical(),
{
    lemma_strip_leading_digits(whole);
    lemma_strip_trailing_digits(fraction);
}

proof fn lemma_strip_leading_digits(s: Seq<char>)
    requires
        s.len() >= 1,
        all_digits(s),
    ensures
        all_digits(strip_leading_zeros(s)),
        strip_leading_zeros(s).len() >= 1,
        strip_leading_zeros(s).len() > 1 ==> strip_leading_zeros(s)[0] != '0',
    decreases s.len(),
{
    if s.len() > 1 && s[0] == '0' {
        let t = s.drop_first();
        assert forall|i: int| 0 <= i < t.len() implies CharClass::Digit.contains(
            #[trigger] t[i],
        ) by {
            assert(t[i] == s[i + 1]);
        }
        lemma_strip_leading_digits(t);
    }
}

proof fn lemma_strip_trailing_digits(s: Seq<char>)
    requires
        all_digits(s),
    ensures
        all_digits(strip_trailing_zeros(s)),
        strip_trailing_zeros(s).len() > 0 ==> strip_trailing_zeros(s).last() != '0',
    decreases s.len(),
{
    if s.len() > 0 && s.last() == '0' {
        let t = s.drop_last();
        assert forall|i: int| 0 <= i < t.len() implies CharClass::Digit.contains(
            #[trigger] t[i],
        ) by {
            assert(t[i] == s[i]);
        }
        lemma_strip_trailing_digits(t);
    }
}

/// Finds where the digits in `start..end` become significant: the first
/// digit that is not a zero, or the last digit.
fn first_significant(src: &Text, start: usize, end: usize) -> (first: usize)
    requires
        start < end <= src@.len(),
    ensures
        start <= first < end,
        src@.subrange(first as int, end as int) == strip_leading_zeros(
            src@.subrange(start as int, end as int),
        ),
{
    let mut first = start;
    while first + 1 < end && src.at(first) == '0'
        invariant
            start <= first < end <= src@.len(),
            forall|i: int| start <= i < first ==> src@[i] == '0',
        decreases end - first,
    {
        first += 1;
    }
    proof {
        let digits = src@.subrange(start as int, end as int);
        lemma_strip_leading(digits, first - start);
        assert(digits.subrange(first - start, digits.len() as int) == src@.subrange(
            first as int,
            end as int,
        ));
    }
    first
}

/// Finds where the digits in `start..end` stop being significant: behind the
/// last digit that is not a zero.
fn last_significant(src: &Text, start: usize, end: usize) -> (last: usize)
    requires
        start <= end <= src@.len(),
    ensures
        start <= last <= end,
        src@.subrange(start as int, last as int) == strip_trailing_zeros(
            src@.subrange(start as int, end as int),
        ),
{
    let mut last = end;
    while last > start && src.at(last - 1) == '0'
        invariant
            start <= last <= end <= src@.len(),
            forall|i: int| last <= i < end ==> src@[i] == '0',
        decreases last,
    {
        last -= 1;
    }
    proof {
        let digits = src@.subrange(start as int, end as int);
        lemma_strip_trailing(digits, last - start);
        assert(digits.subrange(0, last - start) == src@.subrange(start as int, last as int));
    }
    last
}

/// An exact decimal number in canonical form.
#[derive(Debug, PartialEq, Eq)]
pub struct Decimal {
    negative: bool,
    whole: String,
    fraction: String,
}

impl View for Decimal {
    type V = DecimalView;

    closed spec fn view(&self) -> DecimalView {
        DecimalView { negative: self.negative, whole: self.whole@, fraction: self.fraction@ }
    }
}

impl Clone for Decimal {
    fn clone(&self) -> (copy: Self)
        ensures
            copy@ == self@,
    {
        proof {
            use_type_invariant(self);
        }
        Decimal {
            negative: self.negative,
            whole: self.whole.clone(),
            fraction: self.fraction.clone(),
        }
    }
}

impl Decimal {
    #[verifier::type_invariant]
    spec fn well_formed(&self) -> bool {
        self@.canonical()
    }

    /// Reads the number that stands in `src` at `pos`, if one does.
    #[verifier::rlimit(40)]
    pub fn read(src: &Text, pos: usize) -> (found: Option<(Decimal, usize)>)
        requires
            pos <= src@.len(),
        ensures
            match found {
                Some((d, end)) => number_at(src@, pos as int) == Some((d@, end as int)) && pos < end
                    <= src@.len() && d@.canonical(),
                None => number_at(src@, pos as int) is None,
            },
    {
        let n = src.len();
        let negative = pos < n && src.at(pos) == '-';
        let start = if negative { pos + 1 } else { pos };
        let whole_end = src.run(start, CharClass::Digit);
        if whole_end == start {
            return None;
        }
        let ghost s = src@;
        let mut frac_start = whole_end;
        let mut frac_end = whole_end;
        if whole_end < n && src.at(whole_end) == '.' {
            let e = src.run(whole_end + 1, CharClass::Digit);
            if e > whole_end + 1 {
                frac_start = whole_end + 1;
                frac_end = e;
            }
        }
        proof {
            lemma_run_end_bounds(s, start as int, CharClass::Digit);
            if whole_end < n {
                lemma_run_end_bounds(s, whole_end + 1, CharClass::Digit);
            }
            assert(s.subrange(whole_end as int, whole_end as int) =~= Seq::<char>::empty());
        }
        let first = first_significant(src, start, whole_end);
        let last = last_significant(src, frac_start, frac_end);
        let zero = last == frac_start && whole_end - first == 1 && src.at(first) == '0';
        let whole = src.owned(first, whole_end);
        let fraction = src.owned(frac_start, last);
        proof {
            lemma_decimal_of_canonical(
                negative,
                s.subrange(start as int, whole_end as int),
                s.subrange(frac_start as int, frac_end as int),
            );
            if zero {
                assert(whole@ =~= seq!['0']);
            }
            if whole@ == seq!['0'] {
                assert(whole@.len() == 1 && whole@[0] == '0');
            }
        }
        Some((Decimal { negative: negative && !zero, whole, fraction }, frac_end))
    }

    /// Reads `text` as a number. `None` unless all of it is one.
    pub fn parse(text: &str) -> (found: Option<Decimal>)
        ensures
            match found {
                Some(d) => number_at(text@, 0) == Some((d@, text@.len() as int)) && d@.canonical(),
                None => !(number_at(text@, 0) matches Some((_, end)) && end == text@.len()),
            },
    {
        let src = Text::new(text);
        match Decimal::read(&src, 0) {
            Some((d, end)) => if end == src.len() {
                Some(d)
            } else {
                None
            },
            None => None,
        }
    }

    /// The integer `n` as a number.
    pub fn from_integer(n: i64) -> (number: Decimal)
        ensures
            number@.scale() == 0,
            number@.scaled() == n,
            number@.canonical(),
    {
        let magnitude: u128 = if n < 0 {
            (-(n as i128)) as u128
        } else {
            n as u128
        };
        let whole = decimal_string(magnitude);
        let fraction = String::new();
        proof {
            lemma_decimal_text_value(magnitude as nat);
            assert(whole@ + fraction@ =~= whole@);
            if whole@ == seq!['0'] {
                assert(whole@[0] == '0');
            }
        }
        Decimal { negative: n < 0, whole, fraction }
    }

    /// The number as an integer, if it is one and an `i64` holds it.
    pub fn as_integer(&self) -> (integer: Option<i64>)
        ensures
            match integer {
                Some(n) => self@.scale() == 0 && self@.scaled() == n,
                None => self@.scale() > 0 || self@.scaled() < i64::MIN || self@.scaled()
                    > i64::MAX,
            },
    {
        proof {
            use_type_invariant(self);
        }
        if !self.fraction.as_str().is_empty() {
            return None;
        }
        let digits = Text::new(self.whole.as_str());
        let ghost whole = self.whole@;
        proof {
            assert(self.fraction@ =~= Seq::<char>::empty());
            assert(whole + self.fraction@ =~= whole);
            assert(whole.take(0) =~= Seq::<char>::empty());
        }
        let limit: u128 = 9223372036854775808;
        let mut magnitude: u128 = 0;
        let mut i: usize = 0;
        while i < digits.len()
            invariant
                i <= digits@.len(),
                digits@ == whole,
                all_digits(whole),
                limit == 9223372036854775808,
                self@.scale() == 0,
                self@.scaled() == if self@.negative {
                    -(digits_value(whole) as int)
                } else {
                    digits_value(whole) as int
                },
                magnitude <= limit,
                magnitude == digits_value(whole.take(i as int)),
            decreases digits@.len() - i,
        {
            let c = digits.at(i);
            assert(CharClass::Digit.contains(whole[i as int]));
            let digit = (c as u32 - 48) as u128;
            proof {
                assert(whole.take(i + 1).drop_last() =~= whole.take(i as int));
                assert(whole.take(i + 1).last() == c);
            }
            magnitude = magnitude * 10 + digit;
            i += 1;
            if magnitude > limit {
                proof {
                    lemma_digits_value_grows(whole, i as int);
                }
                return None;
            }
        }
        assert(whole.take(i as int) =~= whole);
        if self.negative {
            Some((-(magnitude as i128)) as i64)
        } else if magnitude < limit {
            Some(magnitude as i64)
        } else {
            None
        }
    }

    /// Whether two numbers are the same.
    pub fn same(&self, other: &Decimal) -> (same: bool)
        ensures
            same == (self@ == other@),
    {
        self.negative == other.negative && self.whole == other.whole && self.fraction
            == other.fraction
    }

    /// Whether the number is zero.
    pub fn is_zero(&self) -> (zero: bool)
        ensures
            zero == self@.is_zero(),
            self@.canonical(),
    {
        proof {
            use_type_invariant(self);
        }
        let zero = self.fraction.as_str().is_empty() && same_text(
            self.whole.as_str(),
            "0",
        );
        proof {
            reveal_strlit("0");
            assert("0"@ =~= seq!['0']);
        }
        zero
    }

    /// Whether the number is below zero.
    pub fn is_negative(&self) -> (b: bool)
        ensures
            b == self@.negative,
    {
        self.negative
    }

    /// The digits of the integer part.
    pub fn whole_digits(&self) -> (digits: &str)
        ensures
            digits@ == self@.whole,
    {
        self.whole.as_str()
    }

    /// The digits after the decimal point; empty for an integer.
    pub fn fraction_digits(&self) -> (digits: &str)
        ensures
            digits@ == self@.fraction,
    {
        self.fraction.as_str()
    }

    /// Writes the number down.
    pub fn to_text(&self) -> (out: String)
        ensures
            out@ == self@.text(),
    {
        let mut out = String::new();
        if self.negative {
            proof {
                reveal_strlit("-");
            }
            out.append("-");
            assert(out@ =~= seq!['-']);
        }
        out.append(self.whole.as_str());
        if !self.fraction.as_str().is_empty() {
            proof {
                reveal_strlit(".");
            }
            let ghost before = out@;
            out.append(".");
            out.append(self.fraction.as_str());
            assert(out@ =~= before + (seq!['.'] + self.fraction@));
        }
        assert(out@ =~= self@.text());
        out
    }
}

} // verus!
