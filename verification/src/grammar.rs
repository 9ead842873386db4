//! The forms of a token, stated by what they are made of, and their agreement
//! with the way a token is read.

use crate::user_input::{
    digits_end, digits_value, is_digit, is_space, pow10, read_denominator, read_token, spaces_end,
    Reading,
};
use vstd::prelude::*;

verus! {

/// Whether every character of `s` is a digit.
pub open spec fn all_digits(s: Seq<char>) -> bool {
    forall|i: int| 0 <= i < s.len() ==> is_digit(#[trigger] s[i])
}

/// Whether every character of `s` is white space.
pub open spec fn all_spaces(s: Seq<char>) -> bool {
    forall|i: int| 0 <= i < s.len() ==> is_space(#[trigger] s[i])
}

/// A minus sign for a negative number, nothing else.
pub open spec fn sign_text(negative: bool) -> Seq<char> {
    if negative {
        seq!['-']
    } else {
        Seq::empty()
    }
}

/// An integer: an optional minus sign and at least one digit.
pub open spec fn integer_form(negative: bool, digits: Seq<char>) -> Seq<char> {
    sign_text(negative) + digits
}

/// A decimal: an optional minus sign, digits, a point, at least one digit.
pub open spec fn decimal_form(negative: bool, whole: Seq<char>, fraction: Seq<char>) -> Seq<char> {
    sign_text(negative) + whole + seq!['.'] + fraction
}

/// The tail of a fraction: white space, the slash, white space, an optional
/// minus sign, the digits of the denominator.
pub open spec fn over_form(
    before: Seq<char>,
    after: Seq<char>,
    denom_negative: bool,
    denom: Seq<char>,
) -> Seq<char> {
    before + seq!['/'] + after + sign_text(denom_negative) + denom
}

/// A fraction: an optional minus sign, the digits of the numerator, and the
/// denominator behind a slash.
pub open spec fn fraction_form(negative: bool, numer: Seq<char>, over: Seq<char>) -> Seq<char> {
    sign_text(negative) + numer + over
}

/// A mixed number: an optional minus sign, the digits of the whole part,
/// white space, and a fraction without sign.
pub open spec fn mixed_form(
    negative: bool,
    whole: Seq<char>,
    gap: Seq<char>,
    numer: Seq<char>,
    over: Seq<char>,
) -> Seq<char> {
    sign_text(negative) + whole + gap + numer + over
}

/// The integer that the digits `digits` behind an optional minus sign denote.
pub open spec fn signed_value(negative: bool, digits: Seq<char>) -> int {
    if negative {
        -digits_value(digits)
    } else {
        digits_value(digits) as int
    }
}

/// A run of digits from `i` that something other than a digit, or the end of
/// the text, ends at `k` is the longest one.
pub proof fn lemma_digits_run(t: Seq<char>, i: int, k: int)
    requires
        0 <= i <= k <= t.len(),
        forall|j: int| i <= j < k ==> is_digit(#[trigger] t[j]),
        k < t.len() ==> !is_digit(t[k]),
    ensures
        digits_end(t, i) == k,
    decreases k - i,
{
    if i < k {
        lemma_digits_run(t, i + 1, k);
    }
}

/// A run of white space from `i` that something other than white space, or
/// the end of the text, ends at `k` is the longest one.
pub proof fn lemma_spaces_run(t: Seq<char>, i: int, k: int)
    requires
        0 <= i <= k <= t.len(),
        forall|j: int| i <= j < k ==> is_space(#[trigger] t[j]),
        k < t.len() ==> !is_space(t[k]),
    ensures
        spaces_end(t, i) == k,
    decreases k - i,
{
    if i < k {
        lemma_spaces_run(t, i + 1, k);
    }
}

/// The longest run of digits from `i` holds digits only, and ends within the
/// text at something that is no digit.
pub proof fn lemma_digits_end(t: Seq<char>, i: int)
    requires
        0 <= i <= t.len(),
    ensures
        i <= digits_end(t, i) <= t.len(),
        forall|j: int| i <= j < digits_end(t, i) ==> is_digit(#[trigger] t[j]),
        digits_end(t, i) < t.len() ==> !is_digit(t[digits_end(t, i)]),
    decreases t.len() - i,
{
    if i < t.len() && is_digit(t[i]) {
        lemma_digits_end(t, i + 1);
    }
}

/// The longest run of white space from `i` holds white space only, and ends
/// within the text at something that is none.
pub proof fn lemma_spaces_end(t: Seq<char>, i: int)
    requires
        0 <= i <= t.len(),
    ensures
        i <= spaces_end(t, i) <= t.len(),
        forall|j: int| i <= j < spaces_end(t, i) ==> is_space(#[trigger] t[j]),
        spaces_end(t, i) < t.len() ==> !is_space(t[spaces_end(t, i)]),
    decreases t.len() - i,
{
    if i < t.len() && is_space(t[i]) {
        lemma_spaces_end(t, i + 1);
    }
}

/// An integer is read as its digits say.
pub proof fn lemma_reads_integer(negative: bool, digits: Seq<char>)
    requires
        digits.len() >= 1,
        all_digits(digits),
    ensures
        read_token(integer_form(negative, digits)) == Some(
            Reading { negative, whole: digits_value(digits), numer: 0, denom: 1 },
        ),
{
    let t = integer_form(negative, digits);
    let sign = sign_text(negative).len() as int;
    assert forall|j: int| sign <= j < t.len() implies is_digit(#[trigger] t[j]) by {
        assert(t[j] == digits[j - sign]);
    }
    assert(is_digit(t[sign]));
    lemma_digits_run(t, sign, t.len() as int);
    assert(t.subrange(sign, t.len() as int) =~= digits);
}

/// A decimal is read as its whole part and its fractional digits over the
/// matching power of ten.
pub proof fn lemma_reads_decimal(negative: bool, whole: Seq<char>, fraction: Seq<char>)
    requires
        all_digits(whole),
        fraction.len() >= 1,
        all_digits(fraction),
    ensures
        read_token(decimal_form(negative, whole, fraction)) == Some(
            Reading {
                negative,
                whole: digits_value(whole),
                numer: digits_value(fraction),
                denom: pow10(fraction.len()) as int,
            },
        ),
{
    let t = decimal_form(negative, whole, fraction);
    let sign = sign_text(negative).len() as int;
    let point = sign + whole.len();
    assert(t[point] == '.');
    assert forall|j: int| sign <= j < point implies is_digit(#[trigger] t[j]) by {
        assert(t[j] == whole[j - sign]);
    }
    assert forall|j: int| point + 1 <= j < t.len() implies is_digit(#[trigger] t[j]) by {
        assert(t[j] == fraction[j - point - 1]);
    }
    if !negative {
        if whole.len() > 0 {
            assert(t[0] == whole[0]);
        }
    }
    lemma_digits_run(t, sign, point);
    lemma_digits_run(t, point + 1, t.len() as int);
    assert(t.subrange(sign, point) =~= whole);
    assert(t.subrange(point + 1, t.len() as int) =~= fraction);
}

/// The tail of a fraction, from the end of the numerator on, is read as the
/// denominator that its digits and its sign say.
pub proof fn lemma_reads_over(
    t: Seq<char>,
    from: int,
    before: Seq<char>,
    after: Seq<char>,
    denom_negative: bool,
    denom: Seq<char>,
)
    requires
        0 <= from <= t.len(),
        t.subrange(from, t.len() as int) == over_form(before, after, denom_negative, denom),
        all_spaces(before),
        all_spaces(after),
        denom.len() >= 1,
        all_digits(denom),
    ensures
        spaces_end(t, from) == from + before.len(),
        t[from + before.len()] == '/',
        read_denominator(t, from + before.len() + 1) == Some(signed_value(denom_negative, denom)),
{
    let over = over_form(before, after, denom_negative, denom);
    let slash = from + before.len();
    let mark = slash + 1 + after.len();
    let sign = sign_text(denom_negative).len() as int;
    assert(t.len() == from + over.len());
    assert forall|j: int| from <= j < t.len() implies t[j] == over[j - from] by {
        assert(t.subrange(from, t.len() as int)[j - from] == t[j]);
    }
    assert forall|j: int| from <= j < slash implies is_space(#[trigger] t[j]) by {
        assert(over[j - from] == before[j - from]);
    }
    assert(t[slash] == over[before.len() as int]);
    assert forall|j: int| slash + 1 <= j < mark implies is_space(#[trigger] t[j]) by {
        assert(over[j - from] == after[j - slash - 1]);
    }
    assert forall|j: int| mark + sign <= j < t.len() implies is_digit(#[trigger] t[j]) by {
        assert(over[j - from] == denom[j - mark - sign]);
    }
    if denom_negative {
        assert(t[mark] == over[mark - from]);
        assert(t[mark] == '-');
    } else {
        assert(t[mark] == over[mark - from]);
        assert(t[mark] == denom[0]);
        assert(is_digit(t[mark]));
    }
    lemma_spaces_run(t, from, slash);
    lemma_spaces_run(t, slash + 1, mark);
    lemma_digits_run(t, mark + sign, t.len() as int);
    assert(t.subrange(mark + sign, t.len() as int) =~= denom);
}

/// A fraction is read as its numerator over its signed denominator.
pub proof fn lemma_reads_fraction(
    negative: bool,
    numer: Seq<char>,
    before: Seq<char>,
    after: Seq<char>,
    denom_negative: bool,
    denom: Seq<char>,
)
    requires
        numer.len() >= 1,
        all_digits(numer),
        all_spaces(before),
        all_spaces(after),
        denom.len() >= 1,
        all_digits(denom),
    ensures
        read_token(
            fraction_form(negative, numer, over_form(before, after, denom_negative, denom)),
        ) == Some(
            Reading {
                negative,
                whole: 0,
                numer: digits_value(numer),
                denom: signed_value(denom_negative, denom),
            },
        ),
{
    let over = over_form(before, after, denom_negative, denom);
    let t = fraction_form(negative, numer, over);
    let sign = sign_text(negative).len() as int;
    let first_end = sign + numer.len();
    assert forall|j: int| sign <= j < first_end implies is_digit(#[trigger] t[j]) by {
        assert(t[j] == numer[j - sign]);
    }
    assert(t[sign] == numer[0]);
    assert(t[first_end] == over[0]);
    assert(over[0] == if before.len() > 0 {
        before[0]
    } else {
        '/'
    });
    lemma_digits_run(t, sign, first_end);
    assert(t.subrange(sign, first_end) =~= numer);
    assert(t.subrange(first_end, t.len() as int) =~= over);
    lemma_reads_over(t, first_end, before, after, denom_negative, denom);
}

/// A mixed number is read as its whole part, its numerator and its signed
/// denominator.
pub proof fn lemma_reads_mixed(
    negative: bool,
    whole: Seq<char>,
    gap: Seq<char>,
    numer: Seq<char>,
    before: Seq<char>,
    after: Seq<char>,
    denom_negative: bool,
    denom: Seq<char>,
)
    requires
        whole.len() >= 1,
        all_digits(whole),
        gap.len() >= 1,
        all_spaces(gap),
        numer.len() >= 1,
        all_digits(numer),
        all_spaces(before),
        all_spaces(after),
        denom.len() >= 1,
        all_digits(denom),
    ensures
        read_token(
            mixed_form(negative, whole, gap, numer, over_form(before, after, denom_negative, denom)),
        ) == Some(
            Reading {
                negative,
                whole: digits_value(whole),
                numer: digits_value(numer),
                denom: signed_value(denom_negative, denom),
            },
        ),
{
    let over = over_form(before, after, denom_negative, denom);
    let t = mixed_form(negative, whole, gap, numer, over);
    let sign = sign_text(negative).len() as int;
    let first_end = sign + whole.len();
    let gap_end = first_end + gap.len();
    let second_end = gap_end + numer.len();
    assert forall|j: int| sign <= j < first_end implies is_digit(#[trigger] t[j]) by {
        assert(t[j] == whole[j - sign]);
    }
    assert forall|j: int| first_end <= j < gap_end implies is_space(#[trigger] t[j]) by {
        assert(t[j] == gap[j - first_end]);
    }
    assert forall|j: int| gap_end <= j < second_end implies is_digit(#[trigger] t[j]) by {
        assert(t[j] == numer[j - gap_end]);
    }
    assert(t[sign] == whole[0]);
    assert(t[first_end] == gap[0]);
    assert(t[gap_end] == numer[0]);
    assert(t[second_end] == over[0]);
    assert(over[0] == if before.len() > 0 {
        before[0]
    } else {
        '/'
    });
    lemma_digits_run(t, sign, first_end);
    lemma_spaces_run(t, first_end, gap_end);
    lemma_digits_run(t, gap_end, second_end);
    assert(t.subrange(sign, first_end) =~= whole);
    assert(t.subrange(gap_end, second_end) =~= numer);
    assert(t.subrange(second_end, t.len() as int) =~= over);
    lemma_reads_over(t, second_end, before, after, denom_negative, denom);
}

/// Whether `t` is an integer: an optional minus sign and at least one digit.
pub open spec fn is_integer_text(t: Seq<char>) -> bool {
    exists|negative: bool, digits: Seq<char>|
        digits.len() >= 1 && all_digits(digits) && t == #[trigger] integer_form(negative, digits)
}

/// Whether `t` is a decimal: an optional minus sign, digits, a point, at
/// least one digit.
pub open spec fn is_decimal_text(t: Seq<char>) -> bool {
    exists|negative: bool, whole: Seq<char>, fraction: Seq<char>|
        all_digits(whole) && fraction.len() >= 1 && all_digits(fraction) && t
            == #[trigger] decimal_form(negative, whole, fraction)
}

/// Whether `over` is the tail of a fraction: white space, the slash, white
/// space, an optional minus sign, at least one digit.
pub open spec fn is_over_text(over: Seq<char>) -> bool {
    exists|before: Seq<char>, after: Seq<char>, denom_negative: bool, denom: Seq<char>|
        all_spaces(before) && all_spaces(after) && denom.len() >= 1 && all_digits(denom) && over
            == #[trigger] over_form(before, after, denom_negative, denom)
}

/// Whether `t` is a fraction: an optional minus sign, at least one digit, and
/// the tail of a fraction.
pub open spec fn is_fraction_text(t: Seq<char>) -> bool {
    exists|negative: bool, numer: Seq<char>, over: Seq<char>|
        numer.len() >= 1 && all_digits(numer) && is_over_text(over) && t
            == #[trigger] fraction_form(negative, numer, over)
}

/// Whether `t` is a mixed number: an optional minus sign, at least one digit,
/// white space, at least one digit, and the tail of a fraction.
pub open spec fn is_mixed_text(t: Seq<char>) -> bool {
    exists|negative: bool, whole: Seq<char>, gap: Seq<char>, numer: Seq<char>, over: Seq<char>|
        whole.len() >= 1 && all_digits(whole) && gap.len() >= 1 && all_spaces(gap) && numer.len()
            >= 1 && all_digits(numer) && is_over_text(over) && t == #[trigger] mixed_form(
            negative,
            whole,
            gap,
            numer,
            over,
        )
}

/// Whether `t` has one of the forms of a number.
pub open spec fn is_number_text(t: Seq<char>) -> bool {
    is_integer_text(t) || is_decimal_text(t) || is_fraction_text(t) || is_mixed_text(t)
}

/// What is read as a denominator behind a slash is the tail of a fraction.
pub proof fn lemma_over_parts(t: Seq<char>, from: int, slash: int)
    requires
        0 <= from <= slash < t.len(),
        slash == spaces_end(t, from),
        t[slash] == '/',
        read_denominator(t, slash + 1) is Some,
    ensures
        is_over_text(t.subrange(from, t.len() as int)),
{
    let len = t.len() as int;
    lemma_spaces_end(t, from);
    lemma_spaces_end(t, slash + 1);
    let mark = spaces_end(t, slash + 1);
    let sign: int = if mark < len && t[mark] == '-' {
        1
    } else {
        0
    };
    lemma_digits_end(t, mark + sign);
    let before = t.subrange(from, slash);
    let after = t.subrange(slash + 1, mark);
    let denom = t.subrange(mark + sign, len);
    let denom_negative = sign == 1;
    assert(t.subrange(from, len) =~= over_form(before, after, denom_negative, denom));
}

/// What is read as a number has one of the forms of a number.
pub proof fn lemma_read_has_form(t: Seq<char>)
    requires
        read_token(t) is Some,
    ensures
        is_number_text(t),
{
    let len = t.len() as int;
    let sign: int = if len > 0 && t[0] == '-' {
        1
    } else {
        0
    };
    let negative = sign == 1;
    lemma_digits_end(t, sign);
    let first_end = digits_end(t, sign);
    let first = t.subrange(sign, first_end);
    if first_end == len {
        assert(t =~= integer_form(negative, first));
        assert(is_integer_text(t));
    } else if t[first_end] == '.' {
        lemma_digits_end(t, first_end + 1);
        let fraction = t.subrange(first_end + 1, len);
        assert(t =~= decimal_form(negative, first, fraction));
        assert(is_decimal_text(t));
    } else {
        lemma_spaces_end(t, first_end);
        let gap_end = spaces_end(t, first_end);
        if gap_end < len && t[gap_end] == '/' {
            let over = t.subrange(first_end, len);
            lemma_over_parts(t, first_end, gap_end);
            assert(t =~= fraction_form(negative, first, over));
            assert(is_fraction_text(t));
        } else {
            lemma_digits_end(t, gap_end);
            let second_end = digits_end(t, gap_end);
            lemma_spaces_end(t, second_end);
            let slash = spaces_end(t, second_end);
            let gap = t.subrange(first_end, gap_end);
            let numer = t.subrange(gap_end, second_end);
            let over = t.subrange(second_end, len);
            lemma_over_parts(t, second_end, slash);
            assert(t =~= mixed_form(negative, first, gap, numer, over));
            assert(is_mixed_text(t));
        }
    }
}

/// What has one of the forms of a number is read as a number.
pub proof fn lemma_form_is_read(t: Seq<char>)
    requires
        is_number_text(t),
    ensures
        read_token(t) is Some,
{
    if is_integer_text(t) {
        let (negative, digits) = choose|negative: bool, digits: Seq<char>|
            digits.len() >= 1 && all_digits(digits) && t == #[trigger] integer_form(
                negative,
                digits,
            );
        lemma_reads_integer(negative, digits);
    } else if is_decimal_text(t) {
        let (negative, whole, fraction) = choose|
            negative: bool,
            whole: Seq<char>,
            fraction: Seq<char>,
        |
            all_digits(whole) && fraction.len() >= 1 && all_digits(fraction) && t
                == #[trigger] decimal_form(negative, whole, fraction);
        lemma_reads_decimal(negative, whole, fraction);
    } else if is_fraction_text(t) {
        let (negative, numer, over) = choose|negative: bool, numer: Seq<char>, over: Seq<char>|
            numer.len() >= 1 && all_digits(numer) && is_over_text(over) && t
                == #[trigger] fraction_form(negative, numer, over);
        let (before, after, denom_negative, denom) = choose|
            before: Seq<char>,
            after: Seq<char>,
            denom_negative: bool,
            denom: Seq<char>,
        |
            all_spaces(before) && all_spaces(after) && denom.len() >= 1 && all_digits(denom)
                && over == #[trigger] over_form(before, after, denom_negative, denom);
        lemma_reads_fraction(negative, numer, before, after, denom_negative, denom);
    } else {
        let (negative, whole, gap, numer, over) = choose|
            negative: bool,
            whole: Seq<char>,
            gap: Seq<char>,
            numer: Seq<char>,
            over: Seq<char>,
        |
            whole.len() >= 1 && all_digits(whole) && gap.len() >= 1 && all_spaces(gap)
                && numer.len() >= 1 && all_digits(numer) && is_over_text(over) && t
                == #[trigger] mixed_form(negative, whole, gap, numer, over);
        let (before, after, denom_negative, denom) = choose|
            before: Seq<char>,
            after: Seq<char>,
            denom_negative: bool,
            denom: Seq<char>,
        |
            all_spaces(before) && all_spaces(after) && denom.len() >= 1 && all_digits(denom)
                && over == #[trigger] over_form(before, after, denom_negative, denom);
        lemma_reads_mixed(negative, whole, gap, numer, before, after, denom_negative, denom);
    }
}

/// A text is read as a number exactly where it has one of the four forms: an
/// integer, a decimal, a fraction or a mixed number.
pub proof fn lemma_read_iff_form(t: Seq<char>)
    ensures
        read_token(t) is Some <==> is_number_text(t),
{
    if read_token(t) is Some {
        lemma_read_has_form(t);
    }
    if is_number_text(t) {
        lemma_form_is_read(t);
    }
}


} // verus!
