//! Reading rational numbers from text.
//!
//! A token, once surrounding white space is removed, has one of three forms:
//!
//! 1. an integer or a decimal, `-?\d*\.?\d+`: the digits behind the point are
//!    placed over the matching power of ten;
//! 2. a fraction, `-?\d+\s*/\s*-?\d+`;
//! 3. a mixed number, `-?\d+\s+\d+\s*/\s*-?\d+`.
//!
//! A leading minus sign applies to the whole part and to the numerator. The
//! functions of this module read a token from left to right; that they read
//! exactly the texts of these forms is shown in the module `grammar`.

use crate::rational::RationalNumber;
use vstd::prelude::*;

verus! {

/// Why a text is not read as a number.
#[derive(Debug, Clone, PartialEq, Eq)]
pub enum FromStrErr {
    /// The text has none of the three forms; it is carried along.
    ParseError(String),
    /// The text has the form of a fraction whose denominator is zero.
    InvalidNumber,
    /// A radix other than ten was asked for.
    UnsupportedRadix,
}

/// Whether `c` is one of the decimal digits `0` to `9`.
pub open spec fn is_digit(c: char) -> bool {
    '0' <= c <= '9'
}

/// Whether `c` is white space, as Unicode defines it.
pub open spec fn is_space(c: char) -> bool {
    ||| '\u{9}' <= c <= '\u{d}'
    ||| c == ' '
    ||| c == '\u{85}'
    ||| c == '\u{a0}'
    ||| c == '\u{1680}'
    ||| '\u{2000}' <= c <= '\u{200a}'
    ||| c == '\u{2028}'
    ||| c == '\u{2029}'
    ||| c == '\u{202f}'
    ||| c == '\u{205f}'
    ||| c == '\u{3000}'
}

/// The number that the digit `c` stands for.
pub open spec fn digit_of(c: char) -> nat {
    (c as int - '0' as int) as nat
}

/// The number that the decimal digits `s` denote; zero where `s` is empty.
pub open spec fn digits_value(s: Seq<char>) -> nat
    decreases s.len(),
{
    if s.len() == 0 {
        0
    } else {
        digits_value(s.drop_last()) * 10 + digit_of(s.last())
    }
}

/// Ten to the power `n`.
pub open spec fn pow10(n: nat) -> nat
    decreases n,
{
    if n == 0 {
        1
    } else {
        pow10((n - 1) as nat) * 10
    }
}

/// The index behind the longest run of digits that starts at `i`.
pub open spec fn digits_end(s: Seq<char>, i: int) -> int
    decreases s.len() - i,
{
    if 0 <= i < s.len() && is_digit(s[i]) {
        digits_end(s, i + 1)
    } else {
        i
    }
}

/// The index behind the longest run of white space that starts at `i`.
pub open spec fn spaces_end(s: Seq<char>, i: int) -> int
    decreases s.len() - i,
{
    if 0 <= i < s.len() && is_space(s[i]) {
        spaces_end(s, i + 1)
    } else {
        i
    }
}

/// The index at which the longest run of white space that ends before `j`
/// starts.
pub open spec fn spaces_start(s: Seq<char>, j: int) -> int
    decreases j,
{
    if 0 < j <= s.len() && is_space(s[j - 1]) {
        spaces_start(s, j - 1)
    } else {
        j
    }
}

/// `s` without the white space at its two ends.
pub open spec fn trim(s: Seq<char>) -> Seq<char> {
    let lo = spaces_end(s, 0);
    if lo >= s.len() {
        Seq::empty()
    } else {
        s.subrange(lo, spaces_start(s, s.len() as int))
    }
}

/// What a well-formed token says: its sign, whole part, numerator and signed
/// denominator. An integer has numerator 0 over 1, a decimal its fractional
/// digits over a power of ten.
pub struct Reading {
    pub negative: bool,
    pub whole: nat,
    pub numer: nat,
    pub denom: int,
}

/// The number a reading stands for, where its denominator is not zero.
pub open spec fn reading_value(r: Reading) -> real {
    let sign = if r.negative {
        -1real
    } else {
        1real
    };
    sign * (r.whole as real) + (sign * (r.numer as real)) / (r.denom as real)
}

/// The denominator of a fraction, which starts at `from` and runs to the end
/// of `t`: white space, an optional minus sign, digits.
pub open spec fn read_denominator(t: Seq<char>, from: int) -> Option<int> {
    let k = spaces_end(t, from);
    let sign: int = if k < t.len() && t[k] == '-' {
        1
    } else {
        0
    };
    let e = digits_end(t, k + sign);
    if e == t.len() && e > k + sign {
        let magnitude = digits_value(t.subrange(k + sign, e));
        Some(
            if sign == 1 {
                -magnitude
            } else {
                magnitude as int
            },
        )
    } else {
        None
    }
}

/// A fraction or mixed number whose first run of digits is `t[sign..first_end]`.
pub open spec fn read_fraction(t: Seq<char>, sign: int, first_end: int) -> Option<Reading> {
    let first = digits_value(t.subrange(sign, first_end));
    let gap_end = spaces_end(t, first_end);
    if gap_end < t.len() && t[gap_end] == '/' {
        match read_denominator(t, gap_end + 1) {
            Some(denom) => Some(Reading { negative: sign == 1, whole: 0, numer: first, denom }),
            None => None,
        }
    } else if gap_end > first_end {
        let second_end = digits_end(t, gap_end);
        let slash = spaces_end(t, second_end);
        if second_end > gap_end && slash < t.len() && t[slash] == '/' {
            match read_denominator(t, slash + 1) {
                Some(denom) => Some(
                    Reading {
                        negative: sign == 1,
                        whole: first,
                        numer: digits_value(t.subrange(gap_end, second_end)),
                        denom,
                    },
                ),
                None => None,
            }
        } else {
            None
        }
    } else {
        None
    }
}

/// What the trimmed token `t` says, or `None` where it has none of the three
/// forms.
pub open spec fn read_token(t: Seq<char>) -> Option<Reading> {
    let sign: int = if t.len() > 0 && t[0] == '-' {
        1
    } else {
        0
    };
    let first_end = digits_end(t, sign);
    if first_end == t.len() {
        if first_end > sign {
            Some(
                Reading {
                    negative: sign == 1,
                    whole: digits_value(t.subrange(sign, first_end)),
                    numer: 0,
                    denom: 1,
                },
            )
        } else {
            None
        }
    } else if t[first_end] == '.' {
        let last = digits_end(t, first_end + 1);
        if last == t.len() && last > first_end + 1 {
            Some(
                Reading {
                    negative: sign == 1,
                    whole: digits_value(t.subrange(sign, first_end)),
                    numer: digits_value(t.subrange(first_end + 1, last)),
                    denom: pow10((last - first_end - 1) as nat) as int,
                },
            )
        } else {
            None
        }
    } else if first_end > sign {
        read_fraction(t, sign, first_end)
    } else {
        None
    }
}

/// The characters of `s`.
fn chars_of(s: &str) -> (r: Vec<char>)
    ensures
        r@ == s@,
{
    let n = s.unicode_len();
    let mut out: Vec<char> = Vec::new();
    let mut i: usize = 0;
    while i < n
        invariant
            i <= n,
            n == s@.len(),
            out@ == s@.subrange(0, i as int),
        decreases n - i,
    {
        out.push(s.get_char(i));
        i += 1;
    }
    assert(s@.subrange(0, n as int) =~= s@);
    out
}

fn check_space(c: char) -> (r: bool)
    ensures
        r == is_space(c),
{
    (c >= '\u{9}' && c <= '\u{d}') || c == ' ' || c == '\u{85}' || c == '\u{a0}' || c == '\u{1680}'
        || (c >= '\u{2000}' && c <= '\u{200a}') || c == '\u{2028}' || c == '\u{2029}' || c
        == '\u{202f}' || c == '\u{205f}' || c == '\u{3000}'
}

fn check_digit(c: char) -> (r: bool)
    ensures
        r == is_digit(c),
{
    c >= '0' && c <= '9'
}

fn scan_digits(t: &Vec<char>, from: usize) -> (r: usize)
    requires
        from <= t.len(),
    ensures
        r == digits_end(t@, from as int),
        from <= r <= t.len(),
        forall|k: int| from <= k < r ==> is_digit(#[trigger] t@[k]),
{
    let mut i = from;
    while i < t.len() && check_digit(t[i])
        invariant
            from <= i <= t.len(),
            digits_end(t@, from as int) == digits_end(t@, i as int),
            forall|k: int| from <= k < i ==> is_digit(#[trigger] t@[k]),
        decreases t.len() - i,
    {
        i += 1;
    }
    i
}

fn scan_spaces(t: &Vec<char>, from: usize) -> (r: usize)
    requires
        from <= t.len(),
    ensures
        r == spaces_end(t@, from as int),
        from <= r <= t.len(),
{
    let mut i = from;
    while i < t.len() && check_space(t[i])
        invariant
            from <= i <= t.len(),
            spaces_end(t@, from as int) == spaces_end(t@, i as int),
        decreases t.len() - i,
    {
        i += 1;
    }
    i
}

fn scan_spaces_back(t: &Vec<char>, to: usize) -> (r: usize)
    requires
        to <= t.len(),
    ensures
        r == spaces_start(t@, to as int),
        r <= to,
{
    let mut j = to;
    while j > 0 && check_space(t[j - 1])
        invariant
            j <= to <= t.len(),
            spaces_start(t@, to as int) == spaces_start(t@, j as int),
        decreases j,
    {
        j -= 1;
    }
    j
}

/// The characters of `s` without the white space at its two ends.
fn trimmed(s: &Vec<char>) -> (r: Vec<char>)
    ensures
        r@ == trim(s@),
{
    let lo = scan_spaces(s, 0);
    let mut out: Vec<char> = Vec::new();
    if lo >= s.len() {
        return out;
    }
    let hi = scan_spaces_back(s, s.len());
    proof {
        lemma_trim_bounds(s@);
    }
    let mut i = lo;
    while i < hi
        invariant
            lo <= i <= hi <= s.len(),
            out@ == s@.subrange(lo as int, i as int),
        decreases hi - i,
    {
        out.push(s[i]);
        i += 1;
    }
    out
}

/// The two ends that `trim` cuts at are in order.
proof fn lemma_trim_bounds(s: Seq<char>)
    requires
        spaces_end(s, 0) < s.len(),
    ensures
        spaces_end(s, 0) < spaces_start(s, s.len() as int) <= s.len(),
{
    lemma_spaces_end_stops(s, 0);
    lemma_spaces_start_after(s, s.len() as int, spaces_end(s, 0));
}

/// The run of white space from `i` ends within `s`, at a character that is none.
proof fn lemma_spaces_end_stops(s: Seq<char>, i: int)
    requires
        0 <= i <= s.len(),
    ensures
        i <= spaces_end(s, i) <= s.len(),
        spaces_end(s, i) < s.len() ==> !is_space(s[spaces_end(s, i)]),
    decreases s.len() - i,
{
    if i < s.len() && is_space(s[i]) {
        lemma_spaces_end_stops(s, i + 1);
    }
}

/// A character that is no white space, at `p < j`, stops the backward run
/// from `j` behind it.
proof fn lemma_spaces_start_after(s: Seq<char>, j: int, p: int)
    requires
        0 <= p < j <= s.len(),
        !is_space(s[p]),
    ensures
        p < spaces_start(s, j) <= j,
    decreases j,
{
    if is_space(s[j - 1]) {
        lemma_spaces_start_after(s, j - 1, p);
    }
}

/// The number that the digits `t[from..to]` denote.
fn number_from_digits(t: &Vec<char>, from: usize, to: usize) -> (r: RationalNumber)
    requires
        from <= to <= t.len(),
        forall|k: int| from <= k < to ==> is_digit(#[trigger] t@[k]),
    ensures
        r.wf(),
        r@ == digits_value(t@.subrange(from as int, to as int)) as real,
{
    let ten = RationalNumber::from_integer(10);
    let mut acc = RationalNumber::zero();
    let mut i = from;
    while i < to
        invariant
            from <= i <= to <= t.len(),
            forall|k: int| from <= k < to ==> is_digit(#[trigger] t@[k]),
            ten.wf(),
            ten@ == 10real,
            acc.wf(),
            acc@ == digits_value(t@.subrange(from as int, i as int)) as real,
        decreases to - i,
    {
        let c = t[i];
        let d = RationalNumber::from_integer((c as u32 - '0' as u32) as i64);
        proof {
            let before = t@.subrange(from as int, i as int);
            let after = t@.subrange(from as int, i + 1);
            assert(after.drop_last() =~= before);
            assert(after.last() == c);
            assert(digits_value(after) == digits_value(before) * 10 + digit_of(c));
        }
        acc = acc.mul(&ten).add(&d);
        i += 1;
    }
    acc
}

/// Ten to the power `n`.
fn power_of_ten(n: usize) -> (r: RationalNumber)
    ensures
        r.wf(),
        r@ == pow10(n as nat) as real,
{
    let ten = RationalNumber::from_integer(10);
    let mut acc = RationalNumber::one();
    let mut i: usize = 0;
    while i < n
        invariant
            i <= n,
            ten.wf(),
            ten@ == 10real,
            acc.wf(),
            acc@ == pow10(i as nat) as real,
        decreases n - i,
    {
        acc = acc.mul(&ten);
        i += 1;
    }
    acc
}

/// The denominator that starts at `from`, as `read_denominator` describes it.
fn denominator_at(t: &Vec<char>, from: usize) -> (r: Option<RationalNumber>)
    requires
        from <= t.len(),
    ensures
        r is Some <==> read_denominator(t@, from as int) is Some,
        r matches Some(d) ==> d.wf() && d@ == read_denominator(t@, from as int)->0 as real,
{
    let k = scan_spaces(t, from);
    let start = if k < t.len() && t[k] == '-' {
        k + 1
    } else {
        k
    };
    let e = scan_digits(t, start);
    if e == t.len() && e > start {
        let magnitude = number_from_digits(t, start, e);
        if start > k {
            Some(magnitude.neg())
        } else {
            Some(magnitude)
        }
    } else {
        None
    }
}

/// Puts the parts of a reading together: `sign * whole + sign * numer / denom`.
fn assemble(
    negative: bool,
    whole: RationalNumber,
    numer: RationalNumber,
    denom: RationalNumber,
    Ghost(reading): Ghost<Reading>,
) -> (r: Result<RationalNumber, FromStrErr>)
    requires
        whole.wf(),
        numer.wf(),
        denom.wf(),
        reading.negative == negative,
        whole@ == reading.whole as real,
        numer@ == reading.numer as real,
        denom@ == reading.denom as real,
    ensures
        match r {
            Ok(q) => reading.denom != 0 && q.wf() && q@ == reading_value(reading),
            Err(FromStrErr::InvalidNumber) => reading.denom == 0,
            Err(_) => false,
        },
{
    let signed_whole = if negative {
        whole.neg()
    } else {
        whole
    };
    let signed_numer = if negative {
        numer.neg()
    } else {
        numer
    };
    match signed_numer.div(&denom) {
        Ok(fraction) => Ok(signed_whole.add(&fraction)),
        Err(_) => Err(FromStrErr::InvalidNumber),
    }
}

/// Reads a rational number from `s`.
///
/// The token is `s` without surrounding white space. The result is the number
/// it says; `ParseError` with the text `s` where the token has none of the
/// three forms; `InvalidNumber` where it is a fraction over zero.
pub fn parse(s: &str) -> (r: Result<RationalNumber, FromStrErr>)
    ensures
        match r {
            Ok(q) => read_token(trim(s@)) matches Some(reading) && reading.denom != 0 && q.wf()
                && q@ == reading_value(reading),
            Err(FromStrErr::ParseError(text)) => read_token(trim(s@)) is None && text@ == s@,
            Err(FromStrErr::InvalidNumber) => read_token(trim(s@)) matches Some(reading)
                && reading.denom == 0,
            Err(FromStrErr::UnsupportedRadix) => false,
        },
{
    let chars = chars_of(s);
    let t = trimmed(&chars);
    let sign: usize = if t.len() > 0 && t[0] == '-' {
        1
    } else {
        0
    };
    let first_end = scan_digits(&t, sign);
    if first_end == t.len() {
        if first_end > sign {
            let whole = number_from_digits(&t, sign, first_end);
            let ghost reading = read_token(t@)->0;
            assemble(
                sign == 1,
                whole,
                RationalNumber::zero(),
                RationalNumber::one(),
                Ghost(reading),
            )
        } else {
            Err(FromStrErr::ParseError(String::from_str(s)))
        }
    } else if t[first_end] == '.' {
        let last = scan_digits(&t, first_end + 1);
        if last == t.len() && last > first_end + 1 {
            let whole = number_from_digits(&t, sign, first_end);
            let numer = number_from_digits(&t, first_end + 1, last);
            let denom = power_of_ten(last - first_end - 1);
            let ghost reading = read_token(t@)->0;
            proof {
                lemma_pow10_positive((last - first_end - 1) as nat);
            }
            assemble(sign == 1, whole, numer, denom, Ghost(reading))
        } else {
            Err(FromStrErr::ParseError(String::from_str(s)))
        }
    } else if first_end > sign {
        let first = number_from_digits(&t, sign, first_end);
        let gap_end = scan_spaces(&t, first_end);
        if gap_end < t.len() && t[gap_end] == '/' {
            match denominator_at(&t, gap_end + 1) {
                Some(denom) => {
                    let ghost reading = read_token(t@)->0;
                    assemble(sign == 1, RationalNumber::zero(), first, denom, Ghost(reading))
                },
                None => Err(FromStrErr::ParseError(String::from_str(s))),
            }
        } else if gap_end > first_end {
            let second_end = scan_digits(&t, gap_end);
            let slash = scan_spaces(&t, second_end);
            if second_end > gap_end && slash < t.len() && t[slash] == '/' {
                let numer = number_from_digits(&t, gap_end, second_end);
                match denominator_at(&t, slash + 1) {
                    Some(denom) => {
                        let ghost reading = read_token(t@)->0;
                        assemble(sign == 1, first, numer, denom, Ghost(reading))
                    },
                    None => Err(FromStrErr::ParseError(String::from_str(s))),
                }
            } else {
                Err(FromStrErr::ParseError(String::from_str(s)))
            }
        } else {
            Err(FromStrErr::ParseError(String::from_str(s)))
        }
    } else {
        Err(FromStrErr::ParseError(String::from_str(s)))
    }
}

/// A power of ten is positive.
proof fn lemma_pow10_positive(n: nat)
    ensures
        pow10(n) > 0,
    decreases n,
{
    if n > 0 {
        lemma_pow10_positive((n - 1) as nat);
    }
}

impl RationalNumber {
    /// Reads a rational number written in base `radix` from `s`. Only base
    /// ten is supported; for it the result is that of [`parse`].
    pub fn from_str_radix(s: &str, radix: u32) -> (r: Result<RationalNumber, FromStrErr>)
        ensures
            match r {
                Ok(q) => read_token(trim(s@)) matches Some(reading) && radix == 10
                    && reading.denom != 0 && q.wf() && q@ == reading_value(reading),
                Err(FromStrErr::ParseError(text)) => radix == 10 && read_token(trim(s@)) is None
                    && text@ == s@,
                Err(FromStrErr::InvalidNumber) => read_token(trim(s@)) matches Some(reading)
                    && radix == 10 && reading.denom == 0,
                Err(FromStrErr::UnsupportedRadix) => radix != 10,
            },
    {
        if radix != 10 {
            Err(FromStrErr::UnsupportedRadix)
        } else {
            parse(s)
        }
    }
}

/// The number of characters in front of the first comma of `s`: all of them
/// where there is no comma.
pub open spec fn first_comma(s: Seq<char>) -> int
    decreases s.len(),
{
    if s.len() == 0 || s[0] == ',' {
        0
    } else {
        1 + first_comma(s.drop_first())
    }
}

/// The pieces that the commas of `s` separate. A text without comma is one
/// piece.
pub open spec fn tokens(s: Seq<char>) -> Seq<Seq<char>>
    decreases s.len(),
{
    let i = first_comma(s);
    if i < 0 || i >= s.len() {
        seq![s]
    } else {
        seq![s.take(i)] + tokens(s.skip(i + 1))
    }
}

/// The number that `token` says, where it says one.
pub open spec fn number_of(token: Seq<char>) -> Option<real> {
    match read_token(trim(token)) {
        Some(reading) => if reading.denom != 0 {
            Some(reading_value(reading))
        } else {
            None
        },
        None => None,
    }
}

/// Whether `e` is the error that reading `token` gives.
pub open spec fn error_of(token: Seq<char>, e: FromStrErr) -> bool {
    match e {
        FromStrErr::ParseError(text) => read_token(trim(token)) is None && text@ == token,
        FromStrErr::InvalidNumber => read_token(trim(token)) matches Some(reading) && reading.denom
            == 0,
        FromStrErr::UnsupportedRadix => false,
    }
}

/// Where `s` has no comma before `c`, and a comma or its end at `c`, `c` is
/// its first comma.
proof fn lemma_first_comma_is(s: Seq<char>, c: int)
    requires
        0 <= c <= s.len(),
        forall|k: int| 0 <= k < c ==> s[k] != ',',
        c < s.len() ==> s[c] == ',',
    ensures
        first_comma(s) == c,
    decreases s.len(),
{
    if s.len() > 0 && s[0] != ',' {
        assert(c > 0);
        assert forall|k: int| 0 <= k < c - 1 implies s.drop_first()[k] != ',' by {
            assert(s.drop_first()[k] == s[k + 1]);
        }
        lemma_first_comma_is(s.drop_first(), c - 1);
    }
}

/// Reads the numbers of a line, which commas separate.
///
/// The result holds the number of every piece, in order. Where a piece says
/// no number, the result is the error of the first such piece.
pub fn parse_pattern(line: &str) -> (r: Result<Vec<RationalNumber>, FromStrErr>)
    ensures
        match r {
            Ok(numbers) => {
                &&& numbers.len() == tokens(line@).len()
                &&& forall|i: int|
                    0 <= i < numbers.len() ==> number_of(#[trigger] tokens(line@)[i]) == Some(
                        numbers[i]@,
                    )
            },
            Err(e) => exists|i: int|
                {
                    &&& 0 <= i < tokens(line@).len()
                    &&& error_of(#[trigger] tokens(line@)[i], e)
                    &&& forall|j: int| 0 <= j < i ==> number_of(#[trigger] tokens(line@)[j]) is Some
                },
        },
{
    let n = line.unicode_len();
    let mut out: Vec<RationalNumber> = Vec::new();
    let ghost mut done: Seq<Seq<char>> = Seq::empty();
    let mut start: usize = 0;
    proof {
        assert(line@.skip(0) =~= line@);
        assert(done + tokens(line@) =~= tokens(line@));
    }
    loop
        invariant
            start <= n,
            n == line@.len(),
            done.len() == out.len(),
            tokens(line@) == done + tokens(line@.skip(start as int)),
            forall|i: int| 0 <= i < out.len() ==> number_of(#[trigger] done[i]) == Some(out[i]@),
        decreases n - start,
    {
        let ghost rest = line@.skip(start as int);
        let mut end = start;
        while end < n && line.get_char(end) != ','
            invariant
                start <= end <= n,
                n == line@.len(),
                forall|k: int| start <= k < end ==> line@[k] != ',',
            decreases n - end,
        {
            end += 1;
        }
        proof {
            assert forall|k: int| 0 <= k < end - start implies rest[k] != ',' by {
                assert(rest[k] == line@[start + k]);
            }
            lemma_first_comma_is(rest, end - start);
        }
        let token = line.substring_char(start, end);
        assert(token@ =~= rest.take(end - start));
        let ghost all = tokens(line@);
        let ghost at = done.len() as int;
        proof {
            if end < n {
                assert(tokens(rest) == seq![token@] + tokens(rest.skip(end - start + 1)));
                assert(rest.skip(end - start + 1) =~= line@.skip(end + 1));
            } else {
                assert(token@ =~= rest);
                assert(tokens(rest) == seq![rest]);
            }
            assert(all[at] == token@);
            assert forall|j: int| 0 <= j < at implies all[j] == done[j] by {}
        }
        match parse(token) {
            Ok(q) => {
                out.push(q);
                proof {
                    done = done.push(token@);
                }
            },
            Err(e) => {
                proof {
                    assert(error_of(all[at], e));
                    assert forall|j: int| 0 <= j < at implies number_of(#[trigger] all[j]) is Some by {
                        assert(number_of(done[j]) == Some(out[j]@));
                    }
                }
                return Err(e);
            },
        }
        if end >= n {
            proof {
                assert(all =~= done);
            }
            return Ok(out);
        }
        proof {
            assert(all =~= done + tokens(line@.skip(end + 1)));
        }
        start = end + 1;
    }
}


} // verus!
