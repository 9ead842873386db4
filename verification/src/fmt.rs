//! Rendering formulas as text.
//!
//! A formatter builds the text of a formula from five operations. Sums,
//! differences, quotients and negation read the same in every notation; the
//! product, the power and the glyph of the variable are what a notation
//! chooses.

pub mod formatters;

use crate::rational::decimal_text;
use crate::text::{
    ends_with, ends_with_char, integer_text, joined, joined_by, push_char, same_text, starts_with,
    starts_with_char, without_first,
};
use vstd::prelude::*;

verus! {

/// `a - b`: leading minus signs of `b` are dropped.
pub open spec fn subtracted(a: Seq<char>, b: Seq<char>) -> Seq<char>
    decreases b.len(),
{
    if starts_with(b, '-') {
        subtracted(a, b.drop_first())
    } else {
        a.push('-') + b
    }
}

/// `a + b`, which is `a - |b|` where `b` begins with a minus sign.
pub open spec fn added(a: Seq<char>, b: Seq<char>) -> Seq<char> {
    if starts_with(b, '-') {
        subtracted(a, b.drop_first())
    } else {
        a.push('+') + b
    }
}

/// `-a`: a leading minus sign is dropped, else one is put in front.
pub open spec fn negated(a: Seq<char>) -> Seq<char> {
    if starts_with(a, '-') {
        a.drop_first()
    } else {
        seq!['-'] + a
    }
}

/// `a / b`: zero over anything is zero, anything over one is itself, and over
/// minus one its negation.
pub open spec fn divided(a: Seq<char>, b: Seq<char>) -> Seq<char> {
    if a == seq!['0'] {
        a
    } else if b == seq!['1'] {
        a
    } else if b == seq!['-', '1'] {
        negated(a)
    } else {
        a.push('/') + b
    }
}

/// Whether the product of `a` and `b` needs no operator: `a` ends with the
/// variable, `b` begins with it, or a closing bracket meets an opening one.
pub open spec fn juxtaposes(a: Seq<char>, b: Seq<char>, glyph: char) -> bool {
    ends_with(a, glyph) || starts_with(b, glyph) || (ends_with(a, ')') && starts_with(b, '('))
}

/// `a` times `b` with the operator `sign`, or side by side where that reads
/// as a product.
pub open spec fn product_text(a: Seq<char>, b: Seq<char>, glyph: char, sign: char) -> Seq<char> {
    if juxtaposes(a, b, glyph) {
        a + b
    } else {
        a.push(sign) + b
    }
}

/// `a` to the power `b`, written with a caret.
pub open spec fn caret_power(a: Seq<char>, b: Seq<char>) -> Seq<char> {
    a.push('^') + b
}

/// The superscript form of `c`: of a digit, of the minus sign, and of the
/// letter x in its plain and its italic form. Any other character is kept.
pub open spec fn superscript_char(c: char) -> char {
    if c == '1' {
        '\u{b9}'
    } else if c == '2' {
        '\u{b2}'
    } else if c == '3' {
        '\u{b3}'
    } else if '0' <= c <= '9' {
        ((c as int - '0' as int) + 0x2070) as char
    } else if c == '-' {
        '\u{207b}'
    } else if c == 'x' || c == '\u{1d465}' {
        '\u{2e3}'
    } else {
        c
    }
}

/// Every character of `s` in its superscript form.
pub open spec fn superscripted(s: Seq<char>) -> Seq<char> {
    s.map_values(|c: char| superscript_char(c))
}

fn to_superscript(c: char) -> (r: char)
    ensures
        r == superscript_char(c),
{
    if c == '1' {
        '\u{b9}'
    } else if c == '2' {
        '\u{b2}'
    } else if c == '3' {
        '\u{b3}'
    } else if c == '0' {
        '\u{2070}'
    } else if c == '4' {
        '\u{2074}'
    } else if c == '5' {
        '\u{2075}'
    } else if c == '6' {
        '\u{2076}'
    } else if c == '7' {
        '\u{2077}'
    } else if c == '8' {
        '\u{2078}'
    } else if c == '9' {
        '\u{2079}'
    } else if c == '-' {
        '\u{207b}'
    } else if c == 'x' || c == '\u{1d465}' {
        '\u{2e3}'
    } else {
        c
    }
}

/// The text `s` with every character in its superscript form.
pub fn superscript_text(s: &str) -> (r: String)
    ensures
        r@ == superscripted(s@),
{
    let n = s.unicode_len();
    let mut out = String::new();
    let mut i: usize = 0;
    while i < n
        invariant
            i <= n,
            n == s@.len(),
            out@ == superscripted(s@.take(i as int)),
        decreases n - i,
    {
        push_char(&mut out, to_superscript(s.get_char(i)));
        assert(out@ =~= superscripted(s@.take(i + 1)));
        i += 1;
    }
    assert(s@.take(n as int) =~= s@);
    out
}

/// The integer `num` in superscript digits, with a superscript minus sign
/// where it is negative.
pub fn superscript(num: i32) -> (r: String)
    ensures
        r@ == superscripted(decimal_text(num as int)),
{
    let plain = integer_text(num);
    superscript_text(plain.as_str())
}

/// What a notation chooses, and how it then writes the five operations.
///
/// The operations that a notation does not choose have a body here. `x`,
/// `multiply` and `pow` are held to the three functions `glyph`, `multiplied`
/// and `raised`, which default to the plain letter, the asterisk and the caret.
pub trait FmtEr {
    /// The glyph of the variable.
    open spec fn glyph(&self) -> char {
        'x'
    }

    /// The text of the product of `a` and `b`.
    open spec fn multiplied(&self, a: Seq<char>, b: Seq<char>) -> Seq<char> {
        product_text(a, b, 'x', '*')
    }

    /// The text of `a` to the power `b`.
    open spec fn raised(&self, a: Seq<char>, b: Seq<char>) -> Seq<char> {
        caret_power(a, b)
    }

    /// `a + b`.
    fn add(&self, a: &str, b: &str) -> (r: String)
        ensures
            r@ == added(a@, b@),
    {
        if starts_with_char(b, '-') {
            self.subtract(a, without_first(b))
        } else {
            joined_by(a, '+', b)
        }
    }

    /// `a - b`.
    fn subtract(&self, a: &str, b: &str) -> (r: String)
        ensures
            r@ == subtracted(a@, b@),
    {
        let mut rest = b;
        while starts_with_char(rest, '-')
            invariant
                subtracted(a@, rest@) == subtracted(a@, b@),
            decreases rest@.len(),
        {
            rest = without_first(rest);
        }
        joined_by(a, '-', rest)
    }

    /// `a * b`.
    fn multiply(&self, a: &str, b: &str) -> (r: String)
        ensures
            r@ == self.multiplied(a@, b@),
    ;

    /// `a / b`.
    fn divide(&self, a: &str, b: &str) -> (r: String)
        ensures
            r@ == divided(a@, b@),
    {
        proof {
            reveal_strlit("0");
            reveal_strlit("1");
            reveal_strlit("-1");
            assert("0"@ =~= seq!['0']);
            assert("1"@ =~= seq!['1']);
            assert("-1"@ =~= seq!['-', '1']);
        }
        if same_text(a, "0") {
            String::from_str(a)
        } else if same_text(b, "1") {
            String::from_str(a)
        } else if same_text(b, "-1") {
            self.neg(a)
        } else {
            joined_by(a, '/', b)
        }
    }

    /// `a` to the power `b`.
    fn pow(&self, a: &str, b: &str) -> (r: String)
        ensures
            r@ == self.raised(a@, b@),
    ;

    /// `-a`.
    fn neg(&self, a: &str) -> (r: String)
        ensures
            r@ == negated(a@),
    {
        if starts_with_char(a, '-') {
            String::from_str(without_first(a))
        } else {
            let mut out = String::new();
            push_char(&mut out, '-');
            out.append(a);
            assert(out@ =~= seq!['-'] + a@);
            out
        }
    }

    /// The glyph of the variable.
    fn x(&self) -> (c: char)
        ensures
            c == self.glyph(),
    ;
}

/// The product of `a` and `b` with the operator `sign`, or side by side where
/// that reads as a product.
pub fn product(a: &str, b: &str, glyph: char, sign: char) -> (r: String)
    ensures
        r@ == product_text(a@, b@, glyph, sign),
{
    if ends_with_char(a, glyph) || starts_with_char(b, glyph) || (ends_with_char(a, ')')
        && starts_with_char(b, '(')) {
        joined(a, b)
    } else {
        joined_by(a, sign, b)
    }
}

/// What can be rendered as text in the notation `F`.
pub trait FmtAble<F: FmtEr> {
    /// The text of `self` in the notation of `f`.
    spec fn formatted(&self, f: &F) -> Seq<char>;

    /// Whether `self` can be rendered: its invariant.
    spec fn renderable(&self) -> bool;

    /// Renders `self` in the notation of `f`. The same value in the same
    /// notation gives the same text, whenever it is rendered.
    fn format(&self, f: &F) -> (r: String)
        requires
            self.renderable(),
        ensures
            r@ == self.formatted(f),
    ;
}

/// Rendering is a function of the value and the notation: two texts that
/// `format` may return for one value in one notation are the same text.
pub proof fn lemma_rendering_is_repeatable<F: FmtEr, T: FmtAble<F>>(
    item: &T,
    f: &F,
    first: String,
    second: String,
)
    requires
        first@ == item.formatted(f),
        second@ == item.formatted(f),
    ensures
        first@ == second@,
{
}

/// One of the four notations.
#[derive(Debug, Clone, Copy)]
#[allow(non_camel_case_types)]
pub enum FmtEnum {
    Unicode(formatters::Unicode),
    ASCII(formatters::ASCII),
    Java_JS(formatters::Java_JS),
    LaTeX(formatters::LaTeX),
}

impl FmtEnum {
    /// The text of `item` in the notation that `self` names.
    pub open spec fn formatted<
        T: FmtAble<formatters::Unicode> + FmtAble<formatters::ASCII> + FmtAble<
            formatters::Java_JS,
        > + FmtAble<formatters::LaTeX>,
    >(&self, item: &T) -> Seq<char> {
        match self {
            FmtEnum::Unicode(f) => item.formatted(f),
            FmtEnum::ASCII(f) => item.formatted(f),
            FmtEnum::Java_JS(f) => item.formatted(f),
            FmtEnum::LaTeX(f) => item.formatted(f),
        }
    }

    /// Renders `item` in the notation that `self` names.
    pub fn format<
        T: FmtAble<formatters::Unicode> + FmtAble<formatters::ASCII> + FmtAble<
            formatters::Java_JS,
        > + FmtAble<formatters::LaTeX>,
    >(&self, item: &T) -> (r: String)
        requires
            match self {
                FmtEnum::Unicode(f) => FmtAble::<formatters::Unicode>::renderable(item),
                FmtEnum::ASCII(f) => FmtAble::<formatters::ASCII>::renderable(item),
                FmtEnum::Java_JS(f) => FmtAble::<formatters::Java_JS>::renderable(item),
                FmtEnum::LaTeX(f) => FmtAble::<formatters::LaTeX>::renderable(item),
            },
        ensures
            r@ == self.formatted(item),
    {
        match self {
            FmtEnum::Unicode(f) => item.format(f),
            FmtEnum::ASCII(f) => item.format(f),
            FmtEnum::Java_JS(f) => item.format(f),
            FmtEnum::LaTeX(f) => item.format(f),
        }
    }
}

} // verus!
