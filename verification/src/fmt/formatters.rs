//! The four notations.

use crate::fmt::{product, product_text, superscript_text, superscripted, FmtEr};
use crate::text::{joined, joined_by};
use vstd::prelude::*;

verus! {

/// Plain text: `2x^2`.
#[derive(Debug, Clone, Copy)]
pub struct ASCII;

impl FmtEr for ASCII {
    fn multiply(&self, a: &str, b: &str) -> (r: String) {
        product(a, b, 'x', '*')
    }

    fn pow(&self, a: &str, b: &str) -> (r: String) {
        joined_by(a, '^', b)
    }

    fn x(&self) -> (c: char) {
        'x'
    }
}

/// Text with superscripts, a centred dot for the product and an italic
/// variable.
#[derive(Debug, Clone, Copy)]
pub struct Unicode;

impl FmtEr for Unicode {
    open spec fn glyph(&self) -> char {
        '\u{1d465}'
    }

    open spec fn multiplied(&self, a: Seq<char>, b: Seq<char>) -> Seq<char> {
        product_text(a, b, '\u{1d465}', '\u{b7}')
    }

    open spec fn raised(&self, a: Seq<char>, b: Seq<char>) -> Seq<char> {
        a + superscripted(b)
    }

    fn multiply(&self, a: &str, b: &str) -> (r: String) {
        product(a, b, '\u{1d465}', '\u{b7}')
    }

    fn pow(&self, a: &str, b: &str) -> (r: String) {
        let raised = superscript_text(b);
        joined(a, raised.as_str())
    }

    fn x(&self) -> (c: char) {
        '\u{1d465}'
    }
}

/// The text `Math.pow(a, b)`.
pub open spec fn call_power(a: Seq<char>, b: Seq<char>) -> Seq<char> {
    "Math.pow("@ + a + ", "@ + b + ")"@
}

/// Source text of a language of the C family: powers are calls of
/// `Math.pow`.
#[derive(Debug, Clone, Copy)]
#[allow(non_camel_case_types)]
pub struct Java_JS;

impl FmtEr for Java_JS {
    open spec fn raised(&self, a: Seq<char>, b: Seq<char>) -> Seq<char> {
        call_power(a, b)
    }

    fn multiply(&self, a: &str, b: &str) -> (r: String) {
        product(a, b, 'x', '*')
    }

    fn pow(&self, a: &str, b: &str) -> (r: String) {
        let mut out = String::from_str("Math.pow(");
        out.append(a);
        out.append(", ");
        out.append(b);
        out.append(")");
        out
    }

    fn x(&self) -> (c: char) {
        'x'
    }
}

/// LaTeX mathematics, which reads as the plain text does.
#[derive(Debug, Clone, Copy)]
pub struct LaTeX;

impl FmtEr for LaTeX {
    fn multiply(&self, a: &str, b: &str) -> (r: String) {
        product(a, b, 'x', '*')
    }

    fn pow(&self, a: &str, b: &str) -> (r: String) {
        joined_by(a, '^', b)
    }

    fn x(&self) -> (c: char) {
        'x'
    }
}

} // verus!
