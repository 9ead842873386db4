//! Closed-form formulas for exact rational sequences.
//!
//! A sequence of samples is fitted by a polynomial or by an exponential
//! `stretch * ratio^x + asymptote`, in exact rational arithmetic, and the fitted
//! model is rendered as text in one of several notations.
//!
//! - `rational`, `ratio_field`, `ordering`: exact rational numbers.
//! - `user_input`, `grammar`: reading numbers and lines of numbers from text.
//! - `linear_algebra`, `matrix`: vectors, matrices and the exact solution of
//!   linear systems.
//! - `polynomial`, `vandermonde`, `uniqueness`, `interpolation`: the
//!   polynomial through given points.
//! - `exponential`: the exponential through given samples.
//! - `pattern`: the polynomial first, then the exponential.
//! - `fmt`, `render`, `text`: the notations and the text of a formula.

pub mod error;
pub mod exponential;
pub mod fmt;
pub mod grammar;
pub mod interpolation;
pub mod linear_algebra;
pub mod matrix;
pub mod ordering;
pub mod pattern;
pub mod polynomial;
pub mod ratio_field;
pub mod rational;
pub mod render;
pub mod text;
pub mod uniqueness;
pub mod user_input;
pub mod util;
pub mod vandermonde;
