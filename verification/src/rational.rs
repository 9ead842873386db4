//! Exact rational numbers of unbounded size.
//!
//! A [`RationalNumber`] keeps its numerator and denominator as two's-complement
//! little-endian bytes, the interchange format of the arbitrary-precision
//! integers that carry out the arithmetic. Contracts speak of the integers those
//! bytes denote and of the real number that is their quotient.

use num::BigInt;
use num::BigRational;
use vstd::prelude::*;
use vstd::std_specs::cmp::PartialEqSpecImpl;

verus! {

/// The natural number whose base-256 digits, least significant first, are `bytes`.
pub open spec fn le_magnitude(bytes: Seq<u8>) -> nat
    decreases bytes.len(),
{
    if bytes.len() == 0 {
        0
    } else {
        (bytes[0] as nat) + 256 * le_magnitude(bytes.drop_first())
    }
}

/// 256 to the power `n`.
pub open spec fn pow256(n: nat) -> nat
    decreases n,
{
    if n == 0 {
        1
    } else {
        256 * pow256((n - 1) as nat)
    }
}

/// The integer that `bytes` denote in two's complement, least significant byte
/// first. The empty sequence denotes zero.
pub open spec fn signed_le(bytes: Seq<u8>) -> int {
    if bytes.len() > 0 && bytes.last() >= 128 {
        le_magnitude(bytes) - pow256(bytes.len())
    } else {
        le_magnitude(bytes) as int
    }
}

/// `k` divides `a`.
pub open spec fn divides(k: int, a: int) -> bool {
    k != 0 && a % k == 0
}

/// No integer above 1 divides both `a` and `b`.
pub open spec fn coprime(a: int, b: int) -> bool {
    forall|k: int| k > 1 && #[trigger] divides(k, a) ==> !divides(k, b)
}

/// The character of the decimal digit `d`.
pub open spec fn digit_char(d: int) -> char {
    seq!['0', '1', '2', '3', '4', '5', '6', '7', '8', '9'][d]
}

/// The decimal digits of `n`, most significant first, without leading zeros.
pub open spec fn decimal_digits(n: nat) -> Seq<char>
    decreases n,
{
    if n < 10 {
        seq![digit_char(n as int)]
    } else {
        decimal_digits(n / 10).push(digit_char((n % 10) as int))
    }
}

/// The decimal text of `v`: a minus sign where `v` is negative, then its digits.
pub open spec fn decimal_text(v: int) -> Seq<char> {
    if v < 0 {
        seq!['-'] + decimal_digits((-v) as nat)
    } else {
        decimal_digits(v as nat)
    }
}

/// `base` raised to the power `n`.
pub open spec fn real_pow_nat(base: real, n: nat) -> real
    decreases n,
{
    if n == 0 {
        1real
    } else {
        real_pow_nat(base, (n - 1) as nat) * base
    }
}

/// `base` raised to the integer power `exp`; a negative power is the reciprocal
/// of the positive one.
pub open spec fn real_pow(base: real, exp: int) -> real {
    if exp >= 0 {
        real_pow_nat(base, exp as nat)
    } else {
        1real / real_pow_nat(base, (-exp) as nat)
    }
}

/// Why an arithmetic operation has no result.
#[derive(Debug, Clone, Copy, PartialEq, Eq, Structural)]
pub enum ArithmeticError {
    /// The divisor, or a denominator, was zero.
    DivisionByZero,
}

/// A fraction of integers in lowest terms with a positive denominator.
#[derive(Debug, Eq)]
pub struct RationalNumber {
    numer: Vec<u8>,
    denom: Vec<u8>,
}

impl View for RationalNumber {
    type V = real;

    /// The real number `numerator / denominator`.
    open spec fn view(&self) -> real {
        self.numer_value() as real / self.denom_value() as real
    }
}

impl RationalNumber {
    /// The numerator.
    pub closed spec fn numer_value(&self) -> int {
        signed_le(self.numer@)
    }

    /// The denominator.
    pub closed spec fn denom_value(&self) -> int {
        signed_le(self.denom@)
    }

    /// The invariant of the type: the denominator is positive and shares no
    /// factor with the numerator.
    #[verifier::type_invariant]
    pub open spec fn wf(&self) -> bool {
        &&& self.denom_value() > 0
        &&& coprime(self.numer_value(), self.denom_value())
    }

    /// Calls `num::BigRational::new` on two machine integers: the fraction
    /// `numer / denom`, reduced, with the sign carried by the numerator.
    /// `new` panics on a zero denominator, which `requires` leaves out.
    #[verifier::external_body]
    fn reduced(numer: i64, denom: i64) -> (r: RationalNumber)
        requires
            denom != 0,
        ensures
            r.wf(),
            r@ == numer as real / denom as real,
    {
        let z = BigRational::new(BigInt::from(numer), BigInt::from(denom));
        RationalNumber {
            numer: z.numer().to_signed_bytes_le(),
            denom: z.denom().to_signed_bytes_le(),
        }
    }

    /// Calls `+` of `num::BigRational`: the exact sum, reduced.
    #[verifier::external_body]
    fn sum(a: &RationalNumber, b: &RationalNumber) -> (r: RationalNumber)
        requires
            a.wf(),
            b.wf(),
        ensures
            r.wf(),
            r@ == a@ + b@,
    {
        let x = BigRational::new_raw(
            BigInt::from_signed_bytes_le(&a.numer),
            BigInt::from_signed_bytes_le(&a.denom),
        );
        let y = BigRational::new_raw(
            BigInt::from_signed_bytes_le(&b.numer),
            BigInt::from_signed_bytes_le(&b.denom),
        );
        let z = x + y;
        RationalNumber {
            numer: z.numer().to_signed_bytes_le(),
            denom: z.denom().to_signed_bytes_le(),
        }
    }

    /// Calls `-` of `num::BigRational`: the exact difference, reduced.
    #[verifier::external_body]
    fn difference(a: &RationalNumber, b: &RationalNumber) -> (r: RationalNumber)
        requires
            a.wf(),
            b.wf(),
        ensures
            r.wf(),
            r@ == a@ - b@,
    {
        let x = BigRational::new_raw(
            BigInt::from_signed_bytes_le(&a.numer),
            BigInt::from_signed_bytes_le(&a.denom),
        );
        let y = BigRational::new_raw(
            BigInt::from_signed_bytes_le(&b.numer),
            BigInt::from_signed_bytes_le(&b.denom),
        );
        let z = x - y;
        RationalNumber {
            numer: z.numer().to_signed_bytes_le(),
            denom: z.denom().to_signed_bytes_le(),
        }
    }

    /// Calls `*` of `num::BigRational`: the exact product, reduced.
    #[verifier::external_body]
    fn product(a: &RationalNumber, b: &RationalNumber) -> (r: RationalNumber)
        requires
            a.wf(),
            b.wf(),
        ensures
            r.wf(),
            r@ == a@ * b@,
    {
        let x = BigRational::new_raw(
            BigInt::from_signed_bytes_le(&a.numer),
            BigInt::from_signed_bytes_le(&a.denom),
        );
        let y = BigRational::new_raw(
            BigInt::from_signed_bytes_le(&b.numer),
            BigInt::from_signed_bytes_le(&b.denom),
        );
        let z = x * y;
        RationalNumber {
            numer: z.numer().to_signed_bytes_le(),
            denom: z.denom().to_signed_bytes_le(),
        }
    }

    /// Calls `/` of `num::BigRational`: the exact quotient, reduced. The
    /// operator panics on a zero divisor, which `requires` leaves out.
    #[verifier::external_body]
    fn quotient(a: &RationalNumber, b: &RationalNumber) -> (r: RationalNumber)
        requires
            a.wf(),
            b.wf(),
            b@ != 0real,
        ensures
            r.wf(),
            r@ == a@ / b@,
    {
        let x = BigRational::new_raw(
            BigInt::from_signed_bytes_le(&a.numer),
            BigInt::from_signed_bytes_le(&a.denom),
        );
        let y = BigRational::new_raw(
            BigInt::from_signed_bytes_le(&b.numer),
            BigInt::from_signed_bytes_le(&b.denom),
        );
        let z = x / y;
        RationalNumber {
            numer: z.numer().to_signed_bytes_le(),
            denom: z.denom().to_signed_bytes_le(),
        }
    }

    /// Calls `<` of `num::BigRational`: whether `a` is the smaller number.
    #[verifier::external_body]
    fn smaller(a: &RationalNumber, b: &RationalNumber) -> (r: bool)
        requires
            a.wf(),
            b.wf(),
        ensures
            r == (a@ < b@),
    {
        let x = BigRational::new_raw(
            BigInt::from_signed_bytes_le(&a.numer),
            BigInt::from_signed_bytes_le(&a.denom),
        );
        let y = BigRational::new_raw(
            BigInt::from_signed_bytes_le(&b.numer),
            BigInt::from_signed_bytes_le(&b.denom),
        );
        x < y
    }

    /// Calls `to_string` of `num::BigInt` on the integer that `bytes` denote:
    /// its decimal text, with a leading minus sign where it is negative.
    #[verifier::external_body]
    fn integer_text(bytes: &Vec<u8>) -> (s: String)
        ensures
            s@ == decimal_text(signed_le(bytes@)),
    {
        BigInt::from_signed_bytes_le(bytes).to_string()
    }

    /// The fraction `numer / denom` in lowest terms.
    pub fn new(numer: i64, denom: i64) -> (r: Result<RationalNumber, ArithmeticError>)
        ensures
            denom == 0 <==> r is Err,
            r matches Ok(q) ==> q.wf() && q@ == numer as real / denom as real,
    {
        if denom == 0 {
            Err(ArithmeticError::DivisionByZero)
        } else {
            Ok(Self::reduced(numer, denom))
        }
    }

    /// The integer `n` as a fraction.
    pub fn from_integer(n: i64) -> (r: RationalNumber)
        ensures
            r.wf(),
            r@ == n as real,
    {
        Self::reduced(n, 1)
    }

    /// The number zero.
    pub fn zero() -> (r: RationalNumber)
        ensures
            r.wf(),
            r@ == 0real,
    {
        Self::reduced(0, 1)
    }

    /// The number one.
    pub fn one() -> (r: RationalNumber)
        ensures
            r.wf(),
            r@ == 1real,
    {
        Self::reduced(1, 1)
    }

    /// `self + other`.
    pub fn add(&self, other: &RationalNumber) -> (r: RationalNumber)
        ensures
            r.wf(),
            r@ == self@ + other@,
    {
        proof {
            use_type_invariant(self);
            use_type_invariant(other);
        }
        Self::sum(self, other)
    }

    /// `self - other`.
    pub fn sub(&self, other: &RationalNumber) -> (r: RationalNumber)
        ensures
            r.wf(),
            r@ == self@ - other@,
    {
        proof {
            use_type_invariant(self);
            use_type_invariant(other);
        }
        Self::difference(self, other)
    }

    /// `self * other`.
    pub fn mul(&self, other: &RationalNumber) -> (r: RationalNumber)
        ensures
            r.wf(),
            r@ == self@ * other@,
    {
        proof {
            use_type_invariant(self);
            use_type_invariant(other);
        }
        Self::product(self, other)
    }

    /// `self / other`, or `DivisionByZero` where `other` is zero.
    pub fn div(&self, other: &RationalNumber) -> (r: Result<RationalNumber, ArithmeticError>)
        ensures
            other@ == 0real <==> r is Err,
            r matches Ok(q) ==> q.wf() && q@ == self@ / other@,
    {
        proof {
            use_type_invariant(self);
            use_type_invariant(other);
        }
        if other.is_zero() {
            Err(ArithmeticError::DivisionByZero)
        } else {
            Ok(Self::quotient(self, other))
        }
    }

    /// The reciprocal `1 / self`, or `DivisionByZero` where `self` is zero.
    pub fn recip(&self) -> (r: Result<RationalNumber, ArithmeticError>)
        ensures
            self@ == 0real <==> r is Err,
            r matches Ok(q) ==> q.wf() && q@ == 1real / self@,
    {
        let one = Self::one();
        one.div(self)
    }

    /// `self` raised to the power `exp`. A negative power is the reciprocal of
    /// the positive one: it is `DivisionByZero` where `self` is zero.
    pub fn pow(&self, exp: i32) -> (r: Result<RationalNumber, ArithmeticError>)
        ensures
            (self@ == 0real && exp < 0) <==> r is Err,
            r matches Ok(q) ==> q.wf() && q@ == real_pow(self@, exp as int),
    {
        let wide: i64 = exp as i64;
        let count: i64 = if wide < 0 {
            -wide
        } else {
            wide
        };
        let mut acc = Self::one();
        let mut i: i64 = 0;
        while i < count
            invariant
                0 <= i <= count,
                acc.wf(),
                acc@ == real_pow_nat(self@, i as nat),
            decreases count - i,
        {
            acc = acc.mul(self);
            i += 1;
        }
        if exp < 0 {
            proof {
                lemma_real_pow_nat_zero(self@, count as nat);
            }
            acc.recip()
        } else {
            Ok(acc)
        }
    }

    /// Whether `self` is less than `other`.
    pub fn lt(&self, other: &RationalNumber) -> (r: bool)
        ensures
            r == (self@ < other@),
    {
        proof {
            use_type_invariant(self);
            use_type_invariant(other);
        }
        Self::smaller(self, other)
    }

    /// Whether `self` and `other` are the same number.
    pub fn equals(&self, other: &RationalNumber) -> (r: bool)
        ensures
            r == (self@ == other@),
    {
        proof {
            use_type_invariant(self);
            use_type_invariant(other);
        }
        !Self::smaller(self, other) && !Self::smaller(other, self)
    }

    /// Whether `self` is zero.
    pub fn is_zero(&self) -> (r: bool)
        ensures
            r == (self@ == 0real),
    {
        let zero = Self::zero();
        self.equals(&zero)
    }

    /// Whether `self` is one.
    pub fn is_one(&self) -> (r: bool)
        ensures
            r == (self@ == 1real),
    {
        let one = Self::one();
        self.equals(&one)
    }

    /// Whether `self` is below zero.
    pub fn is_negative(&self) -> (r: bool)
        ensures
            r == (self@ < 0real),
    {
        let zero = Self::zero();
        self.lt(&zero)
    }

    /// Whether `self` is a whole number: its denominator is one.
    pub fn is_integer(&self) -> (r: bool)
        ensures
            r == (self.denom_value() == 1),
    {
        let d = self.denom();
        d.is_one()
    }

    /// `-self`.
    pub fn neg(&self) -> (r: RationalNumber)
        ensures
            r.wf(),
            r@ == -self@,
    {
        let zero = Self::zero();
        zero.sub(self)
    }

    /// The absolute value of `self`.
    pub fn abs(&self) -> (r: RationalNumber)
        ensures
            r.wf(),
            r@ == (if self@ < 0real {
                -self@
            } else {
                self@
            }),
    {
        if self.is_negative() {
            self.neg()
        } else {
            self.duplicate()
        }
    }

    /// A copy of `self`.
    pub fn duplicate(&self) -> (r: RationalNumber)
        ensures
            r.wf(),
            r.numer_value() == self.numer_value(),
            r.denom_value() == self.denom_value(),
            r@ == self@,
    {
        proof {
            use_type_invariant(self);
        }
        let numer = copy_bytes(&self.numer);
        let denom = copy_bytes(&self.denom);
        RationalNumber { numer, denom }
    }

    /// The denominator, as a number of its own.
    pub fn denom(&self) -> (r: RationalNumber)
        ensures
            r.wf(),
            r@ == self.denom_value() as real,
    {
        proof {
            use_type_invariant(self);
            lemma_signed_le_one();
            lemma_coprime_one(self.denom_value());
        }
        let numer = copy_bytes(&self.denom);
        let mut denom: Vec<u8> = Vec::new();
        denom.push(1u8);
        assert(denom@ =~= seq![1u8]);
        let r = RationalNumber { numer, denom };
        assert(r.denom_value() == 1);
        assert(r.numer_value() == self.denom_value());
        proof {
            let x = self.denom_value() as real;
            let one = r.denom_value() as real;
            assert(one == 1real);
            assert(x / one == x) by (nonlinear_arith)
                requires
                    one == 1real,
            ;
        }
        r
    }

    /// The decimal text of the numerator.
    pub fn numer_text(&self) -> (s: String)
        ensures
            s@ == decimal_text(self.numer_value()),
    {
        Self::integer_text(&self.numer)
    }

    /// The decimal text of the denominator.
    pub fn denom_text(&self) -> (s: String)
        ensures
            s@ == decimal_text(self.denom_value()),
    {
        Self::integer_text(&self.denom)
    }
}

impl Clone for RationalNumber {
    /// A copy of `self`.
    fn clone(&self) -> (r: RationalNumber)
        ensures
            r@ == self@,
    {
        self.duplicate()
    }
}

impl PartialEq for RationalNumber {
    /// Whether the two are the same number.
    fn eq(&self, other: &RationalNumber) -> (r: bool) {
        self.equals(other)
    }
}

impl PartialEqSpecImpl for RationalNumber {
    open spec fn obeys_eq_spec() -> bool {
        true
    }

    open spec fn eq_spec(&self, other: &RationalNumber) -> bool {
        self@ == other@
    }
}

/// The single byte 1 denotes the integer one.
proof fn lemma_signed_le_one()
    ensures
        signed_le(seq![1u8]) == 1,
{
    let s = seq![1u8];
    assert(s.drop_first() =~= Seq::<u8>::empty());
    assert(le_magnitude(s.drop_first()) == 0);
    assert(le_magnitude(s) == 1);
}

/// Every integer is coprime to one.
proof fn lemma_coprime_one(a: int)
    ensures
        coprime(a, 1),
{
    assert forall|k: int| k > 1 && #[trigger] divides(k, a) implies !divides(k, 1) by {
        assert(1int % k == 1) by (nonlinear_arith)
            requires
                k > 1,
        ;
    }
}

/// A power of a number other than zero is not zero.
proof fn lemma_real_pow_nat_zero(base: real, n: nat)
    ensures
        base != 0real ==> real_pow_nat(base, n) != 0real,
        base == 0real && n > 0 ==> real_pow_nat(base, n) == 0real,
    decreases n,
{
    if n > 0 {
        lemma_real_pow_nat_zero(base, (n - 1) as nat);
        let p = real_pow_nat(base, (n - 1) as nat);
        assert(base != 0real && p != 0real ==> p * base != 0real) by (nonlinear_arith);
        assert(base == 0real ==> p * base == 0real) by (nonlinear_arith);
    }
}

/// A copy of `bytes`.
fn copy_bytes(bytes: &Vec<u8>) -> (r: Vec<u8>)
    ensures
        r@ == bytes@,
{
    let mut out: Vec<u8> = Vec::new();
    let mut i: usize = 0;
    while i < bytes.len()
        invariant
            i <= bytes.len(),
            out@ == bytes@.subrange(0, i as int),
        decreases bytes.len() - i,
    {
        out.push(bytes[i]);
        i += 1;
    }
    assert(bytes@.subrange(0, bytes.len() as int) =~= bytes@);
    out
}

} // verus!
