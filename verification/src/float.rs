//! Monkey floats are IEEE-754 binary64 numbers, held here by their bit
//! patterns. The arithmetic itself is done by an implementation of
//! [`FloatArith`] supplied by the user of the interpreter: floating point is
//! not computed in this library. Each operation of the trait names what it
//! gives with a `spec_` function of the implementation and promises, in its
//! `ensures`, to give exactly that, so the interpreter is verified for every
//! implementation that keeps these promises. An implementation verified by
//! Verus is held to them; one written outside Verus (such as the `f64` one of
//! the `monkey` command) is trusted to keep them.

use vstd::prelude::*;

verus! {

/// The characters of a text, as the specification of a [`FloatArith`]
/// implementation speaks of them.
pub type Chars = Seq<char>;

/// Binary64 arithmetic on bit patterns, supplied by the user of the
/// interpreter. An implementation computes each operation as IEEE-754
/// binary64 does (as std's `f64` computes it), and each operation's result
/// is a function of its arguments, named by its `spec_` function. Where
/// binary64 leaves a result's bits open (the sign and payload of a NaN), the
/// implementation must still fix them, for example by always giving one
/// canonical NaN.
pub trait FloatArith {
    /// What `parse_literal` gives for a literal's characters.
    spec fn spec_parse_literal(literal: Chars) -> u64;

    /// What `from_int` gives.
    spec fn spec_from_int(v: i64) -> u64;

    /// What `add` gives.
    spec fn spec_add(a: u64, b: u64) -> u64;

    /// What `sub` gives.
    spec fn spec_sub(a: u64, b: u64) -> u64;

    /// What `mul` gives.
    spec fn spec_mul(a: u64, b: u64) -> u64;

    /// What `div` gives.
    spec fn spec_div(a: u64, b: u64) -> u64;

    /// What `less` gives.
    spec fn spec_less(a: u64, b: u64) -> bool;

    /// What `equal` gives.
    spec fn spec_equal(a: u64, b: u64) -> bool;

    /// What `format` gives.
    spec fn spec_format(a: u64) -> String;

    /// The binary64 value of a decimal literal `digits.digits` (std's `str::parse`).
    fn parse_literal(literal: &str) -> (r: u64)
        ensures
            r == Self::spec_parse_literal(literal@),
    ;

    /// The binary64 value nearest to an integer (`i64 as f64`).
    fn from_int(v: i64) -> (r: u64)
        ensures
            r == Self::spec_from_int(v),
    ;

    /// Binary64 addition.
    fn add(a: u64, b: u64) -> (r: u64)
        ensures
            r == Self::spec_add(a, b),
    ;

    /// Binary64 subtraction.
    fn sub(a: u64, b: u64) -> (r: u64)
        ensures
            r == Self::spec_sub(a, b),
    ;

    /// Binary64 multiplication.
    fn mul(a: u64, b: u64) -> (r: u64)
        ensures
            r == Self::spec_mul(a, b),
    ;

    /// Binary64 division.
    fn div(a: u64, b: u64) -> (r: u64)
        ensures
            r == Self::spec_div(a, b),
    ;

    /// `a < b`.
    fn less(a: u64, b: u64) -> (r: bool)
        ensures
            r == Self::spec_less(a, b),
    ;

    /// `a == b`.
    fn equal(a: u64, b: u64) -> (r: bool)
        ensures
            r == Self::spec_equal(a, b),
    ;

    /// The shortest decimal text that reads back as the number, never in
    /// exponent form (std's `Display` for `f64`).
    fn format(a: u64) -> (r: String)
        ensures
            r@ == Self::spec_format(a)@,
    ;
}

/// Binary64 negation flips the sign bit.
pub open spec fn float_negation(a: u64) -> u64 {
    a ^ 0x8000_0000_0000_0000u64
}

/// Binary64 negation: the sign bit flipped.
pub fn float_neg(a: u64) -> (r: u64)
    ensures
        r == float_negation(a),
{
    a ^ 0x8000_0000_0000_0000u64
}

} // verus!
