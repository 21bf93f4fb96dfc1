use vstd::arithmetic::power2::{
    lemma2_to64, lemma2_to64_rest, lemma_pow2_adds, lemma_pow2_pos, lemma_pow2_strictly_increases,
    pow2,
};
use vstd::prelude::*;

verus! {

/// The quiet not-a-number pattern that marks a cell for which no value was
/// recorded.
pub const NAN: u64 = 0x7ff8_0000_0000_0000;

/// The pattern of the number one.
pub const ONE: u64 = 0x3ff0_0000_0000_0000;

/// The pattern of the number one hundred.
pub const HUNDRED: u64 = 0x4059_0000_0000_0000;

/// An arithmetic operation on two patterns. The library does no arithmetic on
/// encoded values itself: its callers hand it a function that takes an
/// operation and two patterns and returns the pattern of the result.
#[derive(Clone, Copy, Debug, PartialEq, Eq, Structural)]
pub enum Operation {
    /// The product of the two operands.
    Multiply,
    /// The first operand divided by the second.
    Divide,
    /// The first operand less the second.
    Subtract,
}

/// Whether `arith` may be called with every operation on every two patterns.
pub open spec fn total<A: Fn(Operation, u64, u64) -> u64>(arith: &A) -> bool {
    forall|op: Operation, a: u64, b: u64| arith.requires((op, a, b))
}

/// Whether `arith` returns one pattern only for each operation on each two
/// patterns, as computation on numbers does.
pub open spec fn functional<A: Fn(Operation, u64, u64) -> u64>(arith: &A) -> bool {
    forall|op: Operation, a: u64, b: u64, first: u64, second: u64|
        #![trigger arith.ensures((op, a, b), first), arith.ensures((op, a, b), second)]
        arith.ensures((op, a, b), first) && arith.ensures((op, a, b), second) ==> first
            == second
}

/// The sign bit of a pattern: set for negative values.
pub open spec fn sign_bit(bits: u64) -> bool {
    bits >> 63 == 1
}

/// The eleven exponent bits of a pattern, biased by 1023.
pub open spec fn exponent_field(bits: u64) -> u64 {
    (bits >> 52) & 0x7ff
}

/// The fifty-two fraction bits of a pattern.
pub open spec fn fraction_field(bits: u64) -> u64 {
    bits & 0xf_ffff_ffff_ffff
}

/// Whether a pattern encodes a not-a-number value: every exponent bit is set
/// and some fraction bit is. The sign bit plays no part.
pub open spec fn is_nan(bits: u64) -> bool {
    exponent_field(bits) == 0x7ff && fraction_field(bits) != 0
}

/// Whether a pattern is the normal encoding of the whole number `n`: the
/// pattern is positive, its exponent field `e` lies strictly between the two
/// reserved values, and its significand `2^52 + fraction`, scaled by
/// `2^(e - 1075)`, is `n`.
pub open spec fn encodes_integer(bits: u64, n: nat) -> bool {
    let e = exponent_field(bits) as int;
    let significand = 0x10_0000_0000_0000 + fraction_field(bits);
    &&& !sign_bit(bits)
    &&& 1 <= e <= 2046
    &&& if e <= 1075 {
        significand == n * pow2((1075 - e) as nat)
    } else {
        n == significand * pow2((e - 1075) as nat)
    }
}

/// Tells whether `bits` encodes a not-a-number value.
pub fn is_missing(bits: u64) -> (missing: bool)
    ensures
        missing == is_nan(bits),
{
    assert((bits & 0x7fff_ffff_ffff_ffff > 0x7ff0_0000_0000_0000) == ((bits >> 52) & 0x7ff == 0x7ff
        && bits & 0xf_ffff_ffff_ffff != 0)) by (bit_vector);
    bits & 0x7fff_ffff_ffff_ffff > 0x7ff0_0000_0000_0000
}

/// The marker of a missing cell is a not-a-number value, and the two named
/// numbers are the encodings of one and of one hundred.
pub proof fn lemma_named_patterns()
    ensures
        is_nan(NAN),
        !is_nan(ONE),
        !is_nan(HUNDRED),
        encodes_integer(ONE, 1),
        encodes_integer(HUNDRED, 100),
{
    lemma2_to64();
    lemma2_to64_rest();
    assert((NAN >> 52) & 0x7ff == 0x7ff && NAN & 0xf_ffff_ffff_ffff != 0) by (bit_vector);
    assert((ONE >> 52) & 0x7ff == 1023 && ONE & 0xf_ffff_ffff_ffff == 0 && ONE >> 63 == 0)
        by (bit_vector);
    assert((HUNDRED >> 52) & 0x7ff == 1029 && HUNDRED & 0xf_ffff_ffff_ffff == 0x9_0000_0000_0000
        && HUNDRED >> 63 == 0) by (bit_vector);
}

/// The significand of an encoding of `n`, scaled by two to its exponent
/// field, is `n` scaled by two to the 1075.
proof fn lemma_encoding_scaled(bits: u64, n: nat)
    requires
        encodes_integer(bits, n),
    ensures
        (0x10_0000_0000_0000 + fraction_field(bits)) * pow2(exponent_field(bits) as nat) == n
            * pow2(1075),
{
    let e = exponent_field(bits) as nat;
    let significand = 0x10_0000_0000_0000 + fraction_field(bits);
    if e <= 1075 {
        let down = (1075 - e) as nat;
        lemma_pow2_adds(down, e);
        assert(significand * pow2(e) == n * pow2(1075)) by (nonlinear_arith)
            requires
                significand == n * pow2(down),
                pow2(1075) == pow2(down) * pow2(e),
        ;
    } else {
        let up = (e - 1075) as nat;
        lemma_pow2_adds(up, 1075);
        assert(significand * pow2(e) == n * pow2(1075)) by (nonlinear_arith)
            requires
                n == significand * pow2(up),
                pow2(e) == pow2(up) * pow2(1075),
        ;
    }
}

/// Of two encodings of one number, the one with the smaller exponent field
/// would need a significand of twice the other at least.
proof fn lemma_exponent_decides(low: nat, high: nat, with_low: int, with_high: int)
    requires
        low < high,
        with_low * pow2(low) == with_high * pow2(high),
        0 <= with_high,
    ensures
        with_low >= 2 * with_high,
{
    let gap = (high - low) as nat;
    lemma_pow2_adds(gap, low);
    lemma_pow2_pos(low);
    lemma_pow2_strictly_increases(0, gap);
    lemma2_to64();
    assert(with_low == with_high * pow2(gap)) by (nonlinear_arith)
        requires
            with_low * pow2(low) == with_high * pow2(high),
            pow2(high) == pow2(gap) * pow2(low),
            pow2(low) > 0,
    ;
    assert(with_high * pow2(gap) >= with_high * 2) by (nonlinear_arith)
        requires
            pow2(gap) >= 2,
            0 <= with_high,
    ;
}

/// A whole number has one normal encoding at most.
pub proof fn lemma_encoding_unique(first: u64, second: u64, n: nat)
    requires
        encodes_integer(first, n),
        encodes_integer(second, n),
    ensures
        first == second,
{
    let e1 = exponent_field(first) as nat;
    let e2 = exponent_field(second) as nat;
    let f1 = fraction_field(first);
    let f2 = fraction_field(second);
    let m1 = 0x10_0000_0000_0000 + f1;
    let m2 = 0x10_0000_0000_0000 + f2;
    assert(f1 < 0x10_0000_0000_0000) by (bit_vector)
        requires
            f1 == first & 0xf_ffff_ffff_ffff,
    ;
    assert(f2 < 0x10_0000_0000_0000) by (bit_vector)
        requires
            f2 == second & 0xf_ffff_ffff_ffff,
    ;
    lemma_encoding_scaled(first, n);
    lemma_encoding_scaled(second, n);
    if e1 < e2 {
        lemma_exponent_decides(e1, e2, m1, m2);
    } else if e2 < e1 {
        lemma_exponent_decides(e2, e1, m2, m1);
    }
    lemma_pow2_pos(e1);
    assert(m1 == m2) by (nonlinear_arith)
        requires
            m1 * pow2(e1) == m2 * pow2(e1),
            pow2(e1) > 0,
    ;
    assert(first == second) by (bit_vector)
        requires
            (first >> 52) & 0x7ff == (second >> 52) & 0x7ff,
            first & 0xf_ffff_ffff_ffff == second & 0xf_ffff_ffff_ffff,
            !(first >> 63 == 1),
            !(second >> 63 == 1),
    ;
}

} // verus!
