//! Numbers of double precision, held as integers.
//!
//! A number is kept as the 64-bit pattern that IEEE 754 gives a double (one
//! sign bit, eleven exponent bits, fifty-two fraction bits) together with the
//! text that writes it. Among the patterns of finite doubles, the one with the
//! greater magnitude has the greater lower 63 bits, so numbers are compared
//! without any floating-point arithmetic.

use crate::text::{decimal_text, int_order, Order};
use vstd::arithmetic::power2::{lemma_pow2_unfold, pow2};
use vstd::prelude::*;

verus! {

/// The sign bit of a pattern.
pub const SIGN_BIT: u64 = 0x8000_0000_0000_0000;

/// Two to the power 52: the weight of the lowest exponent bit.
pub const EXPONENT_UNIT: u64 = 0x10_0000_0000_0000;

/// Two to the power 53: what a significand stays below.
pub const SIGNIFICAND_LIMIT: u64 = 0x20_0000_0000_0000;

/// Whether `bits` is the pattern of a finite double: one whose exponent bits
/// are not all set, which leaves out the infinities and what is not a number.
pub open spec fn is_finite(bits: u64) -> bool {
    (bits / EXPONENT_UNIT) % 0x800 != 0x7ff
}

/// Where the double with pattern `bits` stands among the finite doubles: the
/// lower 63 bits, taken negative under a set sign bit. Both zeros stand at 0.
pub open spec fn order_key(bits: u64) -> int {
    if bits >= SIGN_BIT {
        -(bits - SIGN_BIT)
    } else {
        bits as int
    }
}

/// The number of binary digits of `m`; 0 for 0.
pub open spec fn bit_width(m: nat) -> nat
    decreases m,
{
    if m == 0 {
        0
    } else {
        1 + bit_width(m / 2)
    }
}

/// `m` with all but its 53 leading binary digits rounded away, to the nearest
/// and in a tie to the even; and `m` scaled up to 53 digits where it has fewer.
pub open spec fn significand(m: nat) -> nat {
    let w = bit_width(m);
    if w <= 53 {
        m * pow2((53 - w) as nat)
    } else {
        let unit = pow2((w - 53) as nat);
        let kept = m / unit;
        let rest = m % unit;
        if 2 * rest > unit || (2 * rest == unit && kept % 2 == 1) {
            kept + 1
        } else {
            kept
        }
    }
}

/// The pattern of the double nearest to the positive integer `m`. A
/// significand rounded up to two to the 53 carries into the exponent bits.
pub open spec fn pattern_of_magnitude(m: nat) -> int {
    (1021 + bit_width(m)) * EXPONENT_UNIT + significand(m)
}

/// The pattern of the double nearest to the integer `i`, as a conversion of
/// `i` to double precision gives it.
pub open spec fn pattern_of_integer(i: int) -> int {
    if i == 0 {
        0
    } else if i > 0 {
        pattern_of_magnitude(i as nat)
    } else {
        SIGN_BIT + pattern_of_magnitude((-i) as nat)
    }
}

/// What a number is: the pattern of a finite double, and its text.
pub struct NumberView {
    pub bits: u64,
    pub text: Seq<char>,
}

/// The number that stands for the integer `i`.
pub open spec fn number_of_integer(i: int) -> NumberView {
    NumberView { bits: pattern_of_integer(i) as u64, text: decimal_text(i) }
}

/// The order of two numbers by value.
pub open spec fn number_order(a: NumberView, b: NumberView) -> Order {
    int_order(order_key(a.bits), order_key(b.bits))
}

/// A finite number of double precision with the text that writes it.
#[derive(Debug, PartialEq)]
pub struct Number {
    bits: u64,
    text: String,
}

impl View for Number {
    type V = NumberView;

    closed spec fn view(&self) -> NumberView {
        NumberView { bits: self.bits, text: self.text@ }
    }
}

/// Doubling adds one binary digit.
proof fn lemma_bit_width_double(m: nat)
    requires
        m > 0,
    ensures
        bit_width(2 * m) == bit_width(m) + 1,
{
    assert((2 * m) / 2 == m);
}

/// A positive number lies from two to the power of its width less one up to,
/// not including, two to the power of its width.
pub proof fn lemma_bit_width_bounds(m: nat)
    requires
        m > 0,
    ensures
        bit_width(m) >= 1,
        pow2((bit_width(m) - 1) as nat) <= m < pow2(bit_width(m)),
    decreases m,
{
    vstd::arithmetic::power2::lemma2_to64();
    if m > 1 {
        lemma_bit_width_bounds(m / 2);
        lemma_pow2_unfold(bit_width(m / 2));
        lemma_pow2_unfold(bit_width(m));
    } else {
        assert(bit_width(1) == 1) by {
            reveal_with_fuel(bit_width, 3);
        }
    }
}

/// The width of a number that lies between two neighbouring powers of two.
pub proof fn lemma_bit_width_is(m: nat, k: nat)
    requires
        k >= 1,
        pow2((k - 1) as nat) <= m < pow2(k),
    ensures
        bit_width(m) == k,
{
    vstd::arithmetic::power2::lemma_pow2_pos((k - 1) as nat);
    lemma_bit_width_bounds(m);
    let w = bit_width(m);
    if w < k {
        if w < k - 1 {
            vstd::arithmetic::power2::lemma_pow2_strictly_increases(w, (k - 1) as nat);
        }
    } else if w > k {
        if k < w - 1 {
            vstd::arithmetic::power2::lemma_pow2_strictly_increases(k, (w - 1) as nat);
        }
    }
}

/// What lies from two to the 52 up to two to the 53 has 53 binary digits, and
/// what lies below has fewer.
proof fn lemma_bit_width_53(m: nat)
    ensures
        EXPONENT_UNIT <= m < SIGNIFICAND_LIMIT ==> bit_width(m) == 53,
        m < EXPONENT_UNIT ==> bit_width(m) <= 52,
{
    vstd::arithmetic::power2::lemma2_to64();
    vstd::arithmetic::power2::lemma2_to64_rest();
    if EXPONENT_UNIT <= m < SIGNIFICAND_LIMIT {
        lemma_bit_width_is(m, 53);
    } else if 0 < m < EXPONENT_UNIT {
        lemma_bit_width_bounds(m);
        if bit_width(m) > 53 {
            vstd::arithmetic::power2::lemma_pow2_strictly_increases(52, (bit_width(m) - 1) as nat);
        }
    }
}

/// Whether `bits` is the pattern of a finite double.
pub fn finite_pattern(bits: u64) -> (r: bool)
    ensures
        r == is_finite(bits),
{
    (bits / EXPONENT_UNIT) % 0x800 != 0x7ff
}

/// The pattern of the double nearest to `m`.
fn magnitude_pattern(m: u64) -> (bits: u64)
    requires
        0 < m <= SIGN_BIT,
    ensures
        bits == pattern_of_magnitude(m as nat),
        is_finite(bits),
        bits < SIGN_BIT,
{
    if m < SIGNIFICAND_LIMIT {
        let mut sig: u64 = m;
        let mut width: u64 = 53;
        proof {
            vstd::arithmetic::power2::lemma2_to64();
            lemma_bit_width_53(m as nat);
            assert(pow2(0) == 1);
            assert(m * pow2(0) == m);
        }
        while sig < EXPONENT_UNIT
            invariant
                0 < m,
                0 < sig < SIGNIFICAND_LIMIT,
                1 <= width <= 53,
                bit_width(sig as nat) == bit_width(m as nat) + (53 - width),
                sig == m * pow2((53 - width) as nat),
            decreases width,
        {
            proof {
                lemma_bit_width_53(sig as nat);
                lemma_bit_width_double(sig as nat);
                lemma_pow2_unfold((53 - width + 1) as nat);
                assert(2 * (m * pow2((53 - width) as nat)) == m * (2 * pow2((53 - width) as nat)))
                    by (nonlinear_arith);
            }
            sig = sig * 2;
            width = width - 1;
        }
        proof {
            lemma_bit_width_53(sig as nat);
        }
        (1021 + width) * EXPONENT_UNIT + sig
    } else {
        let mut kept: u64 = m;
        let mut unit: u64 = 1;
        let mut width: u64 = 53;
        proof {
            vstd::arithmetic::power2::lemma2_to64();
        }
        while kept >= SIGNIFICAND_LIMIT
            invariant
                EXPONENT_UNIT <= kept <= m,
                m <= SIGN_BIT,
                53 <= width <= 64,
                unit == pow2((width - 53) as nat),
                1 <= unit,
                kept == m / unit,
                kept * unit <= m,
                bit_width(kept as nat) + (width - 53) == bit_width(m as nat),
            decreases kept,
        {
            proof {
                vstd::arithmetic::power2::lemma2_to64();
                lemma_pow2_unfold((width - 53 + 1) as nat);
                assert(kept as int / 2 == m as int / (2 * unit as int)) by {
                    vstd::arithmetic::div_mod::lemma_div_denominator(m as int, unit as int, 2);
                }
                assert((kept / 2) * (2 * unit) <= kept * unit) by (nonlinear_arith)
                    requires
                        unit >= 1,
                        kept >= 0,
                {
                    assert((kept / 2) * 2 <= kept);
                    assert((kept / 2) * (2 * unit) == ((kept / 2) * 2) * unit);
                }
                assert(unit <= 0x400) by (nonlinear_arith)
                    requires
                        kept * unit <= m,
                        m <= 0x8000_0000_0000_0000,
                        kept >= 0x20_0000_0000_0000,
                        unit >= 1,
                {}
                assert(width < 64);
            }
            kept = kept / 2;
            unit = unit * 2;
            width = width + 1;
        }
        proof {
            lemma_bit_width_53(kept as nat);
            vstd::arithmetic::div_mod::lemma_fundamental_div_mod(m as int, unit as int);
        }
        let rest: u64 = m % unit;
        assert(rest < unit) by {
            vstd::arithmetic::div_mod::lemma_mod_bound(m as int, unit as int);
        }
        assert(unit <= 0x800) by (nonlinear_arith)
            requires
                kept * unit <= m,
                m <= 0x8000_0000_0000_0000,
                kept >= 0x10_0000_0000_0000,
                unit >= 1,
        {}
        let up = 2 * rest > unit || (2 * rest == unit && kept % 2 == 1);
        let sig: u64 = if up {
            kept + 1
        } else {
            kept
        };
        (1021 + width) * EXPONENT_UNIT + sig
    }
}

/// The pattern of the double nearest to `i`.
pub fn integer_pattern(i: i64) -> (bits: u64)
    ensures
        bits == pattern_of_integer(i as int),
        is_finite(bits),
{
    if i == 0 {
        0
    } else if i > 0 {
        magnitude_pattern(i as u64)
    } else {
        let m: u64 = ((-(i + 1)) as u64) + 1;
        SIGN_BIT + magnitude_pattern(m)
    }
}

/// The key by which the double with pattern `bits` is ordered.
pub fn pattern_key(bits: u64) -> (key: i64)
    ensures
        key == order_key(bits),
{
    if bits >= SIGN_BIT {
        let m: u64 = bits - SIGN_BIT;
        -(m as i64)
    } else {
        bits as i64
    }
}

impl Clone for Number {
    fn clone(&self) -> (r: Self)
        ensures
            r@ == self@,
    {
        proof {
            use_type_invariant(self);
        }
        Number { bits: self.bits, text: self.text.clone() }
    }
}

impl Number {
    /// Finite numbers only.
    #[verifier::type_invariant]
    spec fn finite(self) -> bool {
        is_finite(self.bits)
    }

    /// The number with the pattern `bits` and the text `text`, where the
    /// pattern is that of a finite double.
    pub fn from_double(bits: u64, text: String) -> (r: Option<Number>)
        ensures
            match r {
                Some(n) => is_finite(bits) && n@ == (NumberView { bits, text: text@ }),
                None => !is_finite(bits),
            },
    {
        if finite_pattern(bits) {
            Some(Number { bits, text })
        } else {
            None
        }
    }

    /// The pattern of the double that this number is.
    pub fn bits(&self) -> (r: u64)
        ensures
            r == self@.bits,
            is_finite(r),
    {
        proof {
            use_type_invariant(self);
        }
        self.bits
    }

    /// The text that writes this number.
    pub fn text(&self) -> (r: &String)
        ensures
            r@ == self@.text,
    {
        &self.text
    }

    /// How this number stands to `other` by value.
    pub fn compare(&self, other: &Number) -> (r: Order)
        ensures
            r == number_order(self@, other@),
    {
        let a = pattern_key(self.bits);
        let b = pattern_key(other.bits);
        if a < b {
            Order::Less
        } else if a == b {
            Order::Equal
        } else {
            Order::Greater
        }
    }
}

/// The magnitude of the double with pattern `bits`, counted in units of two
/// to the power -1074, the least magnitude above zero: a whole number for
/// every finite double.
pub open spec fn scaled_magnitude(bits: u64) -> int {
    let exponent = (bits / EXPONENT_UNIT) % 0x800;
    let fraction = bits % EXPONENT_UNIT;
    if exponent == 0 {
        fraction as int
    } else {
        (EXPONENT_UNIT + fraction) * pow2((exponent - 1) as nat)
    }
}

/// The value of the double with pattern `bits`, in the same units.
pub open spec fn scaled_value(bits: u64) -> int {
    if bits >= SIGN_BIT {
        -scaled_magnitude(bits)
    } else {
        scaled_magnitude(bits)
    }
}

/// The sign bit does not touch the magnitude.
pub proof fn lemma_magnitude_without_sign(bits: u64)
    requires
        bits >= SIGN_BIT,
    ensures
        scaled_magnitude(bits) == scaled_magnitude((bits - SIGN_BIT) as u64),
{
    let rest = (bits - SIGN_BIT) as u64;
    assert(bits / EXPONENT_UNIT == rest / EXPONENT_UNIT + 0x800);
    assert(bits % EXPONENT_UNIT == rest % EXPONENT_UNIT);
}

/// Of two patterns without sign, the greater has the greater magnitude.
pub proof fn lemma_magnitude_grows(a: u64, b: u64)
    requires
        a < b < SIGN_BIT,
    ensures
        0 <= scaled_magnitude(a) < scaled_magnitude(b),
{
    let ea = (a / EXPONENT_UNIT) as nat;
    let eb = (b / EXPONENT_UNIT) as nat;
    let fa = (a % EXPONENT_UNIT) as int;
    let fb = (b % EXPONENT_UNIT) as int;
    assert(ea < 0x800 && eb < 0x800);
    assert(ea < eb || (ea == eb && fa < fb));
    let unit = EXPONENT_UNIT as int;
    if ea > 0 {
        vstd::arithmetic::power2::lemma_pow2_pos((ea - 1) as nat);
        assert(0 <= (unit + fa) * pow2((ea - 1) as nat)) by (nonlinear_arith)
            requires
                0 <= unit + fa,
                0 < pow2((ea - 1) as nat),
        {}
    }
    if ea == eb {
        if ea > 0 {
            let scale = pow2((ea - 1) as nat) as int;
            assert((unit + fa) * scale < (unit + fb) * scale) by (nonlinear_arith)
                requires
                    fa < fb,
                    0 < scale,
            {}
        }
    } else {
        let high = pow2((eb - 1) as nat) as int;
        vstd::arithmetic::power2::lemma_pow2_pos((eb - 1) as nat);
        assert(unit * high <= (unit + fb) * high) by (nonlinear_arith)
            requires
                0 <= fb,
                0 < high,
        {}
        if ea == 0 {
            assert(unit <= unit * high) by (nonlinear_arith)
                requires
                    0 < high,
                    0 < unit,
            {}
        } else {
            let low = pow2((ea - 1) as nat) as int;
            lemma_pow2_unfold(ea);
            if ea < eb - 1 {
                vstd::arithmetic::power2::lemma_pow2_strictly_increases(ea, (eb - 1) as nat);
            }
            assert(pow2(ea) <= high);
            assert((unit + fa) * low < unit * (2 * low)) by (nonlinear_arith)
                requires
                    fa < unit,
                    0 < low,
            {}
            assert(unit * (2 * low) <= unit * high) by (nonlinear_arith)
                requires
                    2 * low <= high,
                    0 < unit,
            {}
        }
    }
}

/// The key orders the doubles as their values do: of two patterns, the keys are
/// in the order in which the values are.
pub proof fn lemma_order_key_is_order_of_values(a: u64, b: u64)
    ensures
        int_order(order_key(a), order_key(b)) == int_order(scaled_value(a), scaled_value(b)),
{
    let ma: u64 = if a >= SIGN_BIT {
        (a - SIGN_BIT) as u64
    } else {
        a
    };
    let mb: u64 = if b >= SIGN_BIT {
        (b - SIGN_BIT) as u64
    } else {
        b
    };
    if a >= SIGN_BIT {
        lemma_magnitude_without_sign(a);
    }
    if b >= SIGN_BIT {
        lemma_magnitude_without_sign(b);
    }
    if ma < mb {
        lemma_magnitude_grows(ma, mb);
    }
    if mb < ma {
        lemma_magnitude_grows(mb, ma);
    }
    if 0 < ma {
        lemma_magnitude_grows(0, ma);
    }
    if 0 < mb {
        lemma_magnitude_grows(0, mb);
    }
    assert(scaled_magnitude(0) == 0);
}

/// The significand of a positive number has 53 binary digits, or is two to
/// the 53 where rounding carried.
pub proof fn lemma_significand_bounds(m: nat)
    requires
        m > 0,
    ensures
        EXPONENT_UNIT <= significand(m) <= SIGNIFICAND_LIMIT,
        bit_width(m) <= 53 ==> significand(m) < SIGNIFICAND_LIMIT,
{
    let w = bit_width(m);
    lemma_bit_width_bounds(m);
    vstd::arithmetic::power2::lemma2_to64();
    vstd::arithmetic::power2::lemma2_to64_rest();
    if w <= 53 {
        let up = pow2((53 - w) as nat);
        vstd::arithmetic::power2::lemma_pow2_pos((53 - w) as nat);
        vstd::arithmetic::power2::lemma_pow2_adds((w - 1) as nat, (53 - w) as nat);
        vstd::arithmetic::power2::lemma_pow2_adds(w, (53 - w) as nat);
        assert(pow2((w - 1) as nat) * up <= m * up) by (nonlinear_arith)
            requires
                pow2((w - 1) as nat) <= m,
                0 < up,
        {}
        assert(m * up < pow2(w) * up) by (nonlinear_arith)
            requires
                m < pow2(w),
                0 < up,
        {}
    } else {
        let unit = pow2((w - 53) as nat);
        vstd::arithmetic::power2::lemma_pow2_pos((w - 53) as nat);
        vstd::arithmetic::power2::lemma_pow2_adds(52, (w - 53) as nat);
        vstd::arithmetic::power2::lemma_pow2_adds(53, (w - 53) as nat);
        let kept = m / unit;
        vstd::arithmetic::div_mod::lemma_fundamental_div_mod(m as int, unit as int);
        vstd::arithmetic::div_mod::lemma_mod_bound(m as int, unit as int);
        assert(kept >= EXPONENT_UNIT) by (nonlinear_arith)
            requires
                m == unit * kept + m % unit,
                0 <= m % unit < unit,
                0x10_0000_0000_0000 * unit <= m,
                0 < unit,
        {}
        assert(kept < SIGNIFICAND_LIMIT) by (nonlinear_arith)
            requires
                m == unit * kept + m % unit,
                0 <= m % unit < unit,
                m < 0x20_0000_0000_0000 * unit,
                0 < unit,
        {}
    }
}

/// The pattern of the double nearest to a positive integer has the value of
/// the integer's significand at the integer's width: the integer itself where
/// it has no more than 53 binary digits, and otherwise the integer rounded to
/// 53 digits.
pub proof fn lemma_magnitude_pattern_value(m: nat)
    requires
        0 < m <= SIGN_BIT,
    ensures
        0 < pattern_of_magnitude(m) < SIGN_BIT,
        scaled_magnitude(pattern_of_magnitude(m) as u64) == significand(m) * pow2(
            1021 + bit_width(m),
        ),
        bit_width(m) <= 53 ==> scaled_magnitude(pattern_of_magnitude(m) as u64) == m * pow2(1074),
{
    let w = bit_width(m);
    let sig = significand(m) as int;
    lemma_significand_bounds(m);
    lemma_bit_width_bounds(m);
    vstd::arithmetic::power2::lemma2_to64();
    vstd::arithmetic::power2::lemma2_to64_rest();
    if w > 64 {
        vstd::arithmetic::power2::lemma_pow2_strictly_increases(63, (w - 1) as nat);
    }
    assert(w <= 64);
    let pattern = pattern_of_magnitude(m);
    let unit = EXPONENT_UNIT as int;
    assert(pattern == (1021 + w) * unit + sig);
    let bits = pattern as u64;
    let scale = pow2(1021 + w) as int;
    if sig < SIGNIFICAND_LIMIT {
        assert(bits / EXPONENT_UNIT == 1022 + w);
        assert(bits % EXPONENT_UNIT == sig - unit);
        assert((1021 + w) as nat == ((1022 + w) - 1) as nat);
    } else {
        assert(bits / EXPONENT_UNIT == 1023 + w);
        assert(bits % EXPONENT_UNIT == 0);
        lemma_pow2_unfold(1022 + w);
        assert(unit * (2 * scale) == (2 * unit) * scale) by (nonlinear_arith);
    }
    if w <= 53 {
        let up = pow2((53 - w) as nat) as int;
        vstd::arithmetic::power2::lemma_pow2_adds((53 - w) as nat, 1021 + w);
        assert((m * up) * scale == m * (up * scale)) by (nonlinear_arith);
    }
}

/// The pattern of the double nearest to an integer of no more than 53 binary
/// digits has the value of the integer: such integers are held as they are.
pub proof fn lemma_small_integer_is_exact(i: int)
    requires
        -SIGNIFICAND_LIMIT < i < SIGNIFICAND_LIMIT,
    ensures
        scaled_value(pattern_of_integer(i) as u64) == i * pow2(1074),
{
    if i > 0 {
        lemma_bit_width_53(i as nat);
        lemma_magnitude_pattern_value(i as nat);
    } else if i < 0 {
        let m = (-i) as nat;
        lemma_bit_width_53(m);
        lemma_magnitude_pattern_value(m);
        let bits = pattern_of_integer(i) as u64;
        lemma_magnitude_without_sign(bits);
        assert(m * pow2(1074) == -(i * pow2(1074))) by (nonlinear_arith)
            requires
                m == -i,
        {}
    }
}

/// Where an integer has more than 53 binary digits, its significand at the
/// weight of its last digit is no further from the integer than half that
/// weight: no other such number is nearer.
pub proof fn lemma_significand_is_nearest(m: nat)
    requires
        bit_width(m) > 53,
    ensures
        ({
            let unit = pow2((bit_width(m) - 53) as nat);
            -unit <= 2 * (significand(m) * unit - m) <= unit
        }),
{
    let unit = pow2((bit_width(m) - 53) as nat) as int;
    vstd::arithmetic::power2::lemma_pow2_pos((bit_width(m) - 53) as nat);
    vstd::arithmetic::div_mod::lemma_fundamental_div_mod(m as int, unit);
    vstd::arithmetic::div_mod::lemma_mod_bound(m as int, unit);
    let kept = m as int / unit;
    assert((kept + 1) * unit == kept * unit + unit) by (nonlinear_arith);
    assert(unit * kept == kept * unit) by (nonlinear_arith);
}

} // verus!
