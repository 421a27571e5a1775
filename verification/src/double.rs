//! Double-precision numbers held by their bit pattern, with the comparisons
//! that the numeric keywords need, decided on the bits.
use vstd::arithmetic::power2::pow2;
use vstd::prelude::*;

verus! {

/// A double-precision number: its IEEE-754 bit pattern and the two texts by
/// which messages quote it.
pub struct Double {
    /// The sixty-four bits of the number: sign, eleven bits of exponent,
    /// fifty-two bits of fraction.
    pub bits: u64,
    /// The number as `Display` writes it.
    pub shown: String,
    /// The number as `Debug` writes it.
    pub debug: String,
}

/// What a [`Double`] holds, as plain values.
pub ghost struct DoubleView {
    pub bits: u64,
    pub shown: Seq<char>,
    pub debug: Seq<char>,
}

impl View for Double {
    type V = DoubleView;

    open spec fn view(&self) -> DoubleView {
        DoubleView { bits: self.bits, shown: self.shown@, debug: self.debug@ }
    }
}

impl Double {
    /// A number from its bits and its two renderings.
    pub fn new(bits: u64, shown: String, debug: String) -> (r: Double)
        ensures
            r@ == (DoubleView { bits, shown: shown@, debug: debug@ }),
    {
        Double { bits, shown, debug }
    }

    /// A copy of the number.
    pub fn duplicate(&self) -> (r: Double)
        ensures
            r@ == self@,
    {
        Double { bits: self.bits, shown: self.shown.clone(), debug: self.debug.clone() }
    }
}

/// The weight of the sign bit.
pub const SIGN: u64 = 0x8000_0000_0000_0000;

/// The weight of the lowest exponent bit, which is also the hidden bit of a
/// normal number's significand.
pub const HIDDEN: u64 = 0x0010_0000_0000_0000;

/// Whether the sign bit is set.
pub open spec fn is_negative(bits: u64) -> bool {
    bits >= SIGN
}

/// The eleven exponent bits, as a number.
pub open spec fn exponent_field(bits: u64) -> nat {
    ((bits % SIGN) / HIDDEN) as nat
}

/// The fifty-two fraction bits, as a number.
pub open spec fn fraction_field(bits: u64) -> nat {
    ((bits % SIGN) % HIDDEN) as nat
}

/// Whether the bits stand for no number at all.
pub open spec fn is_nan(bits: u64) -> bool {
    exponent_field(bits) == 2047 && fraction_field(bits) != 0
}

/// Whether the bits stand for an infinity.
pub open spec fn is_infinite(bits: u64) -> bool {
    exponent_field(bits) == 2047 && fraction_field(bits) == 0
}

/// The significand: the fraction, with the hidden bit where the number is
/// normal.
pub open spec fn significand(bits: u64) -> nat {
    if exponent_field(bits) == 0 {
        fraction_field(bits)
    } else {
        HIDDEN as nat + fraction_field(bits)
    }
}

/// By how many binary places the significand is shifted above the smallest
/// subnormal.
pub open spec fn shift(bits: u64) -> nat {
    if exponent_field(bits) == 0 {
        0
    } else {
        (exponent_field(bits) - 1) as nat
    }
}

/// The absolute value of a finite number, in units of the smallest
/// subnormal (two to the power -1074). For an infinity the same formula gives
/// a value above that of every finite number.
pub open spec fn scaled_magnitude(bits: u64) -> nat {
    significand(bits) * pow2(shift(bits))
}

/// The value of a number in units of the smallest subnormal. Both zeros have
/// the value zero.
pub open spec fn scaled(bits: u64) -> int {
    if is_negative(bits) {
        -(scaled_magnitude(bits) as int)
    } else {
        scaled_magnitude(bits) as int
    }
}

/// `a < b` as IEEE-754 has it: false where either is not a number.
pub open spec fn less(a: u64, b: u64) -> bool {
    !is_nan(a) && !is_nan(b) && scaled(a) < scaled(b)
}

/// `a <= b` as IEEE-754 has it: false where either is not a number.
pub open spec fn at_most(a: u64, b: u64) -> bool {
    !is_nan(a) && !is_nan(b) && scaled(a) <= scaled(b)
}

/// `a == b` as IEEE-754 has it: false where either is not a number, true of
/// the two zeros.
pub open spec fn same(a: u64, b: u64) -> bool {
    !is_nan(a) && !is_nan(b) && scaled(a) == scaled(b)
}

/// Whether the remainder of `x` divided by `y` is zero, as IEEE-754 has it:
/// `x` is finite, `y` is not zero, neither is not a number, and the value of
/// `y` goes into that of `x` a whole number of times. An infinite `y` leaves
/// `x` as the remainder.
pub open spec fn zero_remainder(x: u64, y: u64) -> bool {
    &&& !is_nan(x)
    &&& !is_nan(y)
    &&& !is_infinite(x)
    &&& scaled_magnitude(y) != 0
    &&& scaled_magnitude(x) % scaled_magnitude(y) == 0
}

/// The scaled magnitude as a function of the sixty-three bits below the
/// sign.
spec fn magnitude_of(m: nat) -> nat {
    let e = m / (HIDDEN as nat);
    let f = m % (HIDDEN as nat);
    if e == 0 {
        f
    } else {
        (HIDDEN as nat + f) * pow2((e - 1) as nat)
    }
}

proof fn lemma_magnitude_of(bits: u64)
    ensures
        scaled_magnitude(bits) == magnitude_of((bits % SIGN) as nat),
{
    let m = bits % SIGN;
    assert(exponent_field(bits) == (m as nat) / (HIDDEN as nat));
    assert(fraction_field(bits) == (m as nat) % (HIDDEN as nat));
    if exponent_field(bits) == 0 {
        vstd::arithmetic::power2::lemma2_to64();
        assert(fraction_field(bits) * pow2(0) == fraction_field(bits));
    }
}

/// A larger bit pattern below the sign stands for a larger magnitude.
proof fn lemma_magnitude_increases(m1: nat, m2: nat)
    requires
        m1 < m2,
    ensures
        magnitude_of(m1) < magnitude_of(m2),
{
    let p = HIDDEN as nat;
    let e1 = m1 / p;
    let f1 = m1 % p;
    let e2 = m2 / p;
    let f2 = m2 % p;
    assert(m1 == e1 * p + f1 && m2 == e2 * p + f2 && f1 < p && f2 < p) by {
        vstd::arithmetic::div_mod::lemma_fundamental_div_mod(m1 as int, p as int);
        vstd::arithmetic::div_mod::lemma_fundamental_div_mod(m2 as int, p as int);
    }
    assert(e1 <= e2) by (nonlinear_arith)
        requires
            e1 * p + f1 < e2 * p + f2,
            f1 < p,
            f2 < p,
            p > 0,
    ;
    vstd::arithmetic::power2::lemma2_to64();
    if e1 == e2 {
        assert(f1 < f2);
        if e1 != 0 {
            let k = pow2((e1 - 1) as nat);
            vstd::arithmetic::power2::lemma_pow2_pos((e1 - 1) as nat);
            assert((p + f1) * k < (p + f2) * k) by (nonlinear_arith)
                requires
                    f1 < f2,
                    k > 0,
            ;
        }
    } else {
        // Every magnitude with exponent field e1 stays below p * 2^e1, and
        // every one with a larger field reaches it.
        let bound = p * pow2(e1);
        if e1 == 0 {
            assert(magnitude_of(m1) < bound);
        } else {
            let k = pow2((e1 - 1) as nat);
            vstd::arithmetic::power2::lemma_pow2_pos((e1 - 1) as nat);
            vstd::arithmetic::power2::lemma_pow2_unfold(e1);
            assert(pow2(e1) == 2 * k);
            assert((p + f1) * k < p * (2 * k)) by (nonlinear_arith)
                requires
                    f1 < p,
                    k > 0,
            ;
        }
        let k2 = pow2((e2 - 1) as nat);
        if e1 < e2 - 1 {
            vstd::arithmetic::power2::lemma_pow2_strictly_increases(e1, (e2 - 1) as nat);
        }
        assert(pow2(e1) <= k2);
        assert(p * pow2(e1) <= (p + f2) * k2) by (nonlinear_arith)
            requires
                pow2(e1) <= k2,
                p > 0,
        ;
    }
}

/// Bit patterns below the sign are ordered as the magnitudes they stand for.
proof fn lemma_magnitude_order(a: u64, b: u64)
    ensures
        (a % SIGN) < (b % SIGN) <==> scaled_magnitude(a) < scaled_magnitude(b),
        (a % SIGN) == (b % SIGN) <==> scaled_magnitude(a) == scaled_magnitude(b),
        (a % SIGN) == 0 <==> scaled_magnitude(a) == 0,
{
    lemma_magnitude_of(a);
    lemma_magnitude_of(b);
    let x = (a % SIGN) as nat;
    let y = (b % SIGN) as nat;
    assert(magnitude_of(0) == 0);
    if x > 0 {
        lemma_magnitude_increases(0, x);
    }
    if x < y {
        lemma_magnitude_increases(x, y);
    } else if y < x {
        lemma_magnitude_increases(y, x);
    }
}

fn nan(bits: u64) -> (r: bool)
    ensures
        r == is_nan(bits),
{
    let m = bits % SIGN;
    m / HIDDEN == 2047 && m % HIDDEN != 0
}

/// Whether `a` is less than `b`.
pub fn is_less(a: u64, b: u64) -> (r: bool)
    ensures
        r == less(a, b),
{
    if nan(a) || nan(b) {
        return false;
    }
    proof {
        lemma_magnitude_order(a, b);
        lemma_magnitude_order(b, a);
    }
    let x = a % SIGN;
    let y = b % SIGN;
    if a >= SIGN {
        if b >= SIGN {
            y < x
        } else {
            x != 0 || y != 0
        }
    } else {
        if b >= SIGN {
            false
        } else {
            x < y
        }
    }
}

/// Whether `a` equals `b`.
pub fn is_same(a: u64, b: u64) -> (r: bool)
    ensures
        r == same(a, b),
{
    if nan(a) || nan(b) {
        return false;
    }
    proof {
        lemma_magnitude_order(a, b);
        lemma_magnitude_order(b, a);
    }
    let x = a % SIGN;
    let y = b % SIGN;
    if (a >= SIGN) == (b >= SIGN) {
        x == y
    } else {
        x == 0 && y == 0
    }
}

/// Whether `a` is less than or equal to `b`.
pub fn is_at_most(a: u64, b: u64) -> (r: bool)
    ensures
        r == at_most(a, b),
{
    is_less(a, b) || is_same(a, b)
}

/// With both numbers scaled by the same power of two, the remainder is
/// zero exactly where the remainder of the unscaled numbers is.
proof fn lemma_common_scale(x: nat, c: nat, e: nat)
    requires
        c > 0,
    ensures
        (x * pow2(e)) % (c * pow2(e)) == 0 <==> x % c == 0,
{
    let b = pow2(e);
    vstd::arithmetic::power2::lemma_pow2_pos(e);
    vstd::arithmetic::div_mod::lemma_truncate_middle(x as int, b as int, c as int);
    assert(x * b == b * x && c * b == b * c) by (nonlinear_arith);
    let r = x % c;
    assert(b * r == 0 <==> r == 0) by (nonlinear_arith)
        requires
            b > 0,
            r >= 0,
    ;
}

/// Whether the remainder of `x` divided by `y` is zero.
pub fn has_zero_remainder(x: u64, y: u64) -> (r: bool)
    ensures
        r == zero_remainder(x, y),
{
    if nan(x) || nan(y) {
        return false;
    }
    let a = x % SIGN;
    let b = y % SIGN;
    let ex = a / HIDDEN;
    let ey = b / HIDDEN;
    proof {
        lemma_magnitude_order(x, y);
        lemma_magnitude_order(y, x);
        vstd::arithmetic::power2::lemma2_to64();
        vstd::arithmetic::power2::lemma2_to64_rest();
    }
    if ex == 2047 || b == 0 {
        return false;
    }
    let mx: u64 = if ex == 0 {
        a % HIDDEN
    } else {
        HIDDEN + a % HIDDEN
    };
    let my: u64 = if ey == 0 {
        b % HIDDEN
    } else {
        HIDDEN + b % HIDDEN
    };
    let dx: u64 = if ex == 0 {
        0
    } else {
        ex - 1
    };
    let dy: u64 = if ey == 0 {
        0
    } else {
        ey - 1
    };
    assert(mx == significand(x) && my == significand(y) && dx == shift(x) && dy == shift(y));
    assert(my > 0);
    if mx == 0 {
        assert(scaled_magnitude(x) == 0) by (nonlinear_arith)
            requires
                scaled_magnitude(x) == significand(x) * pow2(shift(x)),
                significand(x) == 0,
        ;
        return true;
    }
    if dx >= dy {
        let k = dx - dy;
        let mut rem: u64 = mx % my;
        let mut i: u64 = 0;
        assert(mx * pow2(0) == mx);
        while i < k
            invariant
                i <= k,
                0 < my < 0x20_0000_0000_0000,
                rem == (mx * pow2(i as nat)) % (my as int),
            decreases k - i,
        {
            proof {
                let t = (mx * pow2(i as nat)) as int;
                vstd::arithmetic::div_mod::lemma_mul_mod_noop_left(t, 2, my as int);
                vstd::arithmetic::power2::lemma_pow2_unfold((i + 1) as nat);
                assert(mx * pow2((i + 1) as nat) == t * 2) by (nonlinear_arith)
                    requires
                        pow2((i + 1) as nat) == 2 * pow2(i as nat),
                        t == mx * pow2(i as nat),
                ;
            }
            rem = (rem * 2) % my;
            i += 1;
        }
        proof {
            vstd::arithmetic::power2::lemma_pow2_adds(k as nat, dy as nat);
            let top = (mx * pow2(k as nat)) as nat;
            assert(scaled_magnitude(x) == top * pow2(dy as nat)) by (nonlinear_arith)
                requires
                    scaled_magnitude(x) == mx * pow2(dx as nat),
                    pow2(dx as nat) == pow2(k as nat) * pow2(dy as nat),
                    top == mx * pow2(k as nat),
            ;
            lemma_common_scale(top, my as nat, dy as nat);
        }
        rem == 0
    } else {
        let k = dy - dx;
        proof {
            vstd::arithmetic::power2::lemma_pow2_adds(k as nat, dx as nat);
            let low = (my * pow2(k as nat)) as nat;
            assert(scaled_magnitude(y) == low * pow2(dx as nat)) by (nonlinear_arith)
                requires
                    scaled_magnitude(y) == my * pow2(dy as nat),
                    pow2(dy as nat) == pow2(k as nat) * pow2(dx as nat),
                    low == my * pow2(k as nat),
            ;
            vstd::arithmetic::power2::lemma_pow2_pos(k as nat);
            assert(low > 0) by (nonlinear_arith)
                requires
                    low == my * pow2(k as nat),
                    my > 0,
                    pow2(k as nat) > 0,
            ;
            lemma_common_scale(mx as nat, low, dx as nat);
        }
        if k >= 53 {
            proof {
                if k > 53 {
                    vstd::arithmetic::power2::lemma_pow2_strictly_increases(53, k as nat);
                }
                let low = (my * pow2(k as nat)) as nat;
                assert(low > mx) by (nonlinear_arith)
                    requires
                        low == my * pow2(k as nat),
                        my >= 1,
                        pow2(k as nat) >= 0x20_0000_0000_0000,
                        mx < 0x20_0000_0000_0000,
                ;
                vstd::arithmetic::div_mod::lemma_small_mod(mx as nat, low);
            }
            return false;
        }
        let mut low: u128 = my as u128;
        let mut i: u64 = 0;
        assert(my * pow2(0) == my);
        while i < k
            invariant
                i <= k < 53,
                0 < my < 0x20_0000_0000_0000,
                low == my * pow2(i as nat),
            decreases k - i,
        {
            proof {
                vstd::arithmetic::power2::lemma_pow2_unfold((i + 1) as nat);
                vstd::arithmetic::power2::lemma2_to64();
                vstd::arithmetic::power2::lemma2_to64_rest();
                if i < 52 {
                    vstd::arithmetic::power2::lemma_pow2_strictly_increases(i as nat, 52);
                }
                assert(my * pow2(i as nat) < 0x20_0000_0000_0000 * 0x10_0000_0000_0000)
                    by (nonlinear_arith)
                    requires
                        my < 0x20_0000_0000_0000,
                        pow2(i as nat) <= 0x10_0000_0000_0000,
                ;
                assert(my * pow2((i + 1) as nat) == (my * pow2(i as nat)) * 2)
                    by (nonlinear_arith)
                    requires
                        pow2((i + 1) as nat) == 2 * pow2(i as nat),
                ;
            }
            low = low * 2;
            i += 1;
        }
        (mx as u128) % low == 0
    }
}

impl Double {
    /// Whether this number is less than `other`.
    pub fn lt(&self, other: &Double) -> (r: bool)
        ensures
            r == less(self.bits, other.bits),
    {
        is_less(self.bits, other.bits)
    }

    /// Whether this number is less than or equal to `other`.
    pub fn le(&self, other: &Double) -> (r: bool)
        ensures
            r == at_most(self.bits, other.bits),
    {
        is_at_most(self.bits, other.bits)
    }

    /// Whether this number equals `other`.
    pub fn equals(&self, other: &Double) -> (r: bool)
        ensures
            r == same(self.bits, other.bits),
    {
        is_same(self.bits, other.bits)
    }

    /// Whether dividing this number by `divisor` leaves no remainder.
    pub fn is_multiple_of(&self, divisor: &Double) -> (r: bool)
        ensures
            r == zero_remainder(self.bits, divisor.bits),
    {
        has_zero_remainder(self.bits, divisor.bits)
    }
}

} // verus!
