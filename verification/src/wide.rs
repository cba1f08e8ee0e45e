//! Natural numbers of 256 bits.
//!
//! A buffer may be as long as `usize` allows, and the sums of squares and of
//! products over it then outgrow 128 bits. The statistics are computed in
//! these numbers instead, so that none of them needs a bound on the length.

use vstd::prelude::*;

verus! {

/// Two to the power of 128.
pub open spec fn two_pow_128() -> nat {
    0x1_0000_0000_0000_0000_0000_0000_0000_0000nat
}

/// Two to the power of 256.
pub open spec fn two_pow_256() -> nat {
    0x1_0000_0000_0000_0000_0000_0000_0000_0000_0000_0000_0000_0000_0000_0000_0000_0000nat
}

/// Two to the power of 64, the base of the half words of a multiplication.
const HALF: u128 = 0x1_0000_0000_0000_0000;

/// A natural number below 2^256, in two words of 128 bits. The sums of squares
/// and of products over a buffer of any length fit in it.
#[derive(Clone, Copy, Debug, PartialEq, Eq, Structural)]
pub struct U256 {
    /// The upper 128 bits.
    pub hi: u128,
    /// The lower 128 bits.
    pub lo: u128,
}

impl View for U256 {
    type V = nat;

    open spec fn view(&self) -> nat {
        (self.hi * two_pow_128() + self.lo) as nat
    }
}

impl DeepView for U256 {
    type V = nat;

    open spec fn deep_view(&self) -> nat {
        self@
    }
}

/// An integer of magnitude below 2^256: a sign and a magnitude. Zero has no
/// sign.
#[derive(Clone, Copy, Debug, PartialEq, Eq, Structural)]
pub struct I256 {
    /// The number is below zero.
    pub negative: bool,
    /// The number without its sign.
    pub magnitude: U256,
}

impl View for I256 {
    type V = int;

    open spec fn view(&self) -> int {
        if self.negative {
            -(self.magnitude@ as int)
        } else {
            self.magnitude@ as int
        }
    }
}

impl DeepView for I256 {
    type V = int;

    open spec fn deep_view(&self) -> int {
        self@
    }
}

impl I256 {
    /// The number is written in the one way that `difference` writes it: zero
    /// has no sign.
    pub open spec fn is_canonical(self) -> bool {
        self.negative ==> self.magnitude@ != 0
    }
}

/// A number has one pair of words only.
pub proof fn lemma_words_are_unique(a: U256, b: U256)
    requires
        a@ == b@,
    ensures
        a == b,
{
}

/// A number has one canonical sign and magnitude only.
pub proof fn lemma_sign_is_unique(a: I256, b: I256)
    requires
        a@ == b@,
        a.is_canonical(),
        b.is_canonical(),
    ensures
        a == b,
{
    lemma_words_are_unique(a.magnitude, b.magnitude);
}

/// The product of two numbers in half words: with `H = 2^64`,
/// `(a1 * H + a0) * (b1 * H + b0)` multiplied out.
proof fn lemma_product_of_halves(a1: int, a0: int, b1: int, b0: int, h: int)
    ensures
        (a1 * h + a0) * (b1 * h + b0) == (a1 * b1) * (h * h) + (a0 * b1) * h + (a1 * b0) * h + a0
            * b0,
{
    let a = a1 * h + a0;
    assert(a * (b1 * h + b0) == a * (b1 * h) + a * b0) by (nonlinear_arith);
    assert(a * (b1 * h) == (a1 * h) * (b1 * h) + a0 * (b1 * h)) by (nonlinear_arith)
        requires
            a == a1 * h + a0,
    ;
    assert(a * b0 == (a1 * h) * b0 + a0 * b0) by (nonlinear_arith)
        requires
            a == a1 * h + a0,
    ;
    assert((a1 * h) * (b1 * h) == (a1 * b1) * (h * h)) by (nonlinear_arith);
    assert(a0 * (b1 * h) == (a0 * b1) * h) by (nonlinear_arith);
    assert((a1 * h) * b0 == (a1 * b0) * h) by (nonlinear_arith);
}

/// The product of two half words fits in a word.
proof fn lemma_half_product_fits(x: u128, y: u128)
    by (nonlinear_arith)
    requires
        x <= 0xffff_ffff_ffff_ffff,
        y <= 0xffff_ffff_ffff_ffff,
    ensures
        x * y <= 0xffff_ffff_ffff_fffe_0000_0000_0000_0001,
{
}

impl U256 {
    /// The number `x`.
    pub fn from_u128(x: u128) -> (r: U256)
        ensures
            r@ == x,
    {
        U256 { hi: 0, lo: x }
    }

    /// Tells whether the number is zero.
    pub fn is_zero(&self) -> (zero: bool)
        ensures
            zero <==> self@ == 0,
    {
        self.hi == 0 && self.lo == 0
    }

    /// Tells whether the number is no smaller than `other`.
    pub fn at_least(&self, other: &U256) -> (holds: bool)
        ensures
            holds <==> self@ >= other@,
    {
        self.hi > other.hi || (self.hi == other.hi && self.lo >= other.lo)
    }

    /// The product of two words, in full.
    pub fn widening_mul(a: u128, b: u128) -> (r: U256)
        ensures
            r@ == a * b,
    {
        let a1 = a / HALF;
        let a0 = a % HALF;
        let b1 = b / HALF;
        let b0 = b % HALF;
        proof {
            lemma_half_product_fits(a0, b0);
            lemma_half_product_fits(a0, b1);
            lemma_half_product_fits(a1, b0);
            lemma_half_product_fits(a1, b1);
            lemma_product_of_halves(a1 as int, a0 as int, b1 as int, b0 as int, HALF as int);
        }
        let low = a0 * b0;
        let mid_a = a0 * b1;
        let mid_b = a1 * b0;
        let high = a1 * b1;
        let middle = low / HALF + mid_a % HALF + mid_b % HALF;
        let lo = (middle % HALF) * HALF + low % HALF;
        let hi = high + mid_a / HALF + mid_b / HALF + middle / HALF;
        U256 { hi, lo }
    }

    /// The sum of two numbers, or `None` where it is 2^256 or more.
    pub fn checked_add(&self, other: &U256) -> (r: Option<U256>)
        ensures
            r is Some <==> self@ + other@ < two_pow_256(),
            r is Some ==> r->0@ == self@ + other@,
    {
        let room = u128::MAX - other.lo;
        let carry: u128 = if self.lo <= room {
            0
        } else {
            1
        };
        let lo = if self.lo <= room {
            self.lo + other.lo
        } else {
            self.lo - room - 1
        };
        proof {
            let upper = self.hi + other.hi + carry;
            assert(self@ + other@ == upper * two_pow_128() + lo);
            assert(two_pow_128() * two_pow_128() == two_pow_256());
            assert(upper < two_pow_128() <==> upper * two_pow_128() + lo < two_pow_256());
        }
        match self.hi.checked_add(other.hi) {
            None => None,
            Some(upper) => match upper.checked_add(carry) {
                None => None,
                Some(hi) => Some(U256 { hi, lo }),
            },
        }
    }

    /// The difference of two numbers, or `None` where the second is the
    /// larger.
    pub fn checked_sub(&self, other: &U256) -> (r: Option<U256>)
        ensures
            r is Some <==> self@ >= other@,
            r is Some ==> r->0@ == self@ - other@,
    {
        if !self.at_least(other) {
            None
        } else if self.lo >= other.lo {
            Some(U256 { hi: self.hi - other.hi, lo: self.lo - other.lo })
        } else {
            Some(U256 { hi: self.hi - other.hi - 1, lo: self.lo + (u128::MAX - other.lo) + 1 })
        }
    }
}

impl I256 {
    /// The difference `a - b` of two natural numbers, with its sign.
    pub fn difference(a: &U256, b: &U256) -> (r: I256)
        ensures
            r@ == a@ - b@,
            r.is_canonical(),
    {
        match a.checked_sub(b) {
            Some(magnitude) => I256 { negative: false, magnitude },
            None => I256 { negative: true, magnitude: b.checked_sub(a).unwrap() },
        }
    }
}

} // verus!
