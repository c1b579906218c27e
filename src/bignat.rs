//! Exact non-negative integers, stored as little-endian base 2^32 digits.
//! The arithmetic is done by `num_bigint`.

use num_bigint::BigUint;
use vstd::arithmetic::power2::pow2;
use vstd::prelude::*;

verus! {

/// The number a little-endian sequence of base 2^32 digits denotes.
pub open spec fn digits_value(d: Seq<u32>) -> nat
    decreases d.len(),
{
    if d.len() == 0 {
        0
    } else {
        d[0] as nat + 4294967296 * digits_value(d.drop_first())
    }
}

/// Number of binary digits needed to write `n` (zero for zero).
pub open spec fn bit_len(n: nat) -> nat
    decreases n,
{
    if n == 0 {
        0
    } else {
        1 + bit_len(n / 2)
    }
}

/// The decimal digit `d`.
pub open spec fn digit_char(d: nat) -> char {
    if d == 0 {
        '0'
    } else if d == 1 {
        '1'
    } else if d == 2 {
        '2'
    } else if d == 3 {
        '3'
    } else if d == 4 {
        '4'
    } else if d == 5 {
        '5'
    } else if d == 6 {
        '6'
    } else if d == 7 {
        '7'
    } else if d == 8 {
        '8'
    } else {
        '9'
    }
}

/// `n` written in decimal, without leading zeros.
pub open spec fn decimal(n: nat) -> Seq<char>
    decreases n,
{
    if n < 10 {
        seq![digit_char(n)]
    } else {
        decimal(n / 10).push(digit_char(n % 10))
    }
}

/// An exact non-negative integer.
#[derive(Debug)]
pub struct BigNat {
    pub digits: Vec<u32>,
}

impl BigNat {
    pub open spec fn value(&self) -> nat {
        digits_value(self.digits@)
    }

    /// The integer with the given little-endian base 2^32 digits.
    pub fn from_digits(digits: Vec<u32>) -> (r: BigNat)
        ensures
            r.digits@ == digits@,
            r.value() == digits_value(digits@),
    {
        BigNat { digits }
    }

    /// The integer `v`.
    pub fn from_u128(v: u128) -> (r: BigNat)
        ensures
            r.value() == v,
    {
        BigNat { digits: u128_digits(v) }
    }

    /// A copy holding the same digits.
    pub fn duplicate(&self) -> (r: BigNat)
        ensures
            r.digits@ == self.digits@,
            r.value() == self.value(),
    {
        let mut out: Vec<u32> = Vec::new();
        let mut i: usize = 0;
        while i < self.digits.len()
            invariant
                i <= self.digits@.len(),
                out@ == self.digits@.subrange(0, i as int),
            decreases self.digits@.len() - i,
        {
            out.push(self.digits[i]);
            i = i + 1;
        }
        assert(out@ =~= self.digits@);
        BigNat { digits: out }
    }

    /// The least significant base 2^32 digits, most significant zeros dropped.
    pub fn to_u32_digits(&self) -> (r: Vec<u32>)
        ensures
            digits_value(r@) == self.value(),
    {
        normalized(&self.digits)
    }

    /// `2^n`.
    pub fn pow2(n: u32) -> (r: BigNat)
        ensures
            r.value() == pow2(n as nat),
    {
        BigNat { digits: pow2_digits(n) }
    }

    /// `2^n - 1`, the largest value of an `n`-bit unsigned integer.
    pub fn all_ones(n: u32) -> (r: BigNat)
        ensures
            r.value() == pow2(n as nat) - 1,
    {
        let p = BigNat::pow2(n);
        let one = BigNat::from_u128(1);
        proof {
            vstd::arithmetic::power2::lemma_pow2_pos(n as nat);
        }
        BigNat { digits: digits_sub(&p.digits, &one.digits) }
    }

    /// `self + o`.
    pub fn add(&self, o: &BigNat) -> (r: BigNat)
        ensures
            r.value() == self.value() + o.value(),
    {
        BigNat { digits: digits_add(&self.digits, &o.digits) }
    }

    /// `self * o`.
    pub fn mul(&self, o: &BigNat) -> (r: BigNat)
        ensures
            r.value() == self.value() * o.value(),
    {
        BigNat { digits: digits_mul(&self.digits, &o.digits) }
    }

    /// Whether `self < o`.
    pub fn lt(&self, o: &BigNat) -> (r: bool)
        ensures
            r == (self.value() < o.value()),
    {
        digits_lt(&self.digits, &o.digits)
    }

    /// Whether both denote the same integer.
    pub fn same_value(&self, o: &BigNat) -> (r: bool)
        ensures
            r == (self.value() == o.value()),
    {
        !digits_lt(&self.digits, &o.digits) && !digits_lt(&o.digits, &self.digits)
    }

    /// The larger of the two, as a copy.
    pub fn max(&self, o: &BigNat) -> (r: BigNat)
        ensures
            r.value() == if self.value() < o.value() { o.value() } else { self.value() },
    {
        if self.lt(o) {
            o.duplicate()
        } else {
            self.duplicate()
        }
    }

    /// The value written in decimal.
    pub fn to_decimal(&self) -> (r: String)
        ensures
            r@ == decimal(self.value()),
    {
        digits_decimal(&self.digits)
    }

    /// Number of binary digits of the value (zero for zero).
    pub fn bits(&self) -> (r: u64)
        ensures
            r == bit_len(self.value()),
    {
        digits_bits(&self.digits)
    }
}

/// The four base 2^32 digits of `v`, least significant first.
fn u128_digits(v: u128) -> (r: Vec<u32>)
    ensures
        digits_value(r@) == v,
{
    let b: u128 = 4294967296;
    let d0 = (v % b) as u32;
    let v1 = v / b;
    let d1 = (v1 % b) as u32;
    let v2 = v1 / b;
    let d2 = (v2 % b) as u32;
    let v3 = v2 / b;
    proof {
        vstd::arithmetic::div_mod::lemma_fundamental_div_mod(v as int, b as int);
        vstd::arithmetic::div_mod::lemma_fundamental_div_mod(v1 as int, b as int);
        vstd::arithmetic::div_mod::lemma_fundamental_div_mod(v2 as int, b as int);
        assert(v1 <= 0xffff_ffff_ffff_ffff_ffff_ffff);
        assert(v2 <= 0xffff_ffff_ffff_ffff);
        assert(v3 <= 0xffff_ffff);
    }
    let d3 = v3 as u32;
    let r = vec![d0, d1, d2, d3];
    proof {
        reveal_with_fuel(digits_value, 5);
        assert(r@.drop_first() =~= seq![d1, d2, d3]);
        assert(r@.drop_first().drop_first() =~= seq![d2, d3]);
        assert(r@.drop_first().drop_first().drop_first() =~= seq![d3]);
        assert(seq![d3].drop_first() =~= Seq::<u32>::empty());
        assert(digits_value(seq![d3]) == d3 as nat);
        assert(digits_value(seq![d2, d3]) == d2 as nat + 4294967296 * d3 as nat);
        assert(digits_value(seq![d1, d2, d3]) == d1 as nat + 4294967296 * digits_value(seq![d2, d3]));
    }
    r
}

/// Zero digits at the most significant end add nothing.
proof fn lemma_zero_tail(s: Seq<u32>, n: int)
    requires
        0 <= n <= s.len(),
        forall|i: int| n <= i < s.len() ==> s[i] == 0,
    ensures
        digits_value(s) == digits_value(s.take(n)),
    decreases s.len(),
{
    if s.len() == 0 {
        assert(s.take(n) =~= s);
    } else if n == 0 {
        lemma_zero_tail(s.drop_first(), 0);
        assert(s.take(0) =~= Seq::<u32>::empty());
        assert(s.drop_first().take(0) =~= Seq::<u32>::empty());
    } else {
        lemma_zero_tail(s.drop_first(), n - 1);
        assert(s.take(n).drop_first() =~= s.drop_first().take(n - 1));
    }
}

/// The same value, without most significant zero digits.
fn normalized(a: &Vec<u32>) -> (r: Vec<u32>)
    ensures
        digits_value(r@) == digits_value(a@),
{
    let mut n: usize = a.len();
    while n > 0 && a[n - 1] == 0
        invariant
            n <= a@.len(),
            forall|i: int| n <= i < a@.len() ==> a@[i] == 0,
        decreases n,
    {
        n = n - 1;
    }
    let mut out: Vec<u32> = Vec::new();
    let mut i: usize = 0;
    while i < n
        invariant
            n <= a@.len(),
            i <= n,
            out@ == a@.take(i as int),
        decreases n - i,
    {
        out.push(a[i]);
        i = i + 1;
        assert(out@ =~= a@.take(i as int));
    }
    proof {
        lemma_zero_tail(a@, n as int);
    }
    out
}

/// Relies on `BigUint::pow`: the digits of `2^n`.
#[verifier::external_body]
fn pow2_digits(n: u32) -> (r: Vec<u32>)
    ensures
        digits_value(r@) == pow2(n as nat),
{
    BigUint::from(2u32).pow(n).to_u32_digits()
}

/// Relies on `BigUint`'s `+`: the digits of the sum.
#[verifier::external_body]
fn digits_add(a: &Vec<u32>, b: &Vec<u32>) -> (r: Vec<u32>)
    ensures
        digits_value(r@) == digits_value(a@) + digits_value(b@),
{
    (BigUint::from_slice(a) + BigUint::from_slice(b)).to_u32_digits()
}

/// Relies on `BigUint`'s `-`, which panics when `b > a`: the digits of the difference.
#[verifier::external_body]
fn digits_sub(a: &Vec<u32>, b: &Vec<u32>) -> (r: Vec<u32>)
    requires
        digits_value(b@) <= digits_value(a@),
    ensures
        digits_value(r@) == digits_value(a@) - digits_value(b@),
{
    (BigUint::from_slice(a) - BigUint::from_slice(b)).to_u32_digits()
}

/// Relies on `BigUint`'s `*`: the digits of the product.
#[verifier::external_body]
fn digits_mul(a: &Vec<u32>, b: &Vec<u32>) -> (r: Vec<u32>)
    ensures
        digits_value(r@) == digits_value(a@) * digits_value(b@),
{
    (BigUint::from_slice(a) * BigUint::from_slice(b)).to_u32_digits()
}

/// Relies on `BigUint`'s `<`: whether `a` denotes less than `b`.
#[verifier::external_body]
fn digits_lt(a: &Vec<u32>, b: &Vec<u32>) -> (r: bool)
    ensures
        r == (digits_value(a@) < digits_value(b@)),
{
    BigUint::from_slice(a) < BigUint::from_slice(b)
}

/// Relies on `BigUint::to_str_radix` with radix 10: the value in decimal, without leading zeros.
#[verifier::external_body]
fn digits_decimal(a: &Vec<u32>) -> (r: String)
    ensures
        r@ == decimal(digits_value(a@)),
{
    BigUint::from_slice(a).to_str_radix(10)
}

/// Relies on `BigUint::bits`: the number of binary digits of the value.
#[verifier::external_body]
fn digits_bits(a: &Vec<u32>) -> (r: u64)
    ensures
        r == bit_len(digits_value(a@)),
{
    BigUint::from_slice(a).bits()
}

} // verus!
