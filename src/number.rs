//! Exact comparison of JSON numbers across their representations.
use vstd::prelude::*;
use crate::json::Number;

verus! {

/// `2^e`.
pub open spec fn pow2(e: nat) -> int
    decreases e,
{
    if e == 0 {
        1
    } else {
        2 * pow2((e - 1) as nat)
    }
}

/// The mantissa of a number written as `mantissa * 2^exponent`.
pub open spec fn mantissa_of(n: Number) -> int {
    match n {
        Number::Unsigned(u) => u as int,
        Number::Signed(s) => s as int,
        Number::Float { mantissa, exponent } => mantissa as int,
    }
}

/// The exponent of a number written as `mantissa * 2^exponent`.
pub open spec fn exponent_of(n: Number) -> int {
    match n {
        Number::Float { mantissa, exponent } => exponent as int,
        _ => 0,
    }
}

/// `ma * 2^ea >= mb * 2^eb`, with both sides scaled to the smaller exponent.
pub open spec fn scaled_ge(ma: int, ea: int, mb: int, eb: int) -> bool {
    if ea >= eb {
        ma * pow2((ea - eb) as nat) >= mb
    } else {
        ma >= mb * pow2((eb - ea) as nat)
    }
}

/// The value of `a` is at least the value of `b`.
pub open spec fn number_ge(a: Number, b: Number) -> bool {
    scaled_ge(mantissa_of(a), exponent_of(a), mantissa_of(b), exponent_of(b))
}

/// The number as an unsigned integer, when it is one.
pub open spec fn as_u64_spec(n: Number) -> Option<u64> {
    match n {
        Number::Unsigned(u) => Some(u),
        Number::Signed(s) => if s >= 0 { Some(s as u64) } else { None },
        _ => None,
    }
}

/// The number as a signed integer, when it is one.
pub open spec fn as_i64_spec(n: Number) -> Option<i64> {
    match n {
        Number::Unsigned(u) => if u <= i64::MAX { Some(u as i64) } else { None },
        Number::Signed(s) => Some(s),
        _ => None,
    }
}

/// The representation a number is classified into: unsigned if it is one, else signed, else float.
pub open spec fn classify_spec(n: Number) -> Number {
    match as_u64_spec(n) {
        Some(u) => Number::Unsigned(u),
        None => match as_i64_spec(n) {
            Some(s) => Number::Signed(s),
            None => n,
        },
    }
}

impl Number {
    /// The number as an unsigned integer, when it is one.
    pub fn as_u64(&self) -> (r: Option<u64>)
        ensures
            r == as_u64_spec(*self),
    {
        match *self {
            Number::Unsigned(u) => Some(u),
            Number::Signed(s) => if s >= 0 { Some(s as u64) } else { None },
            _ => None,
        }
    }

    /// The number as a signed integer, when it is one.
    pub fn as_i64(&self) -> (r: Option<i64>)
        ensures
            r == as_i64_spec(*self),
    {
        match *self {
            Number::Unsigned(u) => if u <= i64::MAX as u64 { Some(u as i64) } else { None },
            Number::Signed(s) => Some(s),
            _ => None,
        }
    }

    /// Tries unsigned, then signed, then keeps the float form.
    pub fn classify(&self) -> (r: Number)
        ensures
            r == classify_spec(*self),
            number_ge(r, *self) && number_ge(*self, r),
    {
        let r = match self.as_u64() {
            Some(u) => Number::Unsigned(u),
            None => match self.as_i64() {
                Some(s) => Number::Signed(s),
                None => *self,
            },
        };
        proof {
            assert(pow2(0) == 1);
        }
        r
    }
}

/// Relies on `num_cmp::NumCmp::num_ge` between an unsigned and a signed integer.
#[verifier::external_body]
fn unsigned_ge_signed(a: u64, b: i64) -> (r: bool)
    ensures
        r == (a as int >= b as int),
{
    num_cmp::NumCmp::num_ge(a, b)
}

/// Relies on `num_cmp::NumCmp::num_ge` between a signed and an unsigned integer.
#[verifier::external_body]
fn signed_ge_unsigned(a: i64, b: u64) -> (r: bool)
    ensures
        r == (a as int >= b as int),
{
    num_cmp::NumCmp::num_ge(a, b)
}

proof fn lemma_pow2_pos(e: nat)
    ensures
        pow2(e) >= 1,
    decreases e,
{
    if e > 0 {
        lemma_pow2_pos((e - 1) as nat);
    }
}

proof fn lemma_pow2_mono(a: nat, b: nat)
    requires
        a <= b,
    ensures
        pow2(a) <= pow2(b),
    decreases b,
{
    if a < b {
        lemma_pow2_mono(a, (b - 1) as nat);
        lemma_pow2_pos((b - 1) as nat);
    }
}

proof fn lemma_pow2_64()
    ensures
        pow2(63) == 0x8000_0000_0000_0000,
        pow2(64) == 0x1_0000_0000_0000_0000,
{
    reveal_with_fuel(pow2, 65);
}

/// `2^d` for `d < 64`.
pub(crate) fn pow2_exec(d: u32) -> (r: i128)
    requires
        d < 64,
    ensures
        r == pow2(d as nat),
        1 <= r <= 0x8000_0000_0000_0000,
{
    let mut p: i128 = 1;
    let mut i: u32 = 0;
    proof {
        lemma_pow2_64();
    }
    while i < d
        invariant
            i <= d,
            d < 64,
            p == pow2(i as nat),
            pow2(63) == 0x8000_0000_0000_0000,
        decreases d - i,
    {
        proof {
            lemma_pow2_mono((i + 1) as nat, 63);
            assert(pow2((i + 1) as nat) == 2 * pow2(i as nat));
            lemma_pow2_pos(i as nat);
            assert(p * 2 <= 0x8000_0000_0000_0000);
        }
        p = p * 2;
        i = i + 1;
    }
    proof {
        lemma_pow2_pos(d as nat);
        lemma_pow2_mono(d as nat, 63);
    }
    p
}

/// `ma * 2^d >= mb`, for mantissas below `2^64` in absolute value.
fn shifted_ge(ma: i128, d: u64, mb: i128) -> (r: bool)
    requires
        -0x1_0000_0000_0000_0000 < ma < 0x1_0000_0000_0000_0000,
        -0x1_0000_0000_0000_0000 < mb < 0x1_0000_0000_0000_0000,
    ensures
        r == (ma * pow2(d as nat) >= mb),
{
    if d >= 64 {
        proof {
            lemma_pow2_64();
            lemma_pow2_mono(64, d as nat);
            let p = pow2(d as nat);
            if ma > 0 {
                assert(ma * p >= p) by (nonlinear_arith)
                    requires ma >= 1, p >= 1;
            } else if ma < 0 {
                assert(ma * p <= -p) by (nonlinear_arith)
                    requires ma <= -1, p >= 1;
            }
        }
        if ma > 0 {
            true
        } else if ma < 0 {
            false
        } else {
            0 >= mb
        }
    } else {
        let p = pow2_exec(d as u32);
        proof {
            assert(-0x8000_0000_0000_0000_0000_0000_0000_0000 < ma * p < 0x8000_0000_0000_0000_0000_0000_0000_0000)
                by (nonlinear_arith)
                requires
                    -0x1_0000_0000_0000_0000 < ma < 0x1_0000_0000_0000_0000,
                    1 <= p <= 0x8000_0000_0000_0000,
            ;
        }
        ma * p >= mb
    }
}

/// `ma >= mb * 2^d`, for mantissas below `2^64` in absolute value.
fn ge_shifted(ma: i128, mb: i128, d: u64) -> (r: bool)
    requires
        -0x1_0000_0000_0000_0000 < ma < 0x1_0000_0000_0000_0000,
        -0x1_0000_0000_0000_0000 < mb < 0x1_0000_0000_0000_0000,
    ensures
        r == (ma >= mb * pow2(d as nat)),
{
    let neg = shifted_ge(-mb, d, -ma);
    proof {
        let p = pow2(d as nat);
        assert((-mb) * p == -(mb * p)) by (nonlinear_arith);
    }
    neg
}

/// The value of `a` is at least the value of `b`, compared without rounding either side.
pub fn num_ge(a: Number, b: Number) -> (r: bool)
    ensures
        r == number_ge(a, b),
{
    proof {
        assert(pow2(0) == 1);
        assert(mantissa_of(a) * pow2(0) == mantissa_of(a));
    }
    match (a, b) {
        (Number::Unsigned(x), Number::Unsigned(y)) => x >= y,
        (Number::Signed(x), Number::Signed(y)) => x >= y,
        (Number::Unsigned(x), Number::Signed(y)) => unsigned_ge_signed(x, y),
        (Number::Signed(x), Number::Unsigned(y)) => signed_ge_unsigned(x, y),
        _ => {
            let (ma, ea): (i128, i64) = match a {
                Number::Unsigned(x) => (x as i128, 0),
                Number::Signed(x) => (x as i128, 0),
                Number::Float { mantissa, exponent } => (mantissa as i128, exponent as i64),
            };
            let (mb, eb): (i128, i64) = match b {
                Number::Unsigned(x) => (x as i128, 0),
                Number::Signed(x) => (x as i128, 0),
                Number::Float { mantissa, exponent } => (mantissa as i128, exponent as i64),
            };
            if ea >= eb {
                shifted_ge(ma, (ea - eb) as u64, mb)
            } else {
                ge_shifted(ma, mb, (eb - ea) as u64)
            }
        },
    }
}

} // verus!
verus! {

/// The number's value is a whole number.
pub open spec fn is_integer_spec(n: Number) -> bool {
    match n {
        Number::Float { mantissa, exponent } => exponent >= 0 || mantissa == 0 || (
            -exponent < 64 && (if mantissa < 0 { -mantissa } else { mantissa as int }) % pow2((-exponent) as nat) == 0),
        _ => true,
    }
}

/// The number's value is a whole number.
pub fn is_integer(n: Number) -> (r: bool)
    ensures
        r == is_integer_spec(n),
{
    match n {
        Number::Float { mantissa, exponent } => {
            if exponent >= 0 || mantissa == 0 {
                true
            } else if exponent <= -64 {
                false
            } else {
                let p = pow2_exec((-exponent) as u32);
                let m: i128 = if mantissa < 0 { -(mantissa as i128) } else { mantissa as i128 };
                m % p == 0
            }
        },
        _ => true,
    }
}

} // verus!
