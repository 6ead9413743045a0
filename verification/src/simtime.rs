use vstd::prelude::*;

use crate::error::Error;
use vstd::string::StrSliceExecFns;

verus! {

/// Physical unit of a simulation timestamp.
///
/// Units form a total order with a fixed power-of-ten multiplier relative
/// to femtoseconds, so any two timestamps can be compared or divided after
/// conversion to a common femtosecond scale.
#[derive(Debug, Clone, Copy, PartialEq, Eq, Structural)]
pub enum SimTimeUnit {
    Fs,
    Ps,
    Us,
    Ns,
    Ms,
    S,
}

/// Femtoseconds per unit.
pub open spec fn unit_multiplier(u: SimTimeUnit) -> nat {
    match u {
        SimTimeUnit::S => 1_000_000_000_000_000,
        SimTimeUnit::Ms => 1_000_000_000_000,
        SimTimeUnit::Us => 1_000_000_000,
        SimTimeUnit::Ns => 1_000_000,
        SimTimeUnit::Ps => 1_000,
        SimTimeUnit::Fs => 1,
    }
}

/// ASCII lower-casing of a single character; everything outside `A`..`Z`
/// is left unchanged.
pub open spec fn lower_char(c: char) -> char {
    if 65 <= c as u32 && (c as u32) <= 90 {
        ((c as u32 + 32) as char)
    } else {
        c
    }
}

/// Case-insensitive reading of a unit name among `s`, `ms`, `us`, `ns`,
/// `ps` and `fs`; anything else has no unit.
pub open spec fn parse_unit(s: Seq<char>) -> Option<SimTimeUnit> {
    if s.len() == 1 && lower_char(s[0]) == 's' {
        Some(SimTimeUnit::S)
    } else if s.len() == 2 && lower_char(s[1]) == 's' {
        if lower_char(s[0]) == 'm' {
            Some(SimTimeUnit::Ms)
        } else if lower_char(s[0]) == 'u' {
            Some(SimTimeUnit::Us)
        } else if lower_char(s[0]) == 'n' {
            Some(SimTimeUnit::Ns)
        } else if lower_char(s[0]) == 'p' {
            Some(SimTimeUnit::Ps)
        } else if lower_char(s[0]) == 'f' {
            Some(SimTimeUnit::Fs)
        } else {
            None
        }
    } else {
        None
    }
}

impl SimTimeUnit {
    /// Reads a unit from its case-insensitive name; any other text is
    /// rejected as an invalid time.
    pub fn from_string(s: &str) -> (r: Result<SimTimeUnit, Error>)
        ensures
            (match r {
                Ok(u) => parse_unit(s@) == Some(u),
                Err(e) => parse_unit(s@) is None && (e matches Error::InvalidTime(t) && t@ == s@),
            }),
    {
        let n = s.unicode_len();
        if n == 1 {
            let c0 = lower_char_exec(s.get_char(0));
            if c0 == 's' {
                return Ok(SimTimeUnit::S);
            }
        } else if n == 2 {
            let c0 = lower_char_exec(s.get_char(0));
            let c1 = lower_char_exec(s.get_char(1));
            if c1 == 's' {
                if c0 == 'm' {
                    return Ok(SimTimeUnit::Ms);
                } else if c0 == 'u' {
                    return Ok(SimTimeUnit::Us);
                } else if c0 == 'n' {
                    return Ok(SimTimeUnit::Ns);
                } else if c0 == 'p' {
                    return Ok(SimTimeUnit::Ps);
                } else if c0 == 'f' {
                    return Ok(SimTimeUnit::Fs);
                }
            }
        }
        Err(Error::InvalidTime(s.to_owned()))
    }

    /// Femtoseconds per unit, as a machine word.
    pub fn to_multiplier(&self) -> (r: u64)
        ensures
            r == unit_multiplier(*self),
    {
        match self {
            SimTimeUnit::S => 1_000_000_000_000_000,
            SimTimeUnit::Ms => 1_000_000_000_000,
            SimTimeUnit::Us => 1_000_000_000,
            SimTimeUnit::Ns => 1_000_000,
            SimTimeUnit::Ps => 1_000,
            SimTimeUnit::Fs => 1,
        }
    }
}

fn lower_char_exec(c: char) -> (r: char)
    ensures
        r == lower_char(c),
{
    let u = c as u32;
    if 65 <= u && u <= 90 {
        let b = c as u8;
        (b + 32) as char
    } else {
        c
    }
}

/// A fixed-point timestamp: an integer magnitude in a physical unit.
#[derive(Debug, Clone, Copy, PartialEq, Eq, Structural)]
pub struct SimTime {
    pub value: u64,
    pub unit: SimTimeUnit,
}

impl SimTime {
    /// The timestamp measured in femtoseconds.
    pub open spec fn fs(self) -> nat {
        (self.value * unit_multiplier(self.unit)) as nat
    }

    /// The timestamp scaled by an integer factor, keeping the unit.
    pub open spec fn spec_scale(self, n: u64) -> SimTime {
        SimTime { value: (self.value * n) as u64, unit: self.unit }
    }

    pub fn new(v: u64, u: SimTimeUnit) -> (r: Self)
        ensures
            r == (SimTime { value: v, unit: u }),
    {
        Self { value: v, unit: u }
    }

    pub fn zero() -> (r: Self)
        ensures
            r == (SimTime { value: 0, unit: SimTimeUnit::S }),
            r.fs() == 0,
    {
        Self::new(0, SimTimeUnit::S)
    }

    pub fn from_s(v: u64) -> (r: Self)
        ensures
            r == (SimTime { value: v, unit: SimTimeUnit::S }),
    {
        Self::new(v, SimTimeUnit::S)
    }

    pub fn from_ms(v: u64) -> (r: Self)
        ensures
            r == (SimTime { value: v, unit: SimTimeUnit::Ms }),
    {
        Self::new(v, SimTimeUnit::Ms)
    }

    pub fn from_us(v: u64) -> (r: Self)
        ensures
            r == (SimTime { value: v, unit: SimTimeUnit::Us }),
    {
        Self::new(v, SimTimeUnit::Us)
    }

    pub fn from_ns(v: u64) -> (r: Self)
        ensures
            r == (SimTime { value: v, unit: SimTimeUnit::Ns }),
    {
        Self::new(v, SimTimeUnit::Ns)
    }

    pub fn from_ps(v: u64) -> (r: Self)
        ensures
            r == (SimTime { value: v, unit: SimTimeUnit::Ps }),
    {
        Self::new(v, SimTimeUnit::Ps)
    }

    pub fn from_fs(v: u64) -> (r: Self)
        ensures
            r == (SimTime { value: v, unit: SimTimeUnit::Fs }),
    {
        Self::new(v, SimTimeUnit::Fs)
    }

    pub fn get_value(&self) -> (r: u64)
        ensures
            r == self.value,
    {
        self.value
    }

    pub fn get_unit(&self) -> (r: SimTimeUnit)
        ensures
            r == self.unit,
    {
        self.unit
    }

    /// Multiplies the magnitude by `n`, keeping the unit. The caller must
    /// rule out overflow of the magnitude.
    pub fn scale(self, n: u64) -> (r: SimTime)
        requires
            self.value * n <= u64::MAX,
        ensures
            r == self.spec_scale(n),
            r.value == self.value * n,
            r.unit == self.unit,
    {
        SimTime { value: self.value * n, unit: self.unit }
    }

    /// Floored ratio of two timestamps, computed exactly: both operands are
    /// converted to femtoseconds in wide arithmetic, so the result equals
    /// the mathematically floored quotient even when the operands differ by
    /// many orders of magnitude.
    pub fn divide(self, rhs: SimTime) -> (r: u64)
        requires
            rhs.fs() > 0,
            self.fs() / rhs.fs() <= u64::MAX,
        ensures
            r == self.fs() / rhs.fs(),
    {
        proof {
            lemma_fs_in_u128(self);
            lemma_fs_in_u128(rhs);
        }
        let a: u128 = (self.value as u128) * (self.unit.to_multiplier() as u128);
        let b: u128 = (rhs.value as u128) * (rhs.unit.to_multiplier() as u128);
        let q: u128 = a / b;
        q as u64
    }
}

/// Magnitude times multiplier stays below 2^128: the magnitude is a 64-bit
/// word and the largest multiplier is 10^15.
pub proof fn lemma_fs_in_u128(t: SimTime)
    ensures
        t.fs() <= u64::MAX * 1_000_000_000_000_000,
        t.fs() < u128::MAX,
{
    vstd::arithmetic::mul::lemma_mul_upper_bound(
        t.value as int,
        u64::MAX as int,
        unit_multiplier(t.unit) as int,
        1_000_000_000_000_000,
    );
}

/// Scaling by one returns the operand unchanged, and scaling by zero
/// clears the magnitude.
pub proof fn lemma_scale_identity(t: SimTime)
    ensures
        t.spec_scale(1) == t,
        t.spec_scale(0).value == 0,
        t.spec_scale(0).unit == t.unit,
{
}

/// A positive timestamp divided by itself is one, and zero divided by any
/// positive timestamp is zero, whatever the units.
pub proof fn lemma_divide_self_and_zero(t: SimTime, z: SimTime)
    requires
        t.fs() > 0,
        z.fs() == 0,
    ensures
        t.fs() / t.fs() == 1,
        z.fs() / t.fs() == 0,
{
}

/// The floored ratio of two timestamps equals the floored ratio of their
/// exact femtosecond magnitudes: `divide` promises precisely this for every
/// pair of magnitudes and units, with a positive divisor, whenever the
/// quotient fits in a machine word.
pub proof fn lemma_divide_is_floored_ratio(m1: u64, u1: SimTimeUnit, m2: u64, u2: SimTimeUnit)
    requires
        m1 > 0,
        m2 > 0,
        (m1 * unit_multiplier(u1)) / (m2 * unit_multiplier(u2)) <= u64::MAX,
    ensures
        (SimTime { value: m1, unit: u1 }).fs() / (SimTime { value: m2, unit: u2 }).fs() == (m1
            * unit_multiplier(u1)) as int / (m2 * unit_multiplier(u2)) as int,
        (SimTime { value: m2, unit: u2 }).fs() > 0,
{
    vstd::arithmetic::mul::lemma_mul_strictly_positive(m2 as int, unit_multiplier(u2) as int);
}

/// An ordered pair of timestamps, read as the half-open interval
/// `[start, stop)`.
#[derive(Debug, Clone, Copy)]
pub struct SimTimeRange(pub SimTime, pub SimTime);

} // verus!
