//! The fixed-layout numeric objects: reals and complex numbers.

use vstd::prelude::*;

use crate::nibbles::{nib_at, nibbles_wf, next_int, pow16, Cursor};
use crate::Error;

verus! {

/// A real number as stored: a 3-nibble exponent, a 12-nibble fixed-point
/// mantissa and a 1-nibble sign, in that order.
#[derive(Debug, Clone, Copy, PartialEq, Eq, Structural)]
pub struct Real {
    pub exponent: u16,
    pub mantissa: u64,
    pub sign: u8,
}

/// The real whose fields are stored at `pos`.
pub open spec fn real_at(a: Seq<u8>, pos: int) -> Real {
    Real {
        exponent: nib_at(a, pos, 3) as u16,
        mantissa: nib_at(a, pos + 3, 12) as u64,
        sign: nib_at(a, pos + 15, 1) as u8,
    }
}

/// Decode a real: 16 nibbles of direct fields, no surrounding length.
/// Fails with `OutOfData`, leaving the cursor unchanged, exactly when fewer
/// than 16 nibbles remain.
pub fn next_real(a: &[u8], c: &mut Cursor) -> (r: Result<Real, Error>)
    requires
        old(c).wf(a@),
        nibbles_wf(a@),
    ensures
        final(c).end == old(c).end,
        final(c).wf(a@),
        match r {
            Ok(v) => {
                &&& old(c).rem() >= 16
                &&& final(c).pos == old(c).pos + 16
                &&& v == real_at(a@, old(c).pos as int)
            },
            Err(e) => {
                &&& e == Error::OutOfData
                &&& old(c).rem() < 16
                &&& final(c).pos == old(c).pos
            },
        },
{
    if c.end - c.pos < 16 {
        return Err(Error::OutOfData);
    }
    let mut t = *c;
    let exp = match next_int(a, &mut t, 3) {
        Ok(v) => v,
        Err(e) => {
            return Err(e);
        },
    };
    let mantissa = match next_int(a, &mut t, 12) {
        Ok(v) => v,
        Err(e) => {
            return Err(e);
        },
    };
    let sign = match next_int(a, &mut t, 1) {
        Ok(v) => v,
        Err(e) => {
            return Err(e);
        },
    };
    proof {
        reveal_with_fuel(pow16, 4);
    }
    let r = Real { exponent: exp as u16, mantissa, sign: sign as u8 };
    c.pos = t.pos;
    Ok(r)
}

/// A complex number: a real part followed by an imaginary part.
#[derive(Debug, Clone, Copy, PartialEq, Eq, Structural)]
pub struct Complex {
    pub real: Real,
    pub imag: Real,
}

/// The complex number whose two reals are stored at `pos`.
pub open spec fn complex_at(a: Seq<u8>, pos: int) -> Complex {
    Complex { real: real_at(a, pos), imag: real_at(a, pos + 16) }
}

/// Decode a complex number: two consecutive reals, 32 nibbles in all.
/// Fails with `OutOfData`, leaving the cursor unchanged, exactly when fewer
/// than 32 nibbles remain.
pub fn next_complex(a: &[u8], c: &mut Cursor) -> (r: Result<Complex, Error>)
    requires
        old(c).wf(a@),
        nibbles_wf(a@),
    ensures
        final(c).end == old(c).end,
        final(c).wf(a@),
        match r {
            Ok(v) => {
                &&& old(c).rem() >= 32
                &&& final(c).pos == old(c).pos + 32
                &&& v == complex_at(a@, old(c).pos as int)
            },
            Err(e) => {
                &&& e == Error::OutOfData
                &&& old(c).rem() < 32
                &&& final(c).pos == old(c).pos
            },
        },
{
    if c.end - c.pos < 32 {
        return Err(Error::OutOfData);
    }
    let mut t = *c;
    let re = match next_real(a, &mut t) {
        Ok(v) => v,
        Err(e) => {
            return Err(e);
        },
    };
    let im = match next_real(a, &mut t) {
        Ok(v) => v,
        Err(e) => {
            return Err(e);
        },
    };
    c.pos = t.pos;
    Ok(Complex { real: re, imag: im })
}

} // verus!
