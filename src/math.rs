use vstd::prelude::*;

use crate::error::BloomError;

verus! {

/// ln 2 in units of 10^-18, rounded down.
pub const LN2_E18: u128 = 693147180559945309;

/// The unit of `LN2_E18`.
pub const E18: u128 = 1000000000000000000;

/// `(m / n) * ln 2` rounded to the nearest integer (halves up), with ln 2 taken to
/// eighteen decimals, then clamped to at least 1 and at most `u32::MAX`.
pub open spec fn probes_for(m: nat, n: nat) -> nat {
    let q = (2 * m * LN2_E18 + n * E18) / (2 * n * E18);
    if q < 1 {
        1
    } else if q > u32::MAX {
        u32::MAX as nat
    } else {
        q as nat
    }
}

/// Optimal probe count `k` for `m` bits and `n` expected items: `k = round((m / n) * ln 2)`,
/// at least 1. Zero `m` or `n` is rejected.
pub fn optimal_k(m: usize, n: usize) -> (r: Result<u32, BloomError>)
    ensures
        m == 0 || n == 0 <==> r is Err,
        r is Err ==> r == Err::<u32, BloomError>(BloomError::InvalidParameter),
        r matches Ok(k) ==> k as nat == probes_for(m as nat, n as nat) && k >= 1,
{
    if m == 0 || n == 0 {
        return Err(BloomError::InvalidParameter);
    }
    let mm = m as u128;
    let nn = n as u128;
    proof {
        assert(mm * LN2_E18 <= 0x1_0000_0000_0000_0000u128 * 0x1000_0000_0000_0000u128)
            by (nonlinear_arith)
            requires
                mm < 0x1_0000_0000_0000_0000u128,
        ;
        assert(nn * E18 <= 0x1_0000_0000_0000_0000u128 * 0x1000_0000_0000_0000u128)
            by (nonlinear_arith)
            requires
                nn < 0x1_0000_0000_0000_0000u128,
        ;
        assert(nn * E18 >= 1) by (nonlinear_arith)
            requires
                nn >= 1,
        ;
    }
    let num = 2 * (mm * LN2_E18) + nn * E18;
    let den = 2 * (nn * E18);
    let q = num / den;
    proof {
        assert(2 * (mm * LN2_E18) == 2 * mm * LN2_E18) by (nonlinear_arith);
        assert(2 * (nn * E18) == 2 * nn * E18) by (nonlinear_arith);
    }
    if q < 1 {
        Ok(1)
    } else if q > u32::MAX as u128 {
        Ok(u32::MAX)
    } else {
        Ok(q as u32)
    }
}

} // verus!
