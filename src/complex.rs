//! Complex numbers in fixed point: a component of `COORD_ONE` is 1.0.
use vstd::prelude::*;

use crate::interpolation::{Interpolatable, Interpolation, Interpolator};

verus! {

/// The fixed-point unit of a coordinate: `2^54`.
pub const COORD_ONE: i64 = 0x40_0000_0000_0000;

/// A complex number with fixed-point components.
#[derive(Clone, Copy, Debug, PartialEq, Eq, Structural)]
pub struct Complex {
    pub re: i64,
    pub im: i64,
}

impl Complex {
    pub fn new(re: i64, im: i64) -> (r: Complex)
        ensures
            r.re == re,
            r.im == im,
    {
        Complex { re, im }
    }

    /// Zero.
    pub fn default() -> (r: Complex)
        ensures
            r.re == 0,
            r.im == 0,
    {
        Complex::new(0, 0)
    }
}

impl Interpolatable for Complex {
    open spec fn valid(&self) -> bool {
        true
    }

    /// Component-wise interpolation.
    open spec fn spec_interpolate(mode: Interpolation, r: int, a: Complex, b: Complex) -> Complex {
        Complex {
            re: mode.spec_scalar(r, a.re as int, b.re as int) as i64,
            im: mode.spec_scalar(r, a.im as int, b.im as int) as i64,
        }
    }

    fn interpolate(&self, interpolator: &Interpolator, other: &Complex) -> (r: Complex) {
        let re = interpolator.interpolate_scalar(self.re as i128, other.re as i128);
        let im = interpolator.interpolate_scalar(self.im as i128, other.im as i128);
        Complex::new(re as i64, im as i64)
    }

    proof fn lemma_full_ratio(mode: Interpolation, a: Complex, b: Complex) {
        crate::interpolation::lemma_scalar_full_ratio(mode, a.re as int, b.re as int);
        crate::interpolation::lemma_scalar_full_ratio(mode, a.im as int, b.im as int);
    }
}

} // verus!
