//! Output resolution and supersampling mode.
use vstd::prelude::*;

verus! {

#[derive(Clone, Copy, Debug)]
pub struct RenderingSettings {
    pub resolution: Resolution,
    pub sampling: MultiSampling,
}

#[derive(Clone, Copy, Debug)]
pub struct Resolution {
    pub width: u32,
    pub height: u32,
}

/// Subsamples per pixel: one, two side by side, or a two-by-two grid.
#[derive(Clone, Copy, Debug, PartialEq, Eq, Structural)]
pub enum MultiSampling {
    NONE,
    X2,
    X4,
}

impl MultiSampling {
    pub open spec fn spec_samples_x(self) -> int {
        match self {
            MultiSampling::NONE => 1,
            _ => 2,
        }
    }

    pub open spec fn spec_samples_y(self) -> int {
        match self {
            MultiSampling::X4 => 2,
            _ => 1,
        }
    }

    /// Subsamples across a pixel.
    pub fn samples_x(&self) -> (r: u8)
        ensures
            r == self.spec_samples_x(),
    {
        match self {
            MultiSampling::NONE => 1,
            MultiSampling::X2 => 2,
            MultiSampling::X4 => 2,
        }
    }

    /// Subsamples down a pixel.
    pub fn samples_y(&self) -> (r: u8)
        ensures
            r == self.spec_samples_y(),
    {
        match self {
            MultiSampling::NONE => 1,
            MultiSampling::X2 => 1,
            MultiSampling::X4 => 2,
        }
    }
}

} // verus!
