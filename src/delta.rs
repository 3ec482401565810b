//! Displacements between positions.
use vstd::prelude::*;

verus! {

/// A displacement in the coordinate space of an address: a change of radius
/// in micrometres and of latitude and longitude in millionths of a degree.
///
/// The fields are 128 bits wide, so the difference of any two 64-bit fields
/// fits.
#[derive(Debug, Clone, Copy, PartialEq, Eq, Structural)]
pub struct Delta {
    pub dr_um: i128,
    pub dlat: i128,
    pub dlon: i128,
}

impl Delta {
    /// Builds a displacement from its three components.
    pub fn new(dr_um: i128, dlat: i128, dlon: i128) -> (r: Self)
        ensures
            r == (Delta { dr_um, dlat, dlon }),
    {
        Delta { dr_um, dlat, dlon }
    }

    /// Multiplies each component by `factor`.
    pub fn scale(&self, factor: i128) -> (r: Self)
        requires
            i128::MIN <= self.dr_um * factor <= i128::MAX,
            i128::MIN <= self.dlat * factor <= i128::MAX,
            i128::MIN <= self.dlon * factor <= i128::MAX,
        ensures
            r.dr_um == self.dr_um * factor,
            r.dlat == self.dlat * factor,
            r.dlon == self.dlon * factor,
    {
        Delta { dr_um: self.dr_um * factor, dlat: self.dlat * factor, dlon: self.dlon * factor }
    }
}

} // verus!
