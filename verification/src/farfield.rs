//! Units of far-field intensity.

use vstd::prelude::*;

use crate::header::FluxKind;

verus! {

/// Unit of the binned intensity.
#[derive(Clone, Copy, Debug, PartialEq, Eq, Structural)]
pub enum IntensityUnit {
    /// W/sr (radiometric files).
    WattPerSteradian,
    /// cd (photometric files).
    Candela,
}

impl IntensityUnit {
    /// The unit of intensity binned from a flux kind: candela for luminous
    /// flux alone, W/sr otherwise (radiant flux is preferred when a file
    /// carries both).
    pub fn for_flux(kind: FluxKind) -> (r: Self)
        ensures
            r == (if kind == FluxKind::Photometric {
                IntensityUnit::Candela
            } else {
                IntensityUnit::WattPerSteradian
            }),
    {
        match kind {
            FluxKind::Photometric => IntensityUnit::Candela,
            _ => IntensityUnit::WattPerSteradian,
        }
    }
}

} // verus!
