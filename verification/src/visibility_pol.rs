//! The polarisation products that the correlator puts out for each
//! baseline.

use vstd::prelude::*;

verus! {

/// One polarisation product.
#[derive(Debug, Clone)]
pub struct VisibilityPol {
    /// The polarisations of the two antennas: `XX`, `XY`, `YX` or `YY`.
    pub polarisation: String,
}

impl VisibilityPol {
    /// The four polarisation products, in the order in which the records
    /// hold them.
    pub fn populate_visibility_pols() -> (pols: Vec<VisibilityPol>)
        ensures
            pols@.len() == 4,
            pols@[0].polarisation@ == "XX"@,
            pols@[1].polarisation@ == "XY"@,
            pols@[2].polarisation@ == "YX"@,
            pols@[3].polarisation@ == "YY"@,
    {
        let mut pols: Vec<VisibilityPol> = Vec::new();
        pols.push(VisibilityPol { polarisation: "XX".to_owned() });
        pols.push(VisibilityPol { polarisation: "XY".to_owned() });
        pols.push(VisibilityPol { polarisation: "YX".to_owned() });
        pols.push(VisibilityPol { polarisation: "YY".to_owned() });
        pols
    }
}

} // verus!
