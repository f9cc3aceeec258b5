//! The engineered addressing of an access point.

use vstd::prelude::*;

verus! {

/// The OSI address of an access point. A field is `None` where nothing was engineered.
#[derive(Clone, Debug)]
pub struct OsiAddress {
    /// The transport selector.
    pub t_sel: Option<Vec<u8>>,
    /// The session selector.
    pub s_sel: Option<Vec<u8>>,
    /// The presentation selector.
    pub p_sel: Option<Vec<u8>>,
    /// The application process title, as its arcs.
    pub ap_title: Option<Vec<u32>>,
    /// The application entity qualifier.
    pub ae_qualifier: Option<i64>,
}

} // verus!
