//! The lookup map that the exporter writes beside the recipes.
use vstd::prelude::*;
use std::collections::HashMap;

verus! {

pub struct LookupMap {
    /// Map from human readable name to a minecraft internal name.
    pub map: HashMap<String, String>,
}

} // verus!
