//! The tooltip map that the exporter writes beside the recipes.
use vstd::prelude::*;
use std::collections::HashMap;

verus! {

pub struct TooltipMap {
    /// Map from minecraft internal name to a human readable one.
    pub map: HashMap<String, String>,
}

} // verus!
