//! Themes exchanged with other tools.
use std::collections::HashMap;
use vstd::prelude::*;

verus! {

/// A theme in Berikai's exchange format: the colors of the window and of
/// the arranger, by name.
pub struct BerikaiTheme {
    pub window: HashMap<String, String>,
    pub arranger: HashMap<String, String>,
}

} // verus!
