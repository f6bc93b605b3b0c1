//! Loaded models.
use vstd::prelude::*;

use crate::models::visual::VisualPrototype;

verus! {

/// A loaded model: its visual and the files next to it.
#[derive(Debug)]
pub struct OwnedSubModel {
    pub name: String,
    pub visual: VisualPrototype,
    pub geom_bytes: Vec<u8>,
    /// Splash file, which only parts of a hull have.
    pub splash_bytes: Option<Vec<u8>>,
}

} // verus!
