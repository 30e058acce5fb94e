//! Material identifiers and material validation errors.

use vstd::prelude::*;

verus! {

/// Compact identifier stored per voxel type to reference a material.
///
/// `MaterialId(0)` is reserved for the default material (neutral grey
/// dielectric). User-defined materials start at 1, up to 65 535.
#[derive(Clone, Copy, Debug, PartialEq, Eq, Structural, Hash)]
pub struct MaterialId(pub u16);

/// Errors returned during material validation.
#[derive(Clone, Copy, Debug, PartialEq, Eq, Structural)]
pub enum MaterialError {
    /// The material name must not be empty.
    EmptyName,
}

impl MaterialError {
    /// The message that describes the error.
    pub fn message(&self) -> (r: String)
        ensures
            r@ == "material name must not be empty"@,
    {
        let r = "material name must not be empty".to_owned();
        r
    }
}

} // verus!
