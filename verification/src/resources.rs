//! Flags shared between the interface and the render world.

use vstd::prelude::*;

verus! {

/// Whether the shader parameters changed since they were last uploaded.
pub struct ParamsChanged(pub bool);

impl Default for ParamsChanged {
    /// A new flag is raised, so the parameters are uploaded at least once.
    fn default() -> (r: Self)
        ensures
            r.0,
    {
        ParamsChanged(true)
    }
}

} // verus!
