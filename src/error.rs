use vstd::prelude::*;

verus! {

/// Why a frame, or a cache operation within it, could not be completed.
#[derive(Debug, Clone, Copy, PartialEq, Eq, Structural)]
pub enum RenderError {
    /// No more image storage could be had.
    ResourceExhaustion,
    /// A component's geometry cannot be rasterized (a zero width or height).
    InvalidState,
    /// Two components of one scene share an identity.
    IdentityCollision,
}

} // verus!
