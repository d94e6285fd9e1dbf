use vstd::prelude::*;

verus! {

/// The frame rate the game aims for.
#[derive(Debug, Clone, Copy, PartialEq, Eq, Structural)]
pub enum TargetFps {
    /// This many frames per second.
    Value(u32),
    /// As many frames as the machine manages.
    Unlimited,
}

} // verus!
