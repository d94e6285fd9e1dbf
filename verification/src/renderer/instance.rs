use vstd::prelude::*;

verus! {

/// What the surface answered when asked for the texture of the next frame.
#[derive(Clone, Copy, Debug, PartialEq, Eq, Structural)]
pub enum SurfaceStatus {
    /// A texture, ready to draw into.
    Success,
    /// A texture that can be drawn into, though the surface should be configured anew.
    Suboptimal,
    /// No texture in time.
    Timeout,
    /// The window is hidden.
    Occluded,
    /// A validation error occurred.
    Validation,
    /// The surface no longer matches the window and must be configured anew.
    Outdated,
    /// The device was lost.
    Lost,
}

/// What the renderer does with the answer.
#[derive(Clone, Copy, Debug, PartialEq, Eq, Structural)]
pub enum OutputPlan {
    /// Draw the frame into the texture, then configure the surface anew if asked to.
    Draw { reconfigure_after: bool },
    /// Skip this frame.
    Skip,
    /// Configure the surface anew and skip this frame.
    ReconfigureAndSkip,
}

pub open spec fn output_plan(status: SurfaceStatus) -> OutputPlan {
    match status {
        SurfaceStatus::Success => OutputPlan::Draw { reconfigure_after: false },
        SurfaceStatus::Suboptimal => OutputPlan::Draw { reconfigure_after: true },
        SurfaceStatus::Outdated => OutputPlan::ReconfigureAndSkip,
        _ => OutputPlan::Skip,
    }
}

/// Decides how a frame proceeds once the surface has answered; a lost device is not
/// recovered from, so it is left to the caller.
pub fn plan_output(status: SurfaceStatus) -> (plan: OutputPlan)
    requires
        status != SurfaceStatus::Lost,
    ensures
        plan == output_plan(status),
{
    match status {
        SurfaceStatus::Success => OutputPlan::Draw { reconfigure_after: false },
        SurfaceStatus::Suboptimal => OutputPlan::Draw { reconfigure_after: true },
        SurfaceStatus::Timeout | SurfaceStatus::Occluded | SurfaceStatus::Validation => {
            OutputPlan::Skip
        },
        SurfaceStatus::Outdated => OutputPlan::ReconfigureAndSkip,
        SurfaceStatus::Lost => OutputPlan::Skip,
    }
}

/// Which of the surface's formats to configure, given whether each is an sRGB format:
/// the first sRGB format, or else the first format.
pub fn surface_format_index(is_srgb: &[bool]) -> (i: usize)
    requires
        is_srgb@.len() > 0,
    ensures
        i < is_srgb@.len(),
        forall|j: int| 0 <= j < i ==> !is_srgb@[j],
        is_srgb@[i as int] || (i == 0 && forall|j: int| 0 <= j < is_srgb@.len() ==> !is_srgb@[j]),
{
    let mut k: usize = 0;
    while k < is_srgb.len()
        invariant
            k <= is_srgb@.len(),
            forall|j: int| 0 <= j < k ==> !is_srgb@[j],
        decreases is_srgb@.len() - k,
    {
        if is_srgb[k] {
            return k;
        }
        k = k + 1;
    }
    0
}

/// Whether the window may take a new size: the surface cannot be configured with a zero
/// width or height, so such a size is passed over.
pub fn accepts_size(width: u32, height: u32) -> (ok: bool)
    ensures
        ok == (width > 0 && height > 0),
{
    width > 0 && height > 0
}

} // verus!
