//! How the pages of an inflated balloon are given back to the host.
//!
//! On Linux it is enough to advise the kernel that the memory is not needed. The Hypervisor
//! framework of macOS pins the pages of a guest: there the range is unmapped, mapped anew at once
//! and then advised.

use vstd::prelude::*;

use crate::platform::Platform;

verus! {

/// A step of releasing a range.
#[derive(Clone, Copy, Debug, PartialEq, Eq, Structural)]
pub enum ReleaseStep {
    /// Remove the hypervisor's mapping of the range.
    Unmap,
    /// Map the range again.
    Remap,
    /// Advise the kernel that the memory is not needed.
    Advise,
    /// Nothing is left to do; whether the range was released.
    Done(bool),
}

/// The steps of a release on `platform`, in order.
pub open spec fn release_steps(platform: Platform) -> Seq<ReleaseStep> {
    match platform {
        Platform::Linux => seq![ReleaseStep::Advise],
        Platform::MacOs => seq![ReleaseStep::Unmap, ReleaseStep::Remap, ReleaseStep::Advise],
    }
}

/// The step by which a release starts.
pub fn first_release_step(platform: Platform) -> (r: ReleaseStep)
    ensures
        r == release_steps(platform)[0],
{
    match platform {
        Platform::Linux => ReleaseStep::Advise,
        Platform::MacOs => ReleaseStep::Unmap,
    }
}

/// The step after `step`, which succeeded or did not.
pub fn next_release_step(step: ReleaseStep, succeeded: bool) -> (r: ReleaseStep)
    ensures
        r == release_step_after(step, succeeded),
{
    match step {
        ReleaseStep::Done(released) => ReleaseStep::Done(released),
        _ if !succeeded => ReleaseStep::Done(false),
        ReleaseStep::Unmap => ReleaseStep::Remap,
        ReleaseStep::Remap => ReleaseStep::Advise,
        ReleaseStep::Advise => ReleaseStep::Done(true),
    }
}

/// The step after `step`: the first that fails ends the release.
pub open spec fn release_step_after(step: ReleaseStep, succeeded: bool) -> ReleaseStep {
    if step is Done {
        step
    } else if !succeeded {
        ReleaseStep::Done(false)
    } else if step is Unmap {
        ReleaseStep::Remap
    } else if step is Remap {
        ReleaseStep::Advise
    } else {
        ReleaseStep::Done(true)
    }
}

/// The step that follows after the steps so far had the given `outcomes`.
pub open spec fn release_after(platform: Platform, outcomes: Seq<bool>) -> ReleaseStep
    decreases outcomes.len(),
{
    if outcomes.len() == 0 {
        release_steps(platform)[0]
    } else {
        release_step_after(release_after(platform, outcomes.drop_last()), outcomes.last())
    }
}

/// Every outcome that belongs to one of the first `count` steps was a success.
pub open spec fn all_succeeded(outcomes: Seq<bool>, count: int) -> bool {
    forall|i: int| 0 <= i < outcomes.len() && i < count ==> #[trigger] outcomes[i]
}

/// The steps of the platform come in their order as long as they succeed, the first failure ends
/// the release, and a range counts as released exactly if every step was done and succeeded.
pub proof fn released_iff_every_step_succeeded(platform: Platform, outcomes: Seq<bool>)
    ensures
        release_after(platform, outcomes) == if !all_succeeded(
            outcomes,
            release_steps(platform).len() as int,
        ) {
            ReleaseStep::Done(false)
        } else if outcomes.len() < release_steps(platform).len() {
            release_steps(platform)[outcomes.len() as int]
        } else {
            ReleaseStep::Done(true)
        },
    decreases outcomes.len(),
{
    if outcomes.len() > 0 {
        let before = outcomes.drop_last();
        let count = release_steps(platform).len() as int;
        released_iff_every_step_succeeded(platform, before);
        if all_succeeded(outcomes, count) {
            assert forall|i: int| 0 <= i < before.len() && i < count implies #[trigger] before[i] by {
                assert(outcomes[i]);
            }
            assert(outcomes.len() <= count ==> outcomes[outcomes.len() - 1]);
        } else {
            let i = choose|i: int| 0 <= i < outcomes.len() && i < count && !#[trigger] outcomes[i];
            if i < before.len() {
                assert(!before[i]);
            }
        }
    }
}

/// On Linux one piece of advice releases a range, and whether that succeeded is whether the range is
/// released. On macOS the range is unmapped, mapped again and then advised; each step comes only
/// after the one before it succeeded.
pub proof fn release_goes_as_the_platform_needs(outcomes: Seq<bool>)
    ensures
        release_after(Platform::Linux, outcomes) == if outcomes.len() == 0 {
            ReleaseStep::Advise
        } else {
            ReleaseStep::Done(outcomes[0])
        },
        release_after(Platform::MacOs, outcomes) == if outcomes.len() == 0 {
            ReleaseStep::Unmap
        } else if !outcomes[0] {
            ReleaseStep::Done(false)
        } else if outcomes.len() == 1 {
            ReleaseStep::Remap
        } else if !outcomes[1] {
            ReleaseStep::Done(false)
        } else if outcomes.len() == 2 {
            ReleaseStep::Advise
        } else {
            ReleaseStep::Done(outcomes[2])
        },
    decreases outcomes.len(),
{
    if outcomes.len() > 0 {
        release_goes_as_the_platform_needs(outcomes.drop_last());
    }
}

} // verus!
