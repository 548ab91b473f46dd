//! Frame stepping of sprite animations: which frame comes after the
//! current one, and when a non-looping animation has finished.
use vstd::prelude::*;

verus! {

/// The frame shown after one more frame time has elapsed, and whether the
/// animation still plays: the next frame; past the last frame, the first
/// one again when looping, else the last frame held with playback stopped.
pub open spec fn next_frame(frame_index: nat, frame_count: nat, looping: bool) -> (nat, bool) {
    if frame_index + 1 < frame_count {
        ((frame_index + 1) as nat, true)
    } else if looping {
        (0, true)
    } else {
        ((frame_count - 1) as nat, false)
    }
}

/// A non-looping animation has finished once it shows its last frame.
pub open spec fn finished(frame_index: nat, frame_count: nat, looping: bool) -> bool {
    !looping && frame_index + 1 >= frame_count
}

/// Step an animation of `frame_count` frames forward by one frame.
/// Returns the new frame index and whether playback continues.
pub fn advance_frame(frame_index: usize, frame_count: usize, looping: bool) -> (r: (usize, bool))
    requires
        frame_count > 0,
        frame_index < usize::MAX,
    ensures
        (r.0 as nat, r.1) == next_frame(frame_index as nat, frame_count as nat, looping),
        frame_index + 1 < frame_count ==> r.0 == frame_index + 1 && r.1,
        frame_index + 1 >= frame_count && looping ==> r == (0usize, true),
        frame_index + 1 >= frame_count && !looping ==> r == ((frame_count - 1) as usize, false),
{
    let next = frame_index + 1;
    if next < frame_count {
        (next, true)
    } else if looping {
        (0, true)
    } else {
        (frame_count - 1, false)
    }
}

/// Whether a non-looping animation of `frame_count` frames showing
/// `frame_index` has finished.
pub fn is_finished(frame_index: usize, frame_count: usize, looping: bool) -> (r: bool)
    ensures
        r == finished(frame_index as nat, frame_count as nat, looping),
{
    !looping && frame_index >= frame_count.saturating_sub(1)
}

/// Stepping never leaves the animation's frames; a looping animation keeps
/// playing; a non-looping one stops exactly when the step would pass its
/// last frame, and then it has finished.
pub proof fn lemma_next_frame(frame_index: nat, frame_count: nat, looping: bool)
    requires
        frame_count > 0,
    ensures
        frame_index + 1 < frame_count ==> next_frame(frame_index, frame_count, looping) == (
            (frame_index + 1) as nat,
            true,
        ),
        next_frame(frame_index, frame_count, looping).0 < frame_count,
        looping ==> next_frame(frame_index, frame_count, looping).1,
        !looping ==> (next_frame(frame_index, frame_count, looping).1 <==> frame_index + 1
            < frame_count),
        !next_frame(frame_index, frame_count, looping).1 ==> finished(
            next_frame(frame_index, frame_count, looping).0,
            frame_count,
            looping,
        ),
{
}

/// A looping animation of `n` frames comes back to its first frame after
/// `n` steps from the first frame.
pub proof fn lemma_loop_returns_to_first(frame_count: nat, steps: nat)
    requires
        frame_count > 0,
        steps < frame_count,
    ensures
        frame_index_after(steps, frame_count) == steps,
        frame_index_after(frame_count, frame_count) == 0,
    decreases steps,
{
    if steps > 0 {
        lemma_loop_returns_to_first(frame_count, (steps - 1) as nat);
    }
    lemma_steps_from_first(frame_count, frame_count);
}

/// Frame shown by a looping animation after `steps` steps from the first frame.
pub open spec fn frame_index_after(steps: nat, frame_count: nat) -> nat
    decreases steps,
{
    if steps == 0 {
        0
    } else {
        next_frame(frame_index_after((steps - 1) as nat, frame_count), frame_count, true).0
    }
}

proof fn lemma_steps_from_first(frame_count: nat, steps: nat)
    requires
        frame_count > 0,
        steps <= frame_count,
    ensures
        frame_index_after(steps, frame_count) == (if steps < frame_count { steps } else { 0 }),
    decreases steps,
{
    if steps > 0 {
        lemma_steps_from_first(frame_count, (steps - 1) as nat);
    }
}

} // verus!
