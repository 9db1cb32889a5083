//! The decisions of the GPU readback path: when the readback buffers have to
//! be rebuilt, what size they get, and which size change is applied.

use vstd::prelude::*;

verus! {

/// What the render world knows of its readback buffers: whether they must be
/// rebuilt, and the grid size they were built for.
#[derive(Clone, Copy, Debug, PartialEq, Eq, Structural)]
pub struct ReadbackState {
    pub needs_recreation: bool,
    pub current_size: u32,
}

/// The state after the uniforms are uploaded: a rebuild is due if one was due
/// already, if the uniforms changed this frame, or if their grid size is not
/// the one the buffers were built for.
pub open spec fn spec_note_uniforms(state: ReadbackState, uniforms_changed: bool, size: u32) -> ReadbackState {
    ReadbackState {
        needs_recreation: state.needs_recreation || uniforms_changed || size != state.current_size,
        current_size: state.current_size,
    }
}

/// The state after the rebuild step: rebuilt for `size` when a rebuild was
/// due, unchanged otherwise.
pub open spec fn spec_recreate(state: ReadbackState, size: u32) -> ReadbackState {
    if state.needs_recreation {
        ReadbackState { needs_recreation: false, current_size: size }
    } else {
        state
    }
}

/// The state after the uniforms are uploaded (see `spec_note_uniforms`).
pub fn note_uniforms(state: ReadbackState, uniforms_changed: bool, size: u32) -> (r: ReadbackState)
    ensures
        r == spec_note_uniforms(state, uniforms_changed, size),
        state.needs_recreation ==> r.needs_recreation,
        uniforms_changed ==> r.needs_recreation,
        size != state.current_size ==> r.needs_recreation,
        !state.needs_recreation && !uniforms_changed && size == state.current_size ==> r == state,
        r.current_size == state.current_size,
{
    if uniforms_changed || size != state.current_size {
        ReadbackState { needs_recreation: true, current_size: state.current_size }
    } else {
        state
    }
}

/// The rebuild step: when a rebuild is due, the buffers are rebuilt for a grid
/// of side `size` (with `size * size` cells, which is returned) and the flag is
/// cleared; otherwise nothing changes.
pub fn recreate(state: ReadbackState, size: u32) -> (r: (ReadbackState, Option<usize>))
    requires
        state.needs_recreation ==> size * size <= u32::MAX,
    ensures
        r.0 == spec_recreate(state, size),
        state.needs_recreation ==> r.1 == Some((size * size) as usize),
        !state.needs_recreation ==> r.1 is None,
        state.needs_recreation ==> !r.0.needs_recreation && r.0.current_size == size,
        !state.needs_recreation ==> r.0 == state,
{
    if state.needs_recreation {
        let cells = (size * size) as usize;
        (ReadbackState { needs_recreation: false, current_size: size }, Some(cells))
    } else {
        (state, None)
    }
}

/// Once the uniforms are noted and the rebuild step has run, the buffers fit
/// the uniforms' grid size and no rebuild is pending.
pub proof fn law_buffers_follow_size(state: ReadbackState, changed: bool, size: u32)
    ensures
        spec_recreate(spec_note_uniforms(state, changed, size), size).current_size == size,
        !spec_recreate(spec_note_uniforms(state, changed, size), size).needs_recreation,
{
}

/// Without a change, noting the uniforms and the rebuild step leave a settled
/// state as it is: nothing is rebuilt twice.
pub proof fn law_settled_state_is_stable(state: ReadbackState)
    requires
        !state.needs_recreation,
    ensures
        spec_recreate(spec_note_uniforms(state, false, state.current_size), state.current_size)
            == state,
        !spec_note_uniforms(state, false, state.current_size).needs_recreation,
{
}

/// The value in force after a frame's events: the last event's, or `current`
/// if there were none.
pub fn latest<T: Copy>(current: T, events: &Vec<T>) -> (r: T)
    ensures
        events@.len() == 0 ==> r == current,
        events@.len() > 0 ==> r == events@.last(),
{
    let mut value = current;
    for i in 0..events.len()
        invariant
            i == 0 ==> value == current,
            i > 0 ==> value == events@[i - 1],
    {
        value = events[i];
    }
    value
}

/// Noting the uniforms only ever raises the rebuild flag: a rebuild already
/// due stays due, a change of the uniforms or of the grid size makes one due,
/// and with neither the state is left as it is. The size the buffers were
/// built for is never changed by it.
pub proof fn law_noting_never_clears_a_pending_rebuild(state: ReadbackState, changed: bool, size: u32)
    ensures
        state.needs_recreation ==> spec_note_uniforms(state, changed, size).needs_recreation,
        changed ==> spec_note_uniforms(state, changed, size).needs_recreation,
        size != state.current_size ==> spec_note_uniforms(state, changed, size).needs_recreation,
        !state.needs_recreation && !changed && size == state.current_size ==> spec_note_uniforms(
            state,
            changed,
            size,
        ) == state,
        spec_note_uniforms(state, changed, size).current_size == state.current_size,
        spec_note_uniforms(spec_note_uniforms(state, changed, size), false, state.current_size)
            == spec_note_uniforms(state, changed, size),
{
}

} // verus!
