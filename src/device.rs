use vstd::prelude::*;

verus! {

/// A command to the device input loop.
#[derive(Clone, Copy, Debug, PartialEq, Eq, Structural)]
pub enum StateChange {
    Enable,
    Disable,
    Stop,
}

/// The effect of an optional pending command on the loop's `enabled` flag:
/// the new flag, or `None` when the loop must stop.
pub fn apply_state_change(enabled: bool, change: Option<StateChange>) -> (r: Option<bool>)
    ensures
        r == (match change {
            None => Some(enabled),
            Some(StateChange::Enable) => Some(true),
            Some(StateChange::Disable) => Some(false),
            Some(StateChange::Stop) => None,
        }),
{
    match change {
        None => Some(enabled),
        Some(StateChange::Enable) => Some(true),
        Some(StateChange::Disable) => Some(false),
        Some(StateChange::Stop) => None,
    }
}

} // verus!
