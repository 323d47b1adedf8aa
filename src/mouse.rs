//! The pointer's button state, as the pointer reports it to receivers.
use vstd::prelude::*;
use std::collections::HashSet;
use vstd::std_specs::iter::IteratorSpec;

verus! {

broadcast use vstd::std_specs::hash::group_hash_axioms;

/// The evdev code of the left mouse button.
pub const BTN_LEFT: u32 = 0x110;

/// The evdev code of the right mouse button.
pub const BTN_RIGHT: u32 = 0x111;

/// The evdev code of the middle mouse button.
pub const BTN_MIDDLE: u32 = 0x112;

/// The actions that the left, middle and right buttons stand for.
#[derive(Clone, Copy, Debug, PartialEq, Eq, Structural)]
pub struct ButtonActions {
    pub select: bool,
    pub middle: bool,
    pub context: bool,
    pub grab: bool,
}

/// Which mouse buttons are down: every button code above 255 as a raw
/// event, and the left, middle and right buttons as actions.
pub struct MouseButtons {
    held: HashSet<u32>,
    actions: ButtonActions,
}

impl MouseButtons {
    /// The raw button codes held down.
    pub closed spec fn held(&self) -> Set<u32> {
        self.held@
    }

    pub closed spec fn spec_actions(&self) -> ButtonActions {
        self.actions
    }

    pub fn new() -> (b: Self)
        ensures
            b.held() == Set::<u32>::empty(),
            b.spec_actions() == (ButtonActions { select: false, middle: false, context: false, grab: false }),
    {
        MouseButtons {
            held: HashSet::new(),
            actions: ButtonActions { select: false, middle: false, context: false, grab: false },
        }
    }

    pub fn actions(&self) -> (a: ButtonActions)
        ensures
            a == self.spec_actions(),
    {
        self.actions
    }

    /// Records that `button` went down (`pressed`) or up.
    pub fn button(&mut self, button: u32, pressed: bool)
        ensures
            final(self).held() == (if button > 255 {
                if pressed {
                    old(self).held().insert(button)
                } else {
                    old(self).held().remove(button)
                }
            } else {
                old(self).held()
            }),
            final(self).spec_actions().select == (if button == BTN_LEFT {
                pressed
            } else {
                old(self).spec_actions().select
            }),
            final(self).spec_actions().middle == (if button == BTN_MIDDLE {
                pressed
            } else {
                old(self).spec_actions().middle
            }),
            final(self).spec_actions().context == (if button == BTN_RIGHT {
                pressed
            } else {
                old(self).spec_actions().context
            }),
            final(self).spec_actions().grab == (if button == BTN_RIGHT {
                pressed
            } else {
                old(self).spec_actions().grab
            }),
    {
        if button > 255 {
            if pressed {
                self.held.insert(button);
            } else {
                self.held.remove(&button);
            }
        }
        if button == BTN_LEFT {
            self.actions.select = pressed;
        } else if button == BTN_MIDDLE {
            self.actions.middle = pressed;
        } else if button == BTN_RIGHT {
            self.actions.context = pressed;
            self.actions.grab = pressed;
        }
    }

    /// The raw button codes held down, each once.
    pub fn held_buttons(&self) -> (v: Vec<u32>)
        ensures
            v@.to_set() == self.held(),
            v@.no_duplicates(),
    {
        let mut v: Vec<u32> = Vec::new();
        let ghost all = vstd::std_specs::hash::spec_hash_keys_iter(&self.held).remaining();
        for b in it: self.held.iter()
            invariant
                it.seq() == all,
                v@ == all.take(it.index() as int).unref(),
        {
            v.push(*b);
            assert(v@ =~= all.take(it.index() as int + 1).unref());
        }
        assert(v@ =~= all.unref());
        v
    }
}

} // verus!
