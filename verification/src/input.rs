use vstd::prelude::*;

verus! {

/// The one discrete input event a simulation tick consumes. The host maps
/// raw key codes to these before each tick; `NoEvent` means no input.
#[derive(Clone, Copy, Debug, PartialEq, Eq, Structural)]
pub enum Event {
    NoEvent,
    Enter,
    Escape,
    LostFocus,
    SaveScoreOnQuit,
    Right,
    Left,
    Up,
    Down,
    Drop,
}

impl Default for Event {
    fn default() -> (r: Event)
        ensures
            r == Event::NoEvent,
    {
        Event::NoEvent
    }
}

} // verus!
