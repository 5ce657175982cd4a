//! Input-gesture state carried between events by the driver: whether a drag
//! is in progress and where the pointer last was. The driver feeds completed
//! gestures into the engine as `toggle` calls.

use vstd::prelude::*;

verus! {

/// Pointer-gesture state between two input events.
pub struct Events {
    /// Whether the primary button is currently held down.
    pub is_dragging: bool,
    /// The last pointer position seen, in pixels.
    pub last_mouse_pos: (i32, i32),
}

impl Events {
    /// The initial state: no drag in progress, pointer at the origin.
    pub fn new() -> (r: Events)
        ensures
            r.is_dragging == false,
            r.last_mouse_pos == (0i32, 0i32),
    {
        Events { is_dragging: false, last_mouse_pos: (0, 0) }
    }
}

} // verus!
