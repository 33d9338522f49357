use vstd::prelude::*;

verus! {

/// Whether the pointer is dragging the view, and from where.
#[derive(Clone, Copy, Debug, PartialEq, Eq, Structural)]
pub enum DragState {
    Idle,
    Dragging { x: i64, y: i64 },
}

/// A pointer event in canvas pixels.
#[derive(Clone, Copy, Debug, PartialEq, Eq, Structural)]
pub enum PointerEvent {
    Down { x: i64, y: i64 },
    Move { x: i64, y: i64 },
    Up,
    /// A wheel step at `(x, y)`; `zoom_out` tells its direction.
    Scroll { zoom_out: bool, x: i64, y: i64 },
}

/// What the viewport has to do in answer to an event.
#[derive(Clone, Copy, Debug, PartialEq, Eq, Structural)]
pub enum ViewAction {
    Nothing,
    /// Move the view so that the plane follows the pointer by `(dx, dy)` pixels.
    Pan { dx: i128, dy: i128 },
    /// Zoom out (or in) by one step, keeping the plane point under `(x, y)` fixed.
    Zoom { zoom_out: bool, x: i64, y: i64 },
}

impl ViewAction {
    /// Whether the action changes the viewport, and so asks for one redraw.
    pub fn needs_redraw(&self) -> (r: bool)
        ensures
            r == !(self is Nothing),
    {
        match self {
            ViewAction::Nothing => false,
            _ => true,
        }
    }
}

/// Takes the drag state and one pointer event to the next drag state and the
/// action on the viewport. A press starts a drag at the pointer; a move while
/// dragging pans by the pointer's displacement since the last recorded
/// position and records the new one; a move while idle does nothing; a release
/// ends the drag; a wheel step zooms at the pointer and leaves the drag as it is.
pub fn step(state: DragState, event: PointerEvent) -> (r: (DragState, ViewAction))
    ensures
        event matches PointerEvent::Down { x, y } ==> r == (
        DragState::Dragging { x, y },
        ViewAction::Nothing,
        ),
        event matches PointerEvent::Move { x, y } ==> (match state {
            DragState::Idle => r == (DragState::Idle, ViewAction::Nothing),
            DragState::Dragging { x: lx, y: ly } => r == (
            DragState::Dragging { x, y },
            ViewAction::Pan { dx: (x - lx) as i128, dy: (y - ly) as i128 },
            ),
        }),
        event is Up ==> r == (DragState::Idle, ViewAction::Nothing),
        event matches PointerEvent::Scroll { zoom_out, x, y } ==> r == (
        state,
        ViewAction::Zoom { zoom_out, x, y },
        ),
{
    match event {
        PointerEvent::Down { x, y } => (DragState::Dragging { x, y }, ViewAction::Nothing),
        PointerEvent::Move { x, y } => match state {
            DragState::Idle => (DragState::Idle, ViewAction::Nothing),
            DragState::Dragging { x: lx, y: ly } => {
                let dx = x as i128 - lx as i128;
                let dy = y as i128 - ly as i128;
                (DragState::Dragging { x, y }, ViewAction::Pan { dx, dy })
            },
        },
        PointerEvent::Up => (DragState::Idle, ViewAction::Nothing),
        PointerEvent::Scroll { zoom_out, x, y } => (state, ViewAction::Zoom { zoom_out, x, y }),
    }
}

} // verus!
