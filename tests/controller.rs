use fractal_explorer::controller::{step, DragState, PointerEvent, ViewAction};

#[test]
fn press_starts_a_drag() {
    let (s, a) = step(DragState::Idle, PointerEvent::Down { x: 10, y: 20 });
    assert_eq!(s, DragState::Dragging { x: 10, y: 20 });
    assert_eq!(a, ViewAction::Nothing);
    assert!(!a.needs_redraw());
}

#[test]
fn move_while_dragging_pans_by_the_displacement() {
    let (s, a) = step(DragState::Dragging { x: 3, y: 4 }, PointerEvent::Move { x: 10, y: 1 });
    assert_eq!(s, DragState::Dragging { x: 10, y: 1 });
    assert_eq!(a, ViewAction::Pan { dx: 7, dy: -3 });
    assert!(a.needs_redraw());
}

#[test]
fn move_while_idle_does_nothing() {
    let (s, a) = step(DragState::Idle, PointerEvent::Move { x: 10, y: 1 });
    assert_eq!(s, DragState::Idle);
    assert_eq!(a, ViewAction::Nothing);
}

#[test]
fn release_ends_the_drag() {
    let (s, a) = step(DragState::Dragging { x: 1, y: 1 }, PointerEvent::Up);
    assert_eq!(s, DragState::Idle);
    assert_eq!(a, ViewAction::Nothing);
}

#[test]
fn wheel_zooms_at_the_pointer_and_keeps_the_drag() {
    let drag = DragState::Dragging { x: 5, y: 6 };
    let (s, a) = step(drag, PointerEvent::Scroll { zoom_out: true, x: 400, y: 300 });
    assert_eq!(s, drag);
    assert_eq!(a, ViewAction::Zoom { zoom_out: true, x: 400, y: 300 });
    assert!(a.needs_redraw());
}

#[test]
fn extreme_positions_do_not_overflow() {
    let (_, a) = step(
        DragState::Dragging { x: i64::MIN, y: i64::MAX },
        PointerEvent::Move { x: i64::MAX, y: i64::MIN },
    );
    assert_eq!(
        a,
        ViewAction::Pan {
            dx: i64::MAX as i128 - i64::MIN as i128,
            dy: i64::MIN as i128 - i64::MAX as i128,
        }
    );
}
