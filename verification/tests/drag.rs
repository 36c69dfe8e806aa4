use dragshot::drag::{
    DragAction, DragSession, DragState, PointerEvent, RegionThrottle, DEFAULT_INTERVAL_MS,
};
use dragshot::geometry::{Point, Region};

fn pt(x: i32, y: i32) -> Point {
    Point::new(x, y)
}

#[test]
fn new_session_is_idle() {
    let s = DragSession::new(DEFAULT_INTERVAL_MS, 0);
    assert_eq!(s.state(), DragState::Idle);
    assert!(!s.is_dragging());
    assert_eq!(s.throttle().interval(), 16);
    assert_eq!(s.throttle().last_emit(), 0);
}

#[test]
fn press_starts_a_drag_at_its_point() {
    let mut s = DragSession::new(16, 0);
    assert_eq!(s.handle(PointerEvent::Press(pt(10, 20)), 5), DragAction::Nothing);
    assert_eq!(s.state(), DragState::Dragging(pt(10, 20)));
    assert!(s.is_dragging());
}

#[test]
fn press_during_a_drag_moves_the_anchor() {
    let mut s = DragSession::new(16, 0);
    s.handle(PointerEvent::Press(pt(10, 20)), 5);
    assert_eq!(s.handle(PointerEvent::Press(pt(1, 2)), 6), DragAction::Nothing);
    assert_eq!(s.state(), DragState::Dragging(pt(1, 2)));
}

#[test]
fn move_during_a_drag_updates_after_the_interval() {
    let mut s = DragSession::new(16, 0);
    s.handle(PointerEvent::Press(pt(100, 100)), 0);
    assert_eq!(s.handle(PointerEvent::Move(pt(110, 105)), 15), DragAction::Nothing);
    assert_eq!(
        s.handle(PointerEvent::Move(pt(120, 90)), 16),
        DragAction::Update(Region { x: 100, y: 90, width: 20, height: 10 })
    );
    assert_eq!(s.throttle().last_emit(), 16);
    assert_eq!(s.state(), DragState::Dragging(pt(100, 100)));
    assert_eq!(s.handle(PointerEvent::Move(pt(130, 90)), 31), DragAction::Nothing);
    assert_eq!(s.throttle().last_emit(), 16);
    assert_eq!(
        s.handle(PointerEvent::Move(pt(130, 90)), 32),
        DragAction::Update(Region { x: 100, y: 90, width: 30, height: 10 })
    );
}

#[test]
fn move_while_idle_is_ignored() {
    let mut s = DragSession::new(16, 0);
    assert_eq!(s.handle(PointerEvent::Move(pt(5, 5)), 1000), DragAction::Nothing);
    assert_eq!(s.state(), DragState::Idle);
    assert_eq!(s.throttle().last_emit(), 0);
}

#[test]
fn release_finishes_whatever_the_throttle_says() {
    let mut s = DragSession::new(16, 0);
    s.handle(PointerEvent::Press(pt(100, 100)), 100);
    assert!(matches!(s.handle(PointerEvent::Move(pt(200, 200)), 100), DragAction::Update(_)));
    // One millisecond after an update the throttle would drop a move.
    assert_eq!(s.handle(PointerEvent::Move(pt(250, 250)), 101), DragAction::Nothing);
    assert_eq!(
        s.handle(PointerEvent::Release(pt(300, 400)), 101),
        DragAction::Finish(Region { x: 100, y: 100, width: 200, height: 300 })
    );
    assert_eq!(s.state(), DragState::Idle);
    assert_eq!(s.throttle().last_emit(), 100);
}

#[test]
fn release_finishes_exactly_once() {
    let mut s = DragSession::new(16, 0);
    s.handle(PointerEvent::Press(pt(1, 1)), 10);
    let mut finishes = 0;
    for at in [20u64, 21, 22] {
        if let DragAction::Finish(_) = s.handle(PointerEvent::Release(pt(9, 9)), at) {
            finishes += 1;
        }
    }
    assert_eq!(finishes, 1);
}

#[test]
fn release_without_press_changes_nothing() {
    let mut s = DragSession::new(16, 7);
    assert_eq!(s.handle(PointerEvent::Release(pt(3, 4)), 500), DragAction::Nothing);
    assert_eq!(s.state(), DragState::Idle);
    assert_eq!(s.throttle().last_emit(), 7);
    assert_eq!(s.throttle().interval(), 16);
}

#[test]
fn other_events_are_ignored() {
    let mut s = DragSession::new(16, 0);
    assert_eq!(s.handle(PointerEvent::Other, 100), DragAction::Nothing);
    assert_eq!(s.state(), DragState::Idle);
    s.handle(PointerEvent::Press(pt(1, 1)), 100);
    assert_eq!(s.handle(PointerEvent::Other, 200), DragAction::Nothing);
    assert_eq!(s.state(), DragState::Dragging(pt(1, 1)));
    assert_eq!(s.throttle().last_emit(), 0);
}

#[test]
fn throttle_lets_through_after_a_full_interval_only() {
    let mut t = RegionThrottle::new(16, 1000);
    assert!(!t.offer(1000));
    assert!(!t.offer(1015));
    assert_eq!(t.last_emit(), 1000);
    assert!(t.offer(1016));
    assert_eq!(t.last_emit(), 1016);
    assert!(!t.offer(1016));
    assert!(t.offer(5000));
    assert_eq!(t.last_emit(), 5000);
}

#[test]
fn throttle_drops_when_the_clock_steps_back() {
    let mut t = RegionThrottle::new(16, 1000);
    assert!(!t.offer(10));
    assert_eq!(t.last_emit(), 1000);
}

#[test]
fn throttle_near_the_end_of_the_clock() {
    let mut t = RegionThrottle::new(u64::MAX, 1);
    assert!(!t.offer(u64::MAX - 1));
    assert!(!t.offer(u64::MAX));
    let mut t = RegionThrottle::new(u64::MAX, 0);
    assert!(t.offer(u64::MAX));
}

#[test]
fn throttle_with_zero_interval_lets_everything_through() {
    let mut t = RegionThrottle::new(0, 5);
    assert!(t.offer(5));
    assert!(t.offer(5));
    assert!(t.offer(6));
}

#[test]
fn throttle_bound_holds_for_a_fast_pointer() {
    // A move every millisecond for one second, at an interval of 16 ms.
    let mut s = DragSession::new(16, 0);
    s.handle(PointerEvent::Press(pt(0, 0)), 0);
    let first = 1000u64;
    let last = 2000u64;
    let mut updates = 0u64;
    for at in first..=last {
        if let DragAction::Update(_) = s.handle(PointerEvent::Move(pt(at as i32, 1)), at) {
            updates += 1;
        }
    }
    assert!(updates <= (last - first) / 16 + 1);
    assert_eq!(updates, 63);
}

#[test]
fn throttle_bound_is_reached_by_evenly_spaced_moves() {
    let mut s = DragSession::new(10, 0);
    s.handle(PointerEvent::Press(pt(0, 0)), 0);
    let mut updates = 0u64;
    for k in 0..=5u64 {
        if let DragAction::Update(_) = s.handle(PointerEvent::Move(pt(1, 1)), 100 + 10 * k) {
            updates += 1;
        }
    }
    // span 50, interval 10: at most 50 / 10 + 1 updates, and all six went through
    assert_eq!(updates, 6);
}

#[test]
fn updates_come_in_the_order_of_the_moves() {
    let mut s = DragSession::new(16, 0);
    s.handle(PointerEvent::Press(pt(0, 0)), 0);
    let mut widths = Vec::new();
    for k in 1..=10u64 {
        if let DragAction::Update(r) = s.handle(PointerEvent::Move(pt(k as i32, 1)), 16 * k) {
            widths.push(r.width);
        }
    }
    assert_eq!(widths, vec![1, 2, 3, 4, 5, 6, 7, 8, 9, 10]);
}
