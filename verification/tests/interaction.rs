use rdom_charts::chart::interaction::{drag_step, key_action, wheel_zooms_in, ChartKey, DragEvent};

#[test]
fn keys_map_to_chart_actions() {
    assert_eq!(key_action("+"), Some(ChartKey::ZoomIn));
    assert_eq!(key_action("="), Some(ChartKey::ZoomIn));
    assert_eq!(key_action("-"), Some(ChartKey::ZoomOut));
    assert_eq!(key_action("h"), Some(ChartKey::PanLeft));
    assert_eq!(key_action("ArrowLeft"), Some(ChartKey::PanLeft));
    assert_eq!(key_action("l"), Some(ChartKey::PanRight));
    assert_eq!(key_action("ArrowRight"), Some(ChartKey::PanRight));
    assert_eq!(key_action("0"), Some(ChartKey::ResetLive));
}

#[test]
fn unhandled_key_requests_no_redraw() {
    for k in ["x", "", "ArrowUp", "++", "H", "Arrowleft", "ArrowRightX", "00"] {
        assert_eq!(key_action(k), None, "key {k:?}");
    }
}

#[test]
fn wheel_up_zooms_in() {
    assert!(wheel_zooms_in(-1));
    assert!(wheel_zooms_in(i32::MIN));
    assert!(!wheel_zooms_in(0));
    assert!(!wheel_zooms_in(3));
}

#[test]
fn drag_pans_by_column_deltas() {
    let (a, d) = drag_step(None, DragEvent::Move(5));
    assert_eq!((a, d), (None, None));
    let (a, d) = drag_step(a, DragEvent::Down(10));
    assert_eq!((a, d), (Some(10), None));
    let (a, d) = drag_step(a, DragEvent::Move(10));
    assert_eq!((a, d), (Some(10), None));
    let (a, d) = drag_step(a, DragEvent::Move(14));
    assert_eq!((a, d), (Some(14), Some(4)));
    let (a, d) = drag_step(a, DragEvent::Move(11));
    assert_eq!((a, d), (Some(11), Some(-3)));
    let (a, d) = drag_step(a, DragEvent::Up);
    assert_eq!((a, d), (None, None));
    let (_, d) = drag_step(Some(i32::MIN), DragEvent::Move(i32::MAX));
    assert_eq!(d, Some(i32::MAX as i64 - i32::MIN as i64));
}
