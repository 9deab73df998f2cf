use layer_ui::preview::{Preview, PREVIEW_INTERVAL_NS};

#[test]
fn previews_are_throttled_and_never_queue() {
    let mut p = Preview::new();
    assert_eq!(p.request_due(1_000, false), None, "hidden navigators request nothing");
    assert_eq!(p.request_due(1_000, true), Some(None));
    p.requested(true);
    assert_eq!(p.request_due(1_000 + PREVIEW_INTERVAL_NS, true), None, "one request in flight at a time");
    p.received(42);
    assert_eq!(p.request_due(1_000 + PREVIEW_INTERVAL_NS - 1, true), None);
    assert_eq!(p.request_due(1_000 + PREVIEW_INTERVAL_NS, true), Some(Some(42)));
    p.requested(false);
    assert_eq!(p.request_due(1_000 + 2 * PREVIEW_INTERVAL_NS - 1, true), None);
    assert_eq!(p.request_due(500, true), None, "time running backwards waits");
    p.requested(true);
    p.failed();
    assert_eq!(p.request_due(1_000 + 2 * PREVIEW_INTERVAL_NS, true), Some(Some(42)));
}
