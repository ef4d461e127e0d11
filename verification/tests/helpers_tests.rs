use rscalendar::helpers::{build_event_patch_payload, parse_event_time};

#[test]
fn helpers_parses_rfc3339_time() {
    let event_time = parse_event_time("2026-03-24T12:30:00+02:00", false).unwrap();
    assert_eq!(
        event_time.date_time.as_deref(),
        Some("2026-03-24T12:30:00+02:00")
    );
    assert_eq!(event_time.date, None);
}

#[test]
fn helpers_adjusts_end_date_for_all_day_event() {
    let event_time = parse_event_time("2026-03-24", true).unwrap();
    assert_eq!(event_time.date_time, None);
    assert_eq!(event_time.date.as_deref(), Some("2026-03-25"));
}

#[test]
fn helpers_builds_sparse_patch_payload() {
    let payload = build_event_patch_payload(
        Some("New summary"),
        None,
        Some("2026-03-24"),
        None,
        Some("Office"),
    )
    .unwrap();

    assert_eq!(payload.summary.as_deref(), Some("New summary"));
    assert_eq!(payload.location.as_deref(), Some("Office"));
    assert_eq!(payload.end.as_ref().unwrap().date.as_deref(), Some("2026-03-25"));
    assert!(payload.start.is_none());
    assert!(payload.description.is_none());
}
