use rscalendar::commands::batch::{AnswerStep, BatchTally, EventStep};
use rscalendar::commands::check::{check_event, check_report, CheckOutcome, CheckTally};
use rscalendar::commands::properties::{issue_report, properties_check_summary, property_issues};
use rscalendar::helpers::YesNoQuit;
use rscalendar::models::{CalendarEvent, ExtendedProperties};
use rscalendar::props::{PropertyMap, StringListMap};
use rscalendar::text::decimal_text;

fn shared(pairs: &[(&str, &str)]) -> Option<ExtendedProperties> {
    let mut m = PropertyMap::new();
    for (k, v) in pairs {
        m.insert(k.to_string(), v.to_string());
    }
    Some(ExtendedProperties { shared: Some(m), private: None })
}

fn event_with(summary: &str, pairs: &[(&str, &str)]) -> CalendarEvent {
    CalendarEvent {
        id: Some("id".to_string()),
        summary: Some(summary.to_string()),
        description: None,
        location: None,
        status: None,
        html_link: None,
        start: None,
        end: None,
        extended_properties: shared(pairs),
    }
}

fn table(rows: &[(&str, &[&str])]) -> StringListMap {
    let mut t = StringListMap::new();
    for (k, vs) in rows {
        t.insert(k.to_string(), vs.iter().map(|v| v.to_string()).collect());
    }
    t
}

#[test]
fn decimal_numbers() {
    assert_eq!(decimal_text(0), "0");
    assert_eq!(decimal_text(7), "7");
    assert_eq!(decimal_text(10), "10");
    assert_eq!(decimal_text(2026), "2026");
    assert_eq!(decimal_text(u64::MAX), u64::MAX.to_string());
}

#[test]
fn check_prints_the_documented_report() {
    let rules = table(&[("teaching", &["client", "company", "course"])]);
    let workshop = event_with("Linux Workshop", &[("type", "teaching"), ("client", "Acme"), ("company", "Intel")]);
    let sync = event_with("Team Sync", &[]);
    let passed = event_with("Lesson", &[("type", "teaching"), ("client", "a"), ("company", "b"), ("course", "c")]);

    let mut tally = CheckTally::new();
    let mut lines: Vec<String> = Vec::new();
    for (e, start) in [
        (&workshop, "2026-04-01T09:00:00+03:00"),
        (&sync, "2026-04-02T14:00:00+03:00"),
        (&passed, "2026-04-03T09:00:00+03:00"),
    ] {
        let outcome = check_event(e, &rules);
        lines.extend(check_report(e.summary_or_default(), start, &outcome));
        tally.record(&outcome);
    }
    assert_eq!(
        lines,
        vec![
            "Linux Workshop (2026-04-01T09:00:00+03:00):",
            "  - missing required property 'course' (required for type 'teaching')",
            "Team Sync (2026-04-02T14:00:00+03:00):",
            "  - missing 'type' property",
        ]
    );
    assert_eq!(tally.issues, 2);
    assert_eq!(tally.events_with_issues, 2);
    assert_eq!(tally.summary_lines(10, false), vec!["", "2 issue(s) in 2 event(s) out of 10."]);
    tally.record_fix();
    assert_eq!(
        tally.summary_lines(10, true),
        vec!["", "2 issue(s) in 2 event(s) out of 10.", "1 event(s) fixed."]
    );
    assert_eq!(tally.quit_lines(), vec!["", "Quit. 1 event(s) fixed."]);
    assert_eq!(CheckTally::new().summary_lines(3, true), vec!["All 3 event(s) pass checks."]);
}

#[test]
fn unknown_type_is_reported() {
    let rules = table(&[("teaching", &["client"])]);
    let e = event_with("Party", &[("type", "party")]);
    let outcome = check_event(&e, &rules);
    assert!(matches!(outcome, CheckOutcome::UnknownType(_)));
    assert_eq!(
        check_report("Party", "2026-05-01", &outcome),
        vec!["Party (2026-05-01):", "  - unknown type 'party' (not in [check] config)"]
    );
}

#[test]
fn properties_check_prints_the_documented_report() {
    let properties = table(&[("company", &["AgileSparks", "Intel", "Google"]), ("course", &["Linux"])]);
    let meeting = event_with("Team Meeting", &[("company", "Intel")]);
    let workshop = event_with("Workshop", &[("company", "Foo"), ("course", "Linux")]);
    let meeting_issues = property_issues(&meeting, &properties);
    let workshop_issues = property_issues(&workshop, &properties);
    assert_eq!(
        issue_report("Team Meeting", "2026-04-01T10:00:00+03:00", &meeting_issues),
        vec!["Team Meeting (2026-04-01T10:00:00+03:00):", "  - missing property 'course'"]
    );
    assert_eq!(
        issue_report("Workshop", "2026-04-02T09:00:00+03:00", &workshop_issues),
        vec![
            "Workshop (2026-04-02T09:00:00+03:00):",
            "  - property 'company' has value 'Foo' which is not in allowed values: AgileSparks, Intel, Google",
        ]
    );
    assert!(issue_report("Clean", "x", &Vec::new()).is_empty());
    assert_eq!(properties_check_summary(2, 5), vec!["", "2 issue(s) found across 5 event(s)."]);
    assert_eq!(properties_check_summary(0, 5), vec!["All 5 event(s) have valid properties."]);
}

#[test]
fn batch_steps_and_counts() {
    let mut t = BatchTally::new();
    assert_eq!(t.step(false, true, false, true), EventStep::NoId);
    assert_eq!(t.skipped_no_id, 1);
    assert_eq!(t.step(false, true, false, false), EventStep::NoId);
    assert_eq!(t.skipped, 1);
    assert_eq!(t.step(true, false, false, true), EventStep::NothingToDo);
    assert_eq!(t.skipped, 2);
    assert_eq!(t.step(true, true, false, true), EventStep::Ask);
    assert_eq!(t.step(true, true, true, true), EventStep::Apply);
    assert_eq!(t.answer(YesNoQuit::Invalid), AnswerStep::AskAgain);
    assert_eq!(t.answer(YesNoQuit::No), AnswerStep::Skip);
    assert_eq!(t.skipped, 3);
    assert_eq!(t.answer(YesNoQuit::Yes), AnswerStep::Apply);
    assert_eq!(t.answer(YesNoQuit::Quit), AnswerStep::Quit);
    t.applied();
    t.applied();
    t.skip();
    assert_eq!(t.line("Done. ", "deleted"), "Done. 2 deleted, 4 skipped.");
    assert_eq!(t.line("Quit. ", "event(s) moved"), "Quit. 2 event(s) moved, 4 skipped.");
    assert_eq!(t.no_id_warning().as_deref(), Some("Warning: skipped 1 event(s) with no ID"));
    assert_eq!(BatchTally::new().no_id_warning(), None);
}

#[test]
fn edit_view_shows_known_then_unknown_properties() {
    let properties = table(&[("course", &["Linux"]), ("company", &["Intel"])]);
    let keys = rscalendar::commands::properties::sorted_property_keys(&properties);
    let mut e = event_with("Linux Workshop", &[("room", "B"), ("course", "Linux"), ("company", "Intel")]);
    e.location = Some("Haifa".to_string());
    let session = rscalendar::commands::properties::EditSession::new(e.shared_properties());
    assert_eq!(
        session.view_lines(&e, &keys, &properties),
        vec![
            "Linux Workshop",
            "start: unknown",
            "end:   unknown",
            "location: Haifa",
            "company: Intel",
            "course: Linux",
            "room: B (unknown)",
        ]
    );
    let bare = event_with("Empty", &[]);
    let s2 = rscalendar::commands::properties::EditSession::new(bare.shared_properties());
    assert_eq!(
        s2.view_lines(&bare, &keys, &properties),
        vec!["Empty", "start: unknown", "end:   unknown", "(no properties)"]
    );
}
