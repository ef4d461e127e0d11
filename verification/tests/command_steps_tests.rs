use rscalendar::client::{page_after, page_query, resolve_calendar_id, PageState};
use rscalendar::commands::calendar::{copy_payload, validate_tag, with_tag};
use rscalendar::commands::check::{check_event, fix_start, required_for, FixStart};
use rscalendar::commands::list::{filter_events, ListFilter};
use rscalendar::commands::properties::{add_issues, plan_delete, property_issues};
use rscalendar::commands::CommandError;
use rscalendar::config::Config;
use rscalendar::models::{CalendarEvent, CalendarListEntry, EventDateTime, ExtendedProperties};
use rscalendar::props::{PropertyMap, StringListMap};

fn pm(pairs: &[(&str, &str)]) -> PropertyMap {
    let mut m = PropertyMap::new();
    for (k, v) in pairs {
        m.insert(k.to_string(), v.to_string());
    }
    m
}

fn rules(rows: &[(&str, &[&str])]) -> StringListMap {
    let mut t = StringListMap::new();
    for (k, vs) in rows {
        t.insert(k.to_string(), vs.iter().map(|v| v.to_string()).collect());
    }
    t
}

fn ev(summary: &str, start: &str, shared: Option<PropertyMap>) -> CalendarEvent {
    CalendarEvent {
        id: Some("e1".to_string()),
        summary: Some(summary.to_string()),
        description: None,
        location: None,
        status: None,
        html_link: None,
        start: Some(EventDateTime { date_time: None, date: Some(start.to_string()) }),
        end: None,
        extended_properties: shared.map(|m| ExtendedProperties { shared: Some(m), private: None }),
    }
}

fn cal(id: &str, summary: &str) -> CalendarListEntry {
    CalendarListEntry {
        id: Some(id.to_string()),
        summary: Some(summary.to_string()),
        description: None,
        primary: None,
        access_role: None,
    }
}

#[test]
fn move_tags_come_in_pairs() {
    let k = Some("client".to_string());
    let v = Some("John".to_string());
    assert_eq!(validate_tag(&k, &v).unwrap(), Some(("client".to_string(), "John".to_string())));
    assert_eq!(validate_tag(&None, &None).unwrap(), None);
    let e = validate_tag(&k, &None).unwrap_err();
    assert!(matches!(e, CommandError::TagMismatch));
    assert_eq!(e.message(), "--property-key and --property-value must be used together");
}

#[test]
fn tagged_copy_keeps_the_event_properties() {
    let e = ev("Lesson", "2026-04-01", Some(pm(&[("type", "teaching")])));
    let c = with_tag(copy_payload(&e), "client", "John");
    let shared = c.extended_properties.as_ref().unwrap().shared.as_ref().unwrap();
    assert_eq!(shared.get("type").map(|v| v.as_str()), Some("teaching"));
    assert_eq!(shared.get("client").map(|v| v.as_str()), Some("John"));
    assert_eq!(c.summary, "Lesson");
    let bare = with_tag(copy_payload(&ev("Call", "2026-04-02", None)), "client", "John");
    assert_eq!(bare.extended_properties.unwrap().shared.unwrap().to_pairs(), vec![("client".to_string(), "John".to_string())]);
}

#[test]
fn fixes_start_by_the_finding() {
    let r = rules(&[("teaching", &["client", "course"])]);
    let props = rules(&[("type", &["teaching", "call"]), ("client", &["Acme"])]);
    let no_type = check_event(&ev("x", "2026-04-01", None), &r);
    assert!(matches!(fix_start(&no_type, &props), FixStart::ChooseType(v) if v == vec!["teaching", "call"]));
    assert!(matches!(fix_start(&no_type, &rules(&[("client", &["Acme"])])), FixStart::Nothing));
    let missing = check_event(&ev("x", "2026-04-01", Some(pm(&[("type", "teaching")]))), &r);
    match fix_start(&missing, &props) {
        FixStart::Confirm(choices) => {
            assert_eq!(choices, vec![("client".to_string(), vec!["Acme".to_string()])]);
        }
        other => panic!("expected a confirmed fix, got {other:?}"),
    }
    let unknown = check_event(&ev("x", "2026-04-01", Some(pm(&[("type", "party")]))), &r);
    assert!(matches!(fix_start(&unknown, &props), FixStart::Nothing));
    assert_eq!(required_for(&r, "teaching"), vec!["client", "course"]);
    assert!(required_for(&r, "party").is_empty());
}

#[test]
fn delete_plans_name_the_value() {
    let m = pm(&[("client", "Acme")]);
    assert_eq!(plan_delete(&m, "client").as_deref(), Some("Acme"));
    assert_eq!(plan_delete(&m, "course"), None);
}

#[test]
fn resolution_does_not_depend_on_list_order() {
    let a = vec![cal("1", "Work"), cal("2", "Teaching"), cal("3", "Home")];
    let b = vec![cal("3", "Home"), cal("1", "Work"), cal("2", "Teaching")];
    let c = Config::default();
    assert_eq!(resolve_calendar_id(&a, Some("Teaching"), &c).ok(), resolve_calendar_id(&b, Some("Teaching"), &c).ok());
    assert_eq!(resolve_calendar_id(&b, Some("Teaching"), &c).ok(), Some("2"));
    let dup_a = vec![cal("1", "Work"), cal("2", "Work")];
    let dup_b = vec![cal("2", "Work"), cal("1", "Work")];
    assert!(resolve_calendar_id(&dup_a, Some("Work"), &c).is_err());
    assert!(resolve_calendar_id(&dup_b, Some("Work"), &c).is_err());
}

#[test]
fn another_list_filter_keeps_no_more_events() {
    let events = vec![
        ev("Linux course", "2026-04-01", Some(pm(&[("client", "Acme")]))),
        ev("Python course", "2026-04-02", Some(pm(&[("client", "Intel")]))),
        ev("Lunch", "2026-04-03", None),
    ];
    let base = rscalendar::cli::ListArgs {
        calendar_name: None,
        starts_after: None,
        starts_before: None,
        search: Some("COURSE".to_string()),
        has_property: None,
        count: true,
        format: rscalendar::cli::ListFormat::Default,
    };
    let f1 = ListFilter::from_args(&base).unwrap();
    let n1 = filter_events(&events, &f1).len();
    let narrower = rscalendar::cli::ListArgs { has_property: Some("client=Acme".to_string()), ..base };
    let f2 = ListFilter::from_args(&narrower).unwrap();
    let n2 = filter_events(&events, &f2).len();
    assert_eq!((n1, n2), (2, 1));
    assert!(n2 <= n1);
}

#[test]
fn pages_follow_the_next_page_token() {
    let first = page_query(&PageState::First).unwrap();
    assert_eq!(
        first,
        vec![
            ("maxResults".to_string(), "2500".to_string()),
            ("singleEvents".to_string(), "true".to_string()),
            ("orderBy".to_string(), "startTime".to_string()),
        ]
    );
    let next = page_after(Some("tok"));
    assert!(matches!(&next, PageState::Next(t) if t == "tok"));
    assert_eq!(page_query(&next).unwrap()[3], ("pageToken".to_string(), "tok".to_string()));
    let done = page_after(None);
    assert!(matches!(done, PageState::Done));
    assert!(page_query(&done).is_none());
}

#[test]
fn properties_check_counts_issues() {
    let defined = rules(&[("company", &["Intel"]), ("course", &["Linux"])]);
    let issues = property_issues(&ev("x", "2026-04-01", Some(pm(&[("company", "Foo")]))), &defined);
    assert_eq!(issues.len(), 2);
    assert_eq!(add_issues(3, &issues), 5);
}
