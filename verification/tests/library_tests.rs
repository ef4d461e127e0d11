use rscalendar::auth::{BrowserFlowDelegate, NoInteractionDelegate};
use rscalendar::cli::{ListArgs, ListFormat, PropertiesAddArgs};
use rscalendar::client::{
    calendar_acl_url, calendar_list_url, calendars_url, delete_property_patch, event_url,
    events_url, find_calendar_id, properties_with_deletes_patch, resolve_calendar_id,
    rename_patch, set_properties_patch, CalendarError,
};
use rscalendar::commands::calendar::copy_payload;
use rscalendar::commands::check::{check_event, check_rules, fix_choices, CheckOutcome};
use rscalendar::commands::list::{
    event_start_to_datetime, event_stat_key, filter_events, parse_filter_date,
    parse_has_property, property_cell, tally, truncate_cell, ListFilter, ListFilterError,
    StatKind,
};
use rscalendar::commands::properties::{
    edit_menu, keys_to_prompt, plan_rename, plan_set, plan_set_value, property_issues,
    sorted_property_keys, validate_add_args, EditAction, EditFlow, EditSession, PropertyIssue,
};
use rscalendar::commands::CommandError;
use rscalendar::config::{
    config_dir, config_path, credentials_path, join_path, token_cache_path, Config,
    ConfigWarning,
};
use rscalendar::dates::Instant;
use rscalendar::helpers::{
    build_event_insert_payload, interpret_select, interpret_yes_no, interpret_yes_no_quit,
    parse_event_time, SelectChoice, TimeFailure, YesNoQuit,
};
use rscalendar::models::{
    CalendarEvent, CalendarListEntry, EventDateTime, ExtendedProperties, JsonValue,
};
use rscalendar::props::{PropertyMap, StringListMap};
use rscalendar::text::{join_strings, sort_distinct_strings};

fn props(pairs: &[(&str, &str)]) -> PropertyMap {
    let mut m = PropertyMap::new();
    for (k, v) in pairs {
        m.insert(k.to_string(), v.to_string());
    }
    m
}

fn table(rows: &[(&str, &[&str])]) -> StringListMap {
    let mut t = StringListMap::new();
    for (k, vs) in rows {
        t.insert(k.to_string(), vs.iter().map(|s| s.to_string()).collect());
    }
    t
}

fn event(summary: Option<&str>, start: Option<EventDateTime>, shared: Option<PropertyMap>) -> CalendarEvent {
    CalendarEvent {
        id: Some("ev1".to_string()),
        summary: summary.map(|s| s.to_string()),
        description: None,
        location: None,
        status: None,
        html_link: None,
        start,
        end: None,
        extended_properties: shared.map(|m| ExtendedProperties { shared: Some(m), private: None }),
    }
}

fn date(d: &str) -> EventDateTime {
    EventDateTime { date_time: None, date: Some(d.to_string()) }
}

fn date_time(t: &str) -> EventDateTime {
    EventDateTime { date_time: Some(t.to_string()), date: None }
}

fn calendar(id: Option<&str>, summary: &str) -> CalendarListEntry {
    CalendarListEntry {
        id: id.map(|s| s.to_string()),
        summary: Some(summary.to_string()),
        description: None,
        primary: None,
        access_role: None,
    }
}

fn config_with(name: Option<&str>) -> Config {
    let mut c = Config::default();
    c.calendar_name = name.map(|s| s.to_string());
    c
}

// --- parse_event_time and payloads ---

#[test]
fn all_day_start_date_is_kept() {
    let t = parse_event_time("2026-04-10", false).unwrap();
    assert_eq!(t.date.as_deref(), Some("2026-04-10"));
    assert_eq!(t.date_time, None);
}

#[test]
fn all_day_end_rolls_over_month_year_and_leap_day() {
    assert_eq!(parse_event_time("2026-01-31", true).unwrap().date.as_deref(), Some("2026-02-01"));
    assert_eq!(parse_event_time("2026-12-31", true).unwrap().date.as_deref(), Some("2027-01-01"));
    assert_eq!(parse_event_time("2024-02-28", true).unwrap().date.as_deref(), Some("2024-02-29"));
    assert_eq!(parse_event_time("2023-02-28", true).unwrap().date.as_deref(), Some("2023-03-01"));
    assert_eq!(parse_event_time("2026-04-12", true).unwrap().date.as_deref(), Some("2026-04-13"));
}

#[test]
fn rfc3339_is_written_back_by_chrono() {
    let t = parse_event_time("2026-03-24T10:00:00Z", true).unwrap();
    assert_eq!(t.date_time.as_deref(), Some("2026-03-24T10:00:00+00:00"));
    assert_eq!(t.date, None);
}

#[test]
fn unparsable_time_is_reported() {
    let e = parse_event_time("next tuesday", false).unwrap_err();
    assert_eq!(e.kind, TimeFailure::Unparsable);
    assert_eq!(e.message(), "failed to parse 'next tuesday' as RFC3339 or YYYY-MM-DD");
    assert_eq!(
        e.chain(),
        vec!["failed to parse 'next tuesday' as RFC3339 or YYYY-MM-DD", "input contains invalid characters"]
    );
    let e = parse_event_time("2026-02-30", false).unwrap_err();
    assert_eq!(e.kind, TimeFailure::Unparsable);
    assert_eq!(e.chain().len(), 2);
}

#[test]
fn last_representable_day_cannot_end_an_all_day_event() {
    let e = parse_event_time("+262142-12-31", true).unwrap_err();
    assert_eq!(e.kind, TimeFailure::DateOverflow);
    assert_eq!(e.message(), "date overflow while adjusting all-day event end date");
    let t = parse_event_time("+262142-12-31", false).unwrap();
    assert_eq!(t.date.as_deref(), Some("+262142-12-31"));
}

#[test]
fn insert_payload_reports_the_start_first() {
    let p = build_event_insert_payload("Vacation", "2026-04-10", "2026-04-12", None, Some("Home")).unwrap();
    assert_eq!(p.summary, "Vacation");
    assert_eq!(p.start.date.as_deref(), Some("2026-04-10"));
    assert_eq!(p.end.date.as_deref(), Some("2026-04-13"));
    assert_eq!(p.location.as_deref(), Some("Home"));
    assert!(p.description.is_none());
    let e = build_event_insert_payload("x", "bad start", "bad end", None, None).unwrap_err();
    assert_eq!(e.input, "bad start");
    let e = build_event_insert_payload("x", "2026-04-10", "bad end", None, None).unwrap_err();
    assert_eq!(e.input, "bad end");
}

#[test]
fn empty_patch_is_detected() {
    let p = build_event_patch_payload_none();
    assert!(p.is_empty());
}

fn build_event_patch_payload_none() -> rscalendar::helpers::EventPatch {
    rscalendar::helpers::build_event_patch_payload(None, None, None, None, None).unwrap()
}

// --- prompts ---

#[test]
fn yes_no_quit_answers() {
    assert_eq!(interpret_yes_no_quit(" YES \n"), YesNoQuit::Yes);
    assert_eq!(interpret_yes_no_quit("n"), YesNoQuit::No);
    assert_eq!(interpret_yes_no_quit("Quit"), YesNoQuit::Quit);
    assert_eq!(interpret_yes_no_quit("maybe"), YesNoQuit::Invalid);
    assert!(interpret_yes_no("y\n"));
    assert!(!interpret_yes_no("q"));
}

#[test]
fn select_answers() {
    assert_eq!(interpret_select("2\n", 3), SelectChoice::Chosen(1));
    assert_eq!(interpret_select("+1", 3), SelectChoice::Chosen(0));
    assert_eq!(interpret_select("4", 3), SelectChoice::Invalid);
    assert_eq!(interpret_select("0", 3), SelectChoice::Invalid);
    assert_eq!(interpret_select(" Skip ", 3), SelectChoice::Skip);
    assert_eq!(interpret_select("two", 3), SelectChoice::Invalid);
}

// --- property maps ---

#[test]
fn property_map_insert_get_remove() {
    let mut m = props(&[("type", "teaching"), ("client", "Acme")]);
    assert_eq!(m.len(), 2);
    assert_eq!(m.get("type").map(|s| s.as_str()), Some("teaching"));
    m.insert("type".to_string(), "call".to_string());
    assert_eq!(m.len(), 2);
    assert_eq!(m.get("type").map(|s| s.as_str()), Some("call"));
    assert_eq!(m.keys(), vec!["type".to_string(), "client".to_string()]);
    assert_eq!(m.remove("client"), Some("Acme".to_string()));
    assert_eq!(m.remove("client"), None);
    assert!(!m.contains_key("client"));
    assert_eq!(m.len(), 1);
}

// --- config ---

#[test]
fn config_defaults_and_paths() {
    let c = Config::default();
    assert!(!c.no_browser());
    assert!(c.use_browser(false));
    assert!(!c.use_browser(true));
    let mut c2 = Config::default();
    c2.no_browser = Some(true);
    assert!(c2.no_browser());
    assert!(!c2.use_browser(false));
    assert_eq!(join_path("", "a"), "a");
    assert_eq!(join_path("/home/u/", "a"), "/home/u/a");
    let dir = config_dir("/home/u");
    assert_eq!(dir, "/home/u/.config/rscalendar");
    assert_eq!(config_path(&dir), "/home/u/.config/rscalendar/config.toml");
    assert_eq!(credentials_path(&dir), "/home/u/.config/rscalendar/credentials.json");
    assert_eq!(token_cache_path(&dir), "/home/u/.config/rscalendar/token_cache.json");
}

#[test]
fn config_warnings_in_order() {
    let mut c = Config::default();
    c.properties = Some(table(&[("company", &["Intel"]), ("course", &[])]));
    c.check = Some(table(&[("teaching", &["client", "company", "course"])]));
    let ws: Vec<String> = c.validation_warnings().iter().map(|w| w.message()).collect();
    assert_eq!(
        ws,
        vec![
            "Warning: property 'course' in config.toml has an empty list of allowed values".to_string(),
            "Warning: [check] references property 'client' which is not defined in [properties]".to_string(),
        ]
    );
    let mut d = Config::default();
    d.check = Some(table(&[("call", &["client"])]));
    let ws = d.validation_warnings();
    assert_eq!(ws.len(), 1);
    assert!(matches!(&ws[0], ConfigWarning::UndefinedCheckKey(k) if k == "client"));
}

// --- calendars ---

#[test]
fn calendar_name_flag_wins_over_config() {
    let cals = vec![calendar(Some("id-a"), "Work"), calendar(Some("id-b"), "Teaching")];
    let config = config_with(Some("Teaching"));
    assert_eq!(resolve_calendar_id(&cals, Some("Work"), &config).ok(), Some("id-a"));
    assert_eq!(resolve_calendar_id(&cals, None, &config).ok(), Some("id-b"));
}

#[test]
fn calendar_resolution_errors() {
    let cals = vec![
        calendar(Some("id-a"), "Work"),
        calendar(None, "Work"),
        calendar(None, "Solo"),
    ];
    let none = Config::default();
    let e = resolve_calendar_id(&cals, None, &none).unwrap_err();
    assert!(matches!(e, CalendarError::NoCalendarName));
    assert_eq!(
        e.message(),
        "no calendar name specified; use --calendar-name or set calendar_name in config.toml"
    );
    let e = resolve_calendar_id(&cals, Some("Home"), &none).unwrap_err();
    assert_eq!(e.message(), "no calendar named 'Home' found");
    let e = resolve_calendar_id(&cals, Some("Work"), &none).unwrap_err();
    assert_eq!(
        e.message(),
        "multiple calendars named 'Work' found (IDs: id-a, <no id>); use a unique calendar name"
    );
    let e = resolve_calendar_id(&cals, Some("Solo"), &none).unwrap_err();
    assert_eq!(e.message(), "calendar has no id");
}

#[test]
fn first_calendar_with_a_name_is_found() {
    let cals = vec![calendar(Some("id-a"), "Work"), calendar(Some("id-b"), "Work")];
    assert_eq!(find_calendar_id(&cals, "Work").ok(), Some("id-a"));
    assert!(matches!(find_calendar_id(&cals, "Home"), Err(CalendarError::NotFound(_))));
    let cals = vec![calendar(None, "Work")];
    assert!(matches!(find_calendar_id(&cals, "Work"), Err(CalendarError::NoId)));
}

#[test]
fn urls_are_percent_encoded() {
    assert_eq!(calendars_url(), "https://www.googleapis.com/calendar/v3/calendars");
    assert_eq!(calendar_list_url(), "https://www.googleapis.com/calendar/v3/users/me/calendarList");
    assert_eq!(
        events_url("abc@group.calendar.google.com"),
        "https://www.googleapis.com/calendar/v3/calendars/abc%40group.calendar.google.com/events"
    );
    assert_eq!(
        event_url("primary", "a b/é"),
        "https://www.googleapis.com/calendar/v3/calendars/primary/events/a%20b%2F%C3%A9"
    );
    assert_eq!(
        calendar_acl_url("x~y_z.1-2"),
        "https://www.googleapis.com/calendar/v3/calendars/x~y_z.1-2/acl"
    );
}

// --- shared property patches ---

#[test]
fn patches_of_shared_properties() {
    let m = props(&[("a", "1"), ("b", "2")]);
    let p = set_properties_patch(&m);
    assert_eq!(
        p.entries,
        vec![("a".to_string(), Some("1".to_string())), ("b".to_string(), Some("2".to_string()))]
    );
    let d = delete_property_patch("client");
    assert_eq!(d.entries, vec![("client".to_string(), None)]);
    let w = properties_with_deletes_patch(&m, &vec!["c".to_string()]);
    assert_eq!(w.entries.len(), 3);
    assert_eq!(w.entries[0], ("c".to_string(), None));
    let both = properties_with_deletes_patch(&m, &vec!["a".to_string()]);
    assert_eq!(
        both.entries,
        vec![
            ("a".to_string(), None),
            ("a".to_string(), Some("1".to_string())),
            ("b".to_string(), Some("2".to_string())),
        ]
    );
    let r = rename_patch(&props(&[("client", "John")]), "source_calendar", "client");
    assert_eq!(
        r.entries,
        vec![("source_calendar".to_string(), None), ("client".to_string(), Some("John".to_string()))]
    );
    let same = rename_patch(&props(&[("client", "John")]), "client", "client");
    assert_eq!(same.entries, vec![("client".to_string(), Some("John".to_string()))]);
}

// --- check ---

#[test]
fn check_outcomes() {
    let rules = table(&[("teaching", &["client", "company", "course"]), ("call", &["client"])]);
    let e = event(Some("x"), None, None);
    assert!(matches!(check_event(&e, &rules), CheckOutcome::MissingType));
    let e = event(Some("x"), None, Some(props(&[("type", "party")])));
    let out = check_event(&e, &rules);
    assert!(matches!(&out, CheckOutcome::UnknownType(t) if t == "party"));
    assert_eq!(out.issue_count(), 1);
    let e = event(Some("x"), None, Some(props(&[("type", "teaching"), ("company", "Intel")])));
    let out = check_event(&e, &rules);
    match &out {
        CheckOutcome::MissingRequired { event_type, missing } => {
            assert_eq!(event_type, "teaching");
            assert_eq!(missing, &vec!["client".to_string(), "course".to_string()]);
        }
        _ => panic!("expected missing keys"),
    }
    assert_eq!(out.issue_count(), 2);
    let e = event(Some("x"), None, Some(props(&[("type", "call"), ("client", "Acme")])));
    assert!(matches!(check_event(&e, &rules), CheckOutcome::Passed));
}

#[test]
fn check_rules_need_config() {
    let c = Config::default();
    assert_eq!(check_rules(&c, false).err().map(|e| e.message()), Some("no [check] section in config.toml".to_string()));
    let mut c = Config::default();
    c.check = Some(StringListMap::new());
    assert!(matches!(check_rules(&c, false), Err(CommandError::NoCheckRules)));
    c.check = Some(table(&[("call", &["client"])]));
    assert!(matches!(check_rules(&c, true), Err(CommandError::FixNeedsProperties)));
    assert!(check_rules(&c, false).is_ok());
    let allowed = table(&[("client", &["Acme"])]);
    assert!(fix_choices(&props(&[]), "client", &allowed).is_some());
    assert!(fix_choices(&props(&[("client", "Acme")]), "client", &allowed).is_none());
    assert!(fix_choices(&props(&[]), "course", &allowed).is_none());
}

// --- properties ---

#[test]
fn add_arguments_are_validated() {
    let mut c = Config::default();
    let args = |k: Option<&str>, v: Option<&str>| PropertiesAddArgs {
        calendar_name: None,
        key: k.map(|s| s.to_string()),
        value: v.map(|s| s.to_string()),
        all: true,
    };
    assert!(matches!(validate_add_args(&args(Some("k"), None), &c), Err(CommandError::KeyValueMismatch)));
    assert!(matches!(validate_add_args(&args(None, None), &c), Err(CommandError::NoPropertiesSection)));
    c.properties = Some(StringListMap::new());
    assert!(matches!(validate_add_args(&args(None, None), &c), Err(CommandError::NoPropertiesDefined)));
    c.properties = Some(table(&[("company", &["Intel", "Google"])]));
    assert_eq!(
        validate_add_args(&args(Some("course"), Some("x")), &c).err().map(|e| e.message()),
        Some("key 'course' is not defined in [properties] in config.toml".to_string())
    );
    assert_eq!(
        validate_add_args(&args(Some("company"), Some("Foo")), &c).err().map(|e| e.message()),
        Some("value 'Foo' is not allowed for key 'company'. Allowed: Intel, Google".to_string())
    );
    assert!(validate_add_args(&args(Some("company"), Some("Intel")), &c).is_ok());
}

#[test]
fn property_plans() {
    let m = props(&[("source_calendar", "John"), ("type", "call")]);
    assert!(plan_set(&m, "type", "call").is_none());
    let s = plan_set(&m, "type", "teaching").unwrap();
    assert_eq!(s.get("type").map(|v| v.as_str()), Some("teaching"));
    assert!(plan_set(&s, "type", "teaching").is_none());
    let (v, r) = plan_rename(&m, "source_calendar", "client").unwrap();
    assert_eq!(v, "John");
    assert!(!r.contains_key("source_calendar"));
    assert_eq!(r.get("client").map(|v| v.as_str()), Some("John"));
    assert!(plan_rename(&m, "missing", "x").is_none());
    assert!(plan_set_value(&m, "type", "teaching", "x").is_none());
    let sv = plan_set_value(&m, "type", "call", "meeting").unwrap();
    assert_eq!(sv.get("type").map(|v| v.as_str()), Some("meeting"));
}

#[test]
fn sorted_keys_and_prompts() {
    let t = table(&[("course", &["a"]), ("client", &["b"]), ("company", &["c"])]);
    let keys = sorted_property_keys(&t);
    assert_eq!(keys, vec!["client".to_string(), "company".to_string(), "course".to_string()]);
    let existing = props(&[("company", "c")]);
    assert_eq!(keys_to_prompt(&existing, &keys), vec!["client".to_string(), "course".to_string()]);
    let v = vec!["b".to_string(), "a".to_string(), "é".to_string(), "B".to_string()];
    assert_eq!(sort_distinct_strings(&v), vec!["B".to_string(), "a".to_string(), "b".to_string(), "é".to_string()]);
    assert_eq!(join_strings(&v, "|"), "b|a|é|B");
}

#[test]
fn property_check_issues() {
    let t = table(&[("company", &["Intel", "Google"]), ("course", &["Linux"])]);
    let e = event(Some("x"), None, Some(props(&[("company", "Foo"), ("extra", "1")])));
    let msgs: Vec<String> = property_issues(&e, &t).iter().map(|i| i.message()).collect();
    assert_eq!(
        msgs,
        vec![
            "property 'company' has value 'Foo' which is not in allowed values: Intel, Google".to_string(),
            "missing property 'course'".to_string(),
            "unknown property 'extra'".to_string(),
        ]
    );
    let ok = event(Some("x"), None, Some(props(&[("company", "Intel"), ("course", "Linux")])));
    assert!(property_issues(&ok, &t).is_empty());
    let bare = event(Some("x"), None, None);
    assert!(matches!(&property_issues(&bare, &t)[0], PropertyIssue::Missing(k) if k == "company"));
}

#[test]
fn edit_session_and_menu() {
    let keys = vec!["client".to_string(), "company".to_string()];
    let current = props(&[("company", "Intel")]);
    let labels: Vec<String> = edit_menu(&keys, &current).iter().map(|a| a.label()).collect();
    assert_eq!(
        labels,
        vec!["add 'client'", "change 'company'", "delete 'company'", "next event", "quit"]
    );
    assert!(matches!(edit_menu(&keys, &current)[3], EditAction::NextEvent));
    let mut s = EditSession::new(current);
    assert!(s.save_patch().is_none());
    s.set_value("client".to_string(), "Acme".to_string());
    s.delete_key("company".to_string());
    assert!(!s.shows_no_properties());
    let p = s.save_patch().unwrap();
    assert_eq!(
        p.entries,
        vec![("company".to_string(), None), ("client".to_string(), Some("Acme".to_string()))]
    );
}

#[test]
fn edit_session_re_added_key_is_saved() {
    let mut s = EditSession::new(props(&[("company", "Intel")]));
    s.delete_key("company".to_string());
    s.set_value("company".to_string(), "Google".to_string());
    assert_eq!(s.current.get("company").map(|v| v.as_str()), Some("Google"));
    assert!(s.deleted_keys.is_empty());
    let p = s.save_patch().unwrap();
    assert_eq!(p.entries, vec![("company".to_string(), Some("Google".to_string()))]);
}

#[test]
fn edit_session_applies_menu_choices() {
    let mut s = EditSession::new(props(&[("company", "Intel")]));
    assert_eq!(s.apply(&EditAction::Add("course".to_string()), None), EditFlow::Stay);
    assert!(!s.changed);
    assert_eq!(s.apply(&EditAction::Add("course".to_string()), Some("Linux".to_string())), EditFlow::Stay);
    assert_eq!(s.apply(&EditAction::Delete("company".to_string()), None), EditFlow::Stay);
    assert_eq!(s.apply(&EditAction::NextEvent, None), EditFlow::Next);
    assert_eq!(s.apply(&EditAction::Quit, None), EditFlow::Quit);
    let p = s.save_patch().unwrap();
    assert_eq!(
        p.entries,
        vec![("company".to_string(), None), ("course".to_string(), Some("Linux".to_string()))]
    );
}

#[test]
fn property_map_keeps_first_insertion_order() {
    let mut m = props(&[("b", "1"), ("a", "2")]);
    m.insert("b".to_string(), "3".to_string());
    m.insert("c".to_string(), "4".to_string());
    assert_eq!(m.keys(), vec!["b".to_string(), "a".to_string(), "c".to_string()]);
    assert_eq!(m.get("b").map(|v| v.as_str()), Some("3"));
}

// --- list ---

#[test]
fn filter_dates_and_event_starts() {
    let a = parse_filter_date("2026-03-24").unwrap();
    assert_eq!(a, Instant { seconds: 1774310400, nanos: 0 });
    let b = parse_filter_date("2026-03-24T02:00:00+02:00").unwrap();
    assert_eq!(b, a);
    assert_eq!(parse_filter_date("soon").unwrap_err().message(), "cannot parse 'soon' as RFC3339 or YYYY-MM-DD");
    assert_eq!(parse_filter_date("soon").unwrap_err().cause, "input contains invalid characters");
    assert_eq!(event_start_to_datetime(&date("2026-03-24")), Some(a));
    let both = EventDateTime { date_time: Some("bad".to_string()), date: Some("2026-03-24".to_string()) };
    assert_eq!(event_start_to_datetime(&both), Some(a));
    assert_eq!(event_start_to_datetime(&date("bad")), None);
}

#[test]
fn date_filters_count_days_from_the_epoch() {
    for (text, seconds) in [
        ("1970-01-01", 0i64),
        ("1969-12-31", -86400),
        ("0001-01-01", -62135596800),
        ("1900-03-01", -2203891200),
        ("2000-02-29", 951782400),
    ] {
        assert_eq!(parse_filter_date(text).unwrap(), Instant { seconds, nanos: 0 });
    }
}

#[test]
fn list_filters() {
    let args = ListArgs {
        calendar_name: None,
        starts_after: Some("2026-03-01".to_string()),
        starts_before: Some("2026-04-01".to_string()),
        search: Some("LINUX".to_string()),
        has_property: Some("type=teaching".to_string()),
        count: false,
        format: ListFormat::Default,
    };
    let f = ListFilter::from_args(&args).ok().unwrap();
    let events = vec![
        event(Some("Linux Workshop"), Some(date_time("2026-03-10T09:00:00+02:00")), Some(props(&[("type", "teaching")]))),
        event(Some("Linux Workshop"), Some(date("2026-04-01")), Some(props(&[("type", "teaching")]))),
        event(Some("Python"), Some(date("2026-03-10")), Some(props(&[("type", "teaching")]))),
        event(Some("linux call"), Some(date("2026-03-10")), Some(props(&[("type", "call")]))),
        event(Some("Linux, no start"), None, Some(props(&[("type", "teaching")]))),
    ];
    assert_eq!(filter_events(&events, &f), vec![0, 4]);
    let mut bad = args;
    bad.starts_before = Some("never".to_string());
    let e = ListFilter::from_args(&bad).err().unwrap();
    assert!(matches!(e, ListFilterError::StartsBefore(_)));
    assert_eq!(e.message(), "invalid --starts-before date");
    assert_eq!(
        e.chain(),
        vec![
            "invalid --starts-before date",
            "cannot parse 'never' as RFC3339 or YYYY-MM-DD",
            "input contains invalid characters",
        ]
    );
    assert_eq!(parse_has_property("a=b=c"), ("a".to_string(), Some("b=c".to_string())));
    assert_eq!(parse_has_property("client"), ("client".to_string(), None));
}

#[test]
fn table_cells() {
    assert_eq!(truncate_cell("short", 12), "short");
    assert_eq!(truncate_cell("2026-03-24T09:00:00+02:00", 12), "2026-03-2...");
    assert_eq!(truncate_cell("éééééééé", 11), "éééé...");
    let e = event(Some("x"), None, Some(props(&[("client", "Acme")])));
    assert_eq!(property_cell(&e, "client"), "Acme");
    assert_eq!(property_cell(&e, "type"), "");
}

#[test]
fn stats_counts() {
    let events = vec![
        event(Some("a"), Some(date("2026-03-10")), Some(props(&[("type", "teaching"), ("client", "Acme")]))),
        event(Some("b"), Some(date_time("2026-04-01T09:00:00Z")), Some(props(&[("type", "call")]))),
        event(Some("c"), Some(date("2026-03-11")), None),
        event(Some("d"), None, Some(props(&[("type", "call")]))),
    ];
    let rows = |t: &rscalendar::commands::list::CountTable| -> Vec<(String, u32)> {
        (0..t.len()).map(|i| { let (k, c) = t.row(i); (k.clone(), c) }).collect()
    };
    assert_eq!(
        rows(&tally(&events, StatKind::Type)),
        vec![("(no type)".to_string(), 1), ("call".to_string(), 2), ("teaching".to_string(), 1)]
    );
    assert_eq!(
        rows(&tally(&events, StatKind::Client)),
        vec![("(no client)".to_string(), 3), ("Acme".to_string(), 1)]
    );
    assert_eq!(
        rows(&tally(&events, StatKind::Month)),
        vec![("2026-03".to_string(), 2), ("2026-04".to_string(), 1)]
    );
    assert_eq!(event_stat_key(StatKind::Month, &events[3]), None);
}

// --- output, copies and delegates ---

#[test]
fn event_output() {
    let mut e = event(None, Some(date("2026-03-24")), Some(props(&[("type", "call")])));
    e.location = Some("Room 1".to_string());
    let lines = rscalendar::models::print_event_lines(&e, true);
    assert_eq!(
        lines,
        vec![
            "<untitled>",
            "  id: ev1 (built-in)",
            "  start: 2026-03-24 (built-in)",
            "  end: unknown (built-in)",
            "  location: Room 1 (built-in)",
            "  ---",
            "  type: call",
            "",
        ]
    );
    let json = e.to_json();
    let names: Vec<&str> = json.iter().map(|f| f.name.as_str()).collect();
    assert_eq!(names, vec!["id", "start", "location", "properties"]);
    assert!(matches!(&json[1].value, JsonValue::Text(t) if t == "2026-03-24"));
    let mut cal = calendar(Some("c1"), "Work");
    cal.primary = Some(true);
    assert_eq!(cal.text_lines(), vec!["Work (primary)", "  id: c1", ""]);
    assert_eq!(cal.to_json().len(), 3);
    let both = EventDateTime { date_time: Some("t".to_string()), date: Some("d".to_string()) };
    assert_eq!(both.describe(), "unknown");
}

#[test]
fn copies_keep_the_event() {
    let mut e = event(None, Some(date("2026-03-24")), Some(props(&[("client", "Acme")])));
    e.description = Some("notes".to_string());
    let c = copy_payload(&e);
    assert_eq!(c.summary, "<untitled>");
    assert_eq!(c.start.unwrap().date.as_deref(), Some("2026-03-24"));
    assert!(c.end.is_none());
    assert_eq!(c.description.as_deref(), Some("notes"));
    let shared = c.extended_properties.unwrap().shared.unwrap();
    assert_eq!(shared.get("client").map(|s| s.as_str()), Some("Acme"));
}

#[test]
fn flow_delegates() {
    assert_eq!(
        NoInteractionDelegate.present_user_url("https://x", true),
        Err("Not authenticated. Run 'rscalendar auth' first.".to_string())
    );
    let out = BrowserFlowDelegate.present_user_url("https://x", false, Some("no display"));
    assert_eq!(
        out.warning.as_deref(),
        Some("Failed to open browser: no display. Please open this URL manually:\nhttps://x")
    );
    assert_eq!(out.answer, Ok(String::new()));
    assert!(BrowserFlowDelegate.present_user_url("u", false, None).warning.is_none());
}
