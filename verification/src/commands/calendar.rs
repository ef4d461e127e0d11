use vstd::prelude::*;

use crate::commands::CommandError;
use crate::helpers::opt_time_view;
use crate::models::{clone_opt, opt_view, CalendarEvent, EventDateTime, ExtendedProperties};
use crate::props::PropertyMap;

verus! {

/// The body that copies an event into another calendar (`calendar copy`, `move-events`):
/// its summary (or `<untitled>`), start, end, description, location and extended
/// properties, each only when present.
#[derive(Debug)]
pub struct EventCopy {
    pub summary: String,
    pub start: Option<EventDateTime>,
    pub end: Option<EventDateTime>,
    pub description: Option<String>,
    pub location: Option<String>,
    pub extended_properties: Option<ExtendedProperties>,
}

/// The same optional property map, pair for pair.
pub open spec fn same_map(a: Option<crate::props::PropertyMap>, b: Option<crate::props::PropertyMap>) -> bool {
    match (a, b) {
        (Some(p), Some(q)) => p.pairs() == q.pairs(),
        (None, None) => true,
        _ => false,
    }
}

/// The same extended properties, in terms of views.
pub open spec fn same_properties(a: Option<ExtendedProperties>, b: Option<ExtendedProperties>) -> bool {
    match (a, b) {
        (Some(x), Some(y)) => same_map(x.shared, y.shared) && same_map(x.private, y.private),
        (None, None) => true,
        _ => false,
    }
}

fn copy_time(e: &Option<EventDateTime>) -> (r: Option<EventDateTime>)
    ensures
        opt_time_view(r) == opt_time_view(*e),
{
    match e {
        Some(t) => Some(t.duplicate()),
        None => None,
    }
}

/// Build the body that copies `event` into another calendar.
pub fn copy_payload(event: &CalendarEvent) -> (r: EventCopy)
    ensures
        r.summary@ == event.summary_text(),
        opt_time_view(r.start) == opt_time_view(event.start),
        opt_time_view(r.end) == opt_time_view(event.end),
        opt_view(r.description) == opt_view(event.description),
        opt_view(r.location) == opt_view(event.location),
        same_properties(r.extended_properties, event.extended_properties),
{
    let extended_properties = match &event.extended_properties {
        Some(p) => Some(p.duplicate()),
        None => None,
    };
    EventCopy {
        summary: String::from_str(event.summary_or_default()),
        start: copy_time(&event.start),
        end: copy_time(&event.end),
        description: clone_opt(&event.description),
        location: clone_opt(&event.location),
        extended_properties,
    }
}


/// The tag that `move-events` and `calendar copy` set on each event: `--property-key`
/// and `--property-value` come together or not at all.
pub fn validate_tag(key: &Option<String>, value: &Option<String>) -> (r: Result<Option<(String, String)>, CommandError>)
    ensures
        match (key, value) {
            (Some(k), Some(v)) => r matches Ok(Some(t)) && t.0@ == k@ && t.1@ == v@,
            (None, None) => r matches Ok(None),
            _ => r matches Err(CommandError::TagMismatch),
        },
{
    match (key, value) {
        (Some(k), Some(v)) => Ok(Some((k.clone(), v.clone()))),
        (None, None) => Ok(None),
        _ => Err(CommandError::TagMismatch),
    }
}

/// The shared properties that a copy body carries (none when it has no extended
/// properties or no shared ones).
pub open spec fn copy_shared(p: Option<ExtendedProperties>) -> Map<Seq<char>, Seq<char>> {
    match p {
        Some(x) => match x.shared {
            Some(m) => m@,
            None => Map::empty(),
        },
        None => Map::empty(),
    }
}

/// The private properties that a copy body carries.
pub open spec fn copy_private(p: Option<ExtendedProperties>) -> Option<crate::props::PropertyMap> {
    match p {
        Some(x) => x.private,
        None => None,
    }
}

/// The copy body with the shared property `key` set to `value` on top of the event's own
/// properties; the other fields stay as they are.
pub fn with_tag(copy: EventCopy, key: &str, value: &str) -> (r: EventCopy)
    ensures
        r.summary@ == copy.summary@,
        opt_time_view(r.start) == opt_time_view(copy.start),
        opt_time_view(r.end) == opt_time_view(copy.end),
        opt_view(r.description) == opt_view(copy.description),
        opt_view(r.location) == opt_view(copy.location),
        r.extended_properties is Some,
        copy_shared(r.extended_properties) == copy_shared(copy.extended_properties).insert(key@, value@),
        copy_private(r.extended_properties) == copy_private(copy.extended_properties),
{
    let EventCopy { summary, start, end, description, location, extended_properties } = copy;
    let (shared, private) = match extended_properties {
        Some(p) => (p.shared, p.private),
        None => (None, None),
    };
    let mut tagged = match shared {
        Some(m) => m,
        None => PropertyMap::new(),
    };
    tagged.insert(String::from_str(key), String::from_str(value));
    EventCopy {
        summary,
        start,
        end,
        description,
        location,
        extended_properties: Some(ExtendedProperties { shared: Some(tagged), private }),
    }
}

} // verus!
