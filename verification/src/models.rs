use vstd::prelude::*;

use crate::props::PropertyMap;

verus! {

/// The characters of an optional string.
pub open spec fn opt_view(o: Option<String>) -> Option<Seq<char>> {
    match o {
        Some(s) => Some(s@),
        None => None,
    }
}

/// A copy of an optional string.
pub fn clone_opt(o: &Option<String>) -> (r: Option<String>)
    ensures
        opt_view(r) == opt_view(*o),
{
    match o {
        Some(s) => Some(s.clone()),
        None => None,
    }
}

/// The calendars that the calendar list call returns.
#[derive(Debug)]
pub struct CalendarListResponse {
    pub items: Vec<CalendarListEntry>,
}

/// One calendar of the user's calendar list.
#[derive(Debug)]
pub struct CalendarListEntry {
    pub id: Option<String>,
    pub summary: Option<String>,
    pub description: Option<String>,
    pub primary: Option<bool>,
    pub access_role: Option<String>,
}

/// The start or end of an event: a date-time for timed events, a date for all-day ones.
#[derive(Debug)]
pub struct EventDateTime {
    pub date_time: Option<String>,
    pub date: Option<String>,
}

/// Custom key/value metadata stored on an event.
#[derive(Debug)]
pub struct ExtendedProperties {
    pub shared: Option<PropertyMap>,
    pub private: Option<PropertyMap>,
}

/// A calendar event as the API returns it.
#[derive(Debug)]
pub struct CalendarEvent {
    pub id: Option<String>,
    pub summary: Option<String>,
    pub description: Option<String>,
    pub location: Option<String>,
    pub status: Option<String>,
    pub html_link: Option<String>,
    pub start: Option<EventDateTime>,
    pub end: Option<EventDateTime>,
    pub extended_properties: Option<ExtendedProperties>,
}

impl EventDateTime {
    /// What `describe` gives: the date-time of a timed event, the date of an all-day
    /// one, and `unknown` when both or neither are set.
    pub open spec fn described(self) -> Seq<char> {
        match (self.date_time, self.date) {
            (Some(t), None) => t@,
            (None, Some(d)) => d@,
            _ => "unknown"@,
        }
    }

    /// The text that stands for this start or end.
    pub fn describe(&self) -> (r: String)
        ensures
            r@ == self.described(),
    {
        match (&self.date_time, &self.date) {
            (Some(date_time), None) => date_time.clone(),
            (None, Some(date)) => date.clone(),
            _ => String::from_str("unknown"),
        }
    }

    /// A copy with the same fields.
    pub fn duplicate(&self) -> (r: Self)
        ensures
            opt_view(r.date_time) == opt_view(self.date_time),
            opt_view(r.date) == opt_view(self.date),
            r.described() == self.described(),
    {
        EventDateTime { date_time: clone_opt(&self.date_time), date: clone_opt(&self.date) }
    }
}

impl ExtendedProperties {
    /// A copy with the same maps.
    pub fn duplicate(&self) -> (r: Self)
        ensures
            match (r.shared, self.shared) {
                (Some(a), Some(b)) => a@ == b@ && a.pairs() == b.pairs(),
                (None, None) => true,
                _ => false,
            },
            match (r.private, self.private) {
                (Some(a), Some(b)) => a@ == b@ && a.pairs() == b.pairs(),
                (None, None) => true,
                _ => false,
            },
    {
        let shared = match &self.shared {
            Some(m) => Some(m.duplicate()),
            None => None,
        };
        let private = match &self.private {
            Some(m) => Some(m.duplicate()),
            None => None,
        };
        ExtendedProperties { shared, private }
    }
}

/// The text that stands for an optional start or end: its description, or `unknown`.
pub open spec fn described_or_unknown(e: Option<EventDateTime>) -> Seq<char> {
    match e {
        Some(e) => e.described(),
        None => "unknown"@,
    }
}

impl CalendarEvent {
    /// The event's shared properties, empty when it has none.
    pub open spec fn shared_map(self) -> Map<Seq<char>, Seq<char>> {
        match self.extended_properties {
            Some(p) => match p.shared {
                Some(m) => m@,
                None => Map::empty(),
            },
            None => Map::empty(),
        }
    }

    /// The summary, or `<untitled>` when the event has none.
    pub open spec fn summary_text(self) -> Seq<char> {
        match self.summary {
            Some(s) => s@,
            None => "<untitled>"@,
        }
    }

    /// The summary, or `<untitled>` when the event has none.
    pub fn summary_or_default(&self) -> (r: &str)
        ensures
            r@ == self.summary_text(),
    {
        match &self.summary {
            Some(s) => s.as_str(),
            None => "<untitled>",
        }
    }

    /// The start, described.
    pub fn start_str(&self) -> (r: String)
        ensures
            r@ == described_or_unknown(self.start),
    {
        match &self.start {
            Some(s) => s.describe(),
            None => String::from_str("unknown"),
        }
    }

    /// The end, described.
    pub fn end_str(&self) -> (r: String)
        ensures
            r@ == described_or_unknown(self.end),
    {
        match &self.end {
            Some(e) => e.describe(),
            None => String::from_str("unknown"),
        }
    }

    /// A copy of the event's shared properties (an empty map when it has none).
    pub fn shared_properties(&self) -> (r: PropertyMap)
        ensures
            r@ == self.shared_map(),
    {
        match &self.extended_properties {
            Some(p) => match &p.shared {
                Some(m) => m.duplicate(),
                None => PropertyMap::new(),
            },
            None => PropertyMap::new(),
        }
    }

    /// The event's shared property map itself, when it has one.
    pub fn shared(&self) -> (r: Option<&PropertyMap>)
        ensures
            match r {
                Some(m) => m@ == self.shared_map() && self.extended_properties is Some
                    && self.extended_properties->0.shared is Some
                    && *m == self.extended_properties->0.shared->0,
                None => self.shared_map() == Map::<Seq<char>, Seq<char>>::empty() && (
                self.extended_properties is None || self.extended_properties->0.shared is None),
            },
    {
        match &self.extended_properties {
            Some(p) => match &p.shared {
                Some(m) => Some(m),
                None => None,
            },
            None => None,
        }
    }
}


// ---------------------------------------------------------------------------
// Output of events and calendars
// ---------------------------------------------------------------------------

/// A value of a JSON output object.
#[derive(Debug)]
pub enum JsonValue {
    Text(String),
    Flag(bool),
    Properties(PropertyMap),
}

/// A member of a JSON output object.
#[derive(Debug)]
pub struct JsonField {
    pub name: String,
    pub value: JsonValue,
}

/// A JSON value, in terms of views.
pub enum JsonView {
    Text(Seq<char>),
    Flag(bool),
    Properties(Map<Seq<char>, Seq<char>>),
}

impl JsonField {
    pub open spec fn field_view(self) -> (Seq<char>, JsonView) {
        (
            self.name@,
            match self.value {
                JsonValue::Text(t) => JsonView::Text(t@),
                JsonValue::Flag(b) => JsonView::Flag(b),
                JsonValue::Properties(m) => JsonView::Properties(m@),
            },
        )
    }
}

/// The members of a JSON object, as views.
pub open spec fn fields_view(v: Seq<JsonField>) -> Seq<(Seq<char>, JsonView)> {
    v.map_values(|f: JsonField| f.field_view())
}

/// `rows` with a text member added when the value is present.
pub open spec fn with_text(rows: Seq<(Seq<char>, JsonView)>, name: Seq<char>, v: Option<Seq<char>>) -> Seq<(Seq<char>, JsonView)> {
    match v {
        Some(t) => rows.push((name, JsonView::Text(t))),
        None => rows,
    }
}

fn push_text(out: &mut Vec<JsonField>, name: &str, v: &Option<String>)
    ensures
        fields_view(final(out)@) == with_text(fields_view(old(out)@), name@, opt_view(*v)),
{
    if let Some(t) = v {
        let ghost before = out@;
        out.push(JsonField { name: String::from_str(name), value: JsonValue::Text(t.clone()) });
        assert(fields_view(out@) =~= fields_view(before).push((name@, JsonView::Text(t@))));
    }
}

/// The start or end as described, when the event has it.
pub open spec fn described_opt(e: Option<EventDateTime>) -> Option<Seq<char>> {
    match e {
        Some(t) => Some(t.described()),
        None => None,
    }
}

fn describe_opt(e: &Option<EventDateTime>) -> (r: Option<String>)
    ensures
        opt_view(r) == described_opt(*e),
{
    match e {
        Some(t) => Some(t.describe()),
        None => None,
    }
}

/// The JSON object that `--json` prints for an event: id, summary, start, end, status,
/// location, description, link and properties, each only when the event has it.
pub open spec fn event_json(e: CalendarEvent) -> Seq<(Seq<char>, JsonView)> {
    let rows = with_text(Seq::empty(), "id"@, opt_view(e.id));
    let rows = with_text(rows, "summary"@, opt_view(e.summary));
    let rows = with_text(rows, "start"@, described_opt(e.start));
    let rows = with_text(rows, "end"@, described_opt(e.end));
    let rows = with_text(rows, "status"@, opt_view(e.status));
    let rows = with_text(rows, "location"@, opt_view(e.location));
    let rows = with_text(rows, "description"@, opt_view(e.description));
    let rows = with_text(rows, "link"@, opt_view(e.html_link));
    match e.extended_properties {
        Some(p) => match p.shared {
            Some(m) => rows.push(("properties"@, JsonView::Properties(m@))),
            None => rows,
        },
        None => rows,
    }
}

impl CalendarEvent {
    /// The members of the JSON object that `--json` prints for the event.
    pub fn to_json(&self) -> (r: Vec<JsonField>)
        ensures
            fields_view(r@) == event_json(*self),
    {
        let mut out: Vec<JsonField> = Vec::new();
        assert(fields_view(out@) =~= Seq::<(Seq<char>, JsonView)>::empty());
        push_text(&mut out, "id", &self.id);
        push_text(&mut out, "summary", &self.summary);
        push_text(&mut out, "start", &describe_opt(&self.start));
        push_text(&mut out, "end", &describe_opt(&self.end));
        push_text(&mut out, "status", &self.status);
        push_text(&mut out, "location", &self.location);
        push_text(&mut out, "description", &self.description);
        push_text(&mut out, "link", &self.html_link);
        if let Some(props) = &self.extended_properties {
            if let Some(shared) = &props.shared {
                let ghost before = out@;
                out.push(JsonField { name: String::from_str("properties"), value: JsonValue::Properties(shared.duplicate()) });
                assert(fields_view(out@) =~= fields_view(before).push(("properties"@, JsonView::Properties(shared@))));
            }
        }
        out
    }
}

/// `lines` with a labelled line added when the value is present.
pub open spec fn with_line(lines: Seq<Seq<char>>, label: Seq<char>, v: Option<Seq<char>>, suffix: Seq<char>) -> Seq<Seq<char>> {
    match v {
        Some(t) => lines.push(label + t + suffix),
        None => lines,
    }
}

fn push_line(out: &mut Vec<String>, label: &str, v: &Option<String>, suffix: &str)
    ensures
        crate::text::seq_views(final(out)@) == with_line(crate::text::seq_views(old(out)@), label@, opt_view(*v), suffix@),
{
    if let Some(t) = v {
        let ghost before = out@;
        let mut line = String::from_str(label);
        line.append(t.as_str());
        line.append(suffix);
        out.push(line);
        assert(crate::text::seq_views(out@) =~= crate::text::seq_views(before).push(label@ + t@ + suffix@));
    }
}

/// The `  key: value` lines of shared properties, in order.
pub open spec fn property_lines(ps: Seq<(Seq<char>, Seq<char>)>) -> Seq<Seq<char>> {
    ps.map_values(|p: (Seq<char>, Seq<char>)| "  "@ + p.0 + ": "@ + p.1)
}

/// The value of an optional text, or a default.
pub open spec fn text_or(v: Option<Seq<char>>, default: Seq<char>) -> Seq<char> {
    match v {
        Some(t) => t,
        None => default,
    }
}

/// The lines that print an event: summary, id, start, end, then status, location,
/// description and link when present (each labelled `(built-in)` on request), then the
/// shared properties after a `---` line when there are any, then an empty line.
pub open spec fn event_lines(e: CalendarEvent, show_builtin: bool) -> Seq<Seq<char>> {
    let bi = if show_builtin {
        " (built-in)"@
    } else {
        ""@
    };
    let lines = seq![
        e.summary_text(),
        "  id: "@ + text_or(opt_view(e.id), "<missing-id>"@) + bi,
        "  start: "@ + described_or_unknown(e.start) + bi,
        "  end: "@ + described_or_unknown(e.end) + bi,
    ];
    let lines = with_line(lines, "  status: "@, opt_view(e.status), bi);
    let lines = with_line(lines, "  location: "@, opt_view(e.location), bi);
    let lines = with_line(lines, "  description: "@, opt_view(e.description), bi);
    let lines = with_line(lines, "  link: "@, opt_view(e.html_link), bi);
    let lines = match e.extended_properties {
        Some(p) => match p.shared {
            Some(m) => if m.pairs().len() > 0 {
                lines.push("  ---"@) + property_lines(m.pairs())
            } else {
                lines
            },
            None => lines,
        },
        None => lines,
    };
    lines.push(Seq::empty())
}

/// The lines that print an event.
pub fn print_event_lines(event: &CalendarEvent, show_builtin: bool) -> (r: Vec<String>)
    ensures
        crate::text::seq_views(r@) == event_lines(*event, show_builtin),
{
    let bi = if show_builtin {
        " (built-in)"
    } else {
        ""
    };
    let mut out: Vec<String> = Vec::new();
    out.push(String::from_str(event.summary_or_default()));
    let mut id_line = String::from_str("  id: ");
    match &event.id {
        Some(id) => id_line.append(id.as_str()),
        None => id_line.append("<missing-id>"),
    }
    id_line.append(bi);
    out.push(id_line);
    let mut start_line = String::from_str("  start: ");
    let start = event.start_str();
    start_line.append(start.as_str());
    start_line.append(bi);
    out.push(start_line);
    let mut end_line = String::from_str("  end: ");
    let end = event.end_str();
    end_line.append(end.as_str());
    end_line.append(bi);
    out.push(end_line);
    let ghost bi_v = if show_builtin {
        " (built-in)"@
    } else {
        ""@
    };
    assert(bi@ == bi_v);
    assert(crate::text::seq_views(out@) =~= seq![
        event.summary_text(),
        "  id: "@ + text_or(opt_view(event.id), "<missing-id>"@) + bi_v,
        "  start: "@ + described_or_unknown(event.start) + bi_v,
        "  end: "@ + described_or_unknown(event.end) + bi_v,
    ]);
    push_line(&mut out, "  status: ", &event.status, bi);
    push_line(&mut out, "  location: ", &event.location, bi);
    push_line(&mut out, "  description: ", &event.description, bi);
    push_line(&mut out, "  link: ", &event.html_link, bi);
    if let Some(props) = &event.extended_properties {
        if let Some(shared) = &props.shared {
            let pairs = shared.to_pairs();
            if pairs.len() > 0 {
                let ghost base = crate::text::seq_views(out@);
                out.push(String::from_str("  ---"));
                let n = pairs.len();
                let mut i: usize = 0;
                while i < n
                    invariant
                        n == pairs@.len(),
                        i <= n,
                        pairs@.map_values(|p: (String, String)| (p.0@, p.1@)) == shared.pairs(),
                        crate::text::seq_views(out@) == base.push("  ---"@) + property_lines(shared.pairs()).take(i as int),
                    decreases n - i,
                {
                    let ghost before = out@;
                    let mut line = String::from_str("  ");
                    line.append(pairs[i].0.as_str());
                    line.append(": ");
                    line.append(pairs[i].1.as_str());
                    out.push(line);
                    proof {
                        assert(shared.pairs()[i as int] == (pairs@[i as int].0@, pairs@[i as int].1@));
                        assert(property_lines(shared.pairs()).take(i + 1) =~= property_lines(shared.pairs()).take(i as int).push(
                            "  "@ + pairs@[i as int].0@ + ": "@ + pairs@[i as int].1@));
                        assert(crate::text::seq_views(out@) =~= crate::text::seq_views(before).push("  "@ + pairs@[i as int].0@ + ": "@ + pairs@[i as int].1@));
                    }
                    i = i + 1;
                }
                assert(property_lines(shared.pairs()).take(n as int) =~= property_lines(shared.pairs()));
            }
        }
    }
    let ghost before = out@;
    out.push(String::new());
    assert(crate::text::seq_views(out@) =~= crate::text::seq_views(before).push(Seq::<char>::empty()));
    out
}

/// The JSON object that `--json` prints for a calendar: id, summary, primary, access role
/// and description, each only when present.
pub open spec fn calendar_json(c: CalendarListEntry) -> Seq<(Seq<char>, JsonView)> {
    let rows = with_text(Seq::empty(), "id"@, opt_view(c.id));
    let rows = with_text(rows, "summary"@, opt_view(c.summary));
    let rows = match c.primary {
        Some(b) => rows.push(("primary"@, JsonView::Flag(b))),
        None => rows,
    };
    let rows = with_text(rows, "accessRole"@, opt_view(c.access_role));
    with_text(rows, "description"@, opt_view(c.description))
}

/// The lines that print a calendar: summary (marked primary), id, role and description
/// when present, then an empty line.
pub open spec fn calendar_lines(c: CalendarListEntry) -> Seq<Seq<char>> {
    let primary = if c.primary == Some(true) {
        " (primary)"@
    } else {
        ""@
    };
    let lines = seq![
        text_or(opt_view(c.summary), "<untitled>"@) + primary,
        "  id: "@ + text_or(opt_view(c.id), "<missing-id>"@),
    ];
    let lines = with_line(lines, "  role: "@, opt_view(c.access_role), ""@);
    let lines = with_line(lines, "  description: "@, opt_view(c.description), ""@);
    lines.push(Seq::empty())
}

impl CalendarListEntry {
    /// The members of the JSON object that `--json` prints for the calendar.
    pub fn to_json(&self) -> (r: Vec<JsonField>)
        ensures
            fields_view(r@) == calendar_json(*self),
    {
        let mut out: Vec<JsonField> = Vec::new();
        assert(fields_view(out@) =~= Seq::<(Seq<char>, JsonView)>::empty());
        push_text(&mut out, "id", &self.id);
        push_text(&mut out, "summary", &self.summary);
        if let Some(b) = self.primary {
            let ghost before = out@;
            out.push(JsonField { name: String::from_str("primary"), value: JsonValue::Flag(b) });
            assert(fields_view(out@) =~= fields_view(before).push(("primary"@, JsonView::Flag(b))));
        }
        push_text(&mut out, "accessRole", &self.access_role);
        push_text(&mut out, "description", &self.description);
        out
    }

    /// The lines that print the calendar.
    pub fn text_lines(&self) -> (r: Vec<String>)
        ensures
            crate::text::seq_views(r@) == calendar_lines(*self),
    {
        let mut out: Vec<String> = Vec::new();
        let mut first = match &self.summary {
            Some(s) => s.clone(),
            None => String::from_str("<untitled>"),
        };
        let primary = match self.primary {
            Some(true) => " (primary)",
            _ => "",
        };
        first.append(primary);
        out.push(first);
        let mut id_line = String::from_str("  id: ");
        match &self.id {
            Some(id) => id_line.append(id.as_str()),
            None => id_line.append("<missing-id>"),
        }
        out.push(id_line);
        assert(crate::text::seq_views(out@) =~= seq![
            text_or(opt_view(self.summary), "<untitled>"@) + (if self.primary == Some(true) { " (primary)"@ } else { ""@ }),
            "  id: "@ + text_or(opt_view(self.id), "<missing-id>"@),
        ]);
        push_line(&mut out, "  role: ", &self.access_role, "");
        push_line(&mut out, "  description: ", &self.description, "");
        let ghost before = out@;
        out.push(String::new());
        assert(crate::text::seq_views(out@) =~= crate::text::seq_views(before).push(Seq::<char>::empty()));
        out
    }
}

} // verus!
