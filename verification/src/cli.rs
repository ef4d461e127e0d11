use vstd::prelude::*;

verus! {

/// The subcommands of `calendar`.
#[derive(Debug)]
pub enum CalendarAction {
    /// Create a new public calendar with this name.
    Create { name: String },
    /// Delete the calendar with this name.
    Delete { name: String },
    /// Rename a calendar.
    Rename { name: String, new_name: String },
    /// Delete all events from a calendar.
    Clear(CalendarClearArgs),
    /// Copy all events from one calendar to another.
    Copy(CalendarCopyArgs),
}

/// The subcommands of `event`.
#[derive(Debug)]
pub enum EventAction {
    /// Create a new event.
    Create(UpsertArgs),
    /// Update fields on an existing event.
    Update(UpdateArgs),
    /// Delete an event.
    Delete(DeleteArgs),
    /// Interactively edit an event's fields and properties.
    Edit(EventEditArgs),
}

/// Arguments of `event edit`.
#[derive(Debug)]
pub struct EventEditArgs {
    pub calendar_name: Option<String>,
    pub event_id: String,
}

/// The subcommands of `properties`.
#[derive(Debug)]
pub enum PropertiesAction {
    /// Add properties to events (validated against the config).
    Add(PropertiesAddArgs),
    /// Check event properties against the config.
    Check(CalendarNameArgs),
    /// Delete a property from events.
    Delete(PropertiesDeleteArgs),
    /// Rename a property key on events.
    Rename(PropertiesRenameArgs),
    /// Edit properties event by event through menus.
    Edit(CalendarNameArgs),
    /// Change a property value on events.
    SetValue(PropertiesSetValueArgs),
}

/// Arguments that only name a calendar.
#[derive(Debug)]
pub struct CalendarNameArgs {
    pub calendar_name: Option<String>,
}

/// Arguments of `check`.
#[derive(Debug)]
pub struct CheckArgs {
    pub calendar_name: Option<String>,
    /// Prompt to set the missing properties of events with issues.
    pub fix: bool,
}

/// Arguments of `move-events`.
#[derive(Debug)]
pub struct MoveEventsArgs {
    pub source: String,
    pub target: String,
    /// Shared property key to set on moved events.
    pub property_key: Option<String>,
    /// Shared property value to set on moved events (with `property_key`).
    pub property_value: Option<String>,
    pub dry_run: bool,
    /// Ask before moving each event.
    pub interactive: bool,
}

/// Arguments of `properties add`.
#[derive(Debug)]
pub struct PropertiesAddArgs {
    pub calendar_name: Option<String>,
    pub key: Option<String>,
    pub value: Option<String>,
    pub all: bool,
}

/// Arguments of `properties delete`.
#[derive(Debug)]
pub struct PropertiesDeleteArgs {
    pub calendar_name: Option<String>,
    pub key: String,
    pub all: bool,
}

/// Arguments of `properties rename`.
#[derive(Debug)]
pub struct PropertiesRenameArgs {
    pub calendar_name: Option<String>,
    pub from: String,
    pub to: String,
    pub all: bool,
}

/// Arguments of `properties set-value`.
#[derive(Debug)]
pub struct PropertiesSetValueArgs {
    pub calendar_name: Option<String>,
    pub key: String,
    pub from: String,
    pub to: String,
    pub all: bool,
}

/// Arguments of `calendar clear`.
#[derive(Debug)]
pub struct CalendarClearArgs {
    pub calendar_name: Option<String>,
    pub all: bool,
}

/// Arguments of `calendar copy`.
#[derive(Debug)]
pub struct CalendarCopyArgs {
    pub source: String,
    pub target: String,
    /// Shared property key to set on copied events.
    pub property_key: Option<String>,
    /// Shared property value to set on copied events (with `property_key`).
    pub property_value: Option<String>,
    pub dry_run: bool,
}

/// How `list` prints events.
#[derive(Clone, Copy, Debug, PartialEq, Eq, Structural)]
pub enum ListFormat {
    /// One block of lines per event.
    Default,
    /// An aligned table of summary, start, end, type and client.
    Table,
}

/// Arguments of `list`.
#[derive(Debug)]
pub struct ListArgs {
    pub calendar_name: Option<String>,
    pub starts_after: Option<String>,
    pub starts_before: Option<String>,
    pub search: Option<String>,
    pub has_property: Option<String>,
    pub count: bool,
    pub format: ListFormat,
}

/// Arguments of `event create`.
#[derive(Debug)]
pub struct UpsertArgs {
    pub calendar_name: Option<String>,
    pub summary: String,
    pub start: String,
    pub end: String,
    pub description: Option<String>,
    pub location: Option<String>,
}

/// Arguments of `event update`.
#[derive(Debug)]
pub struct UpdateArgs {
    pub calendar_name: Option<String>,
    pub event_id: String,
    pub summary: Option<String>,
    pub start: Option<String>,
    pub end: Option<String>,
    pub description: Option<String>,
    pub location: Option<String>,
}

/// Arguments of `event delete`.
#[derive(Debug)]
pub struct DeleteArgs {
    pub calendar_name: Option<String>,
    pub event_id: String,
}

/// Arguments of `auth`.
#[derive(Debug)]
pub struct AuthArgs {
    pub no_browser: bool,
    pub force: bool,
}

/// The global output flags.
#[derive(Debug)]
pub struct OutputOptions {
    pub show_builtin: bool,
    pub json: bool,
    pub quiet: bool,
}

} // verus!
