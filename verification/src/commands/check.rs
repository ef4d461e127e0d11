use vstd::prelude::*;

use crate::commands::CommandError;
use crate::config::Config;
use crate::models::CalendarEvent;
use crate::dates::decimal;
use crate::props::{clone_strings, strings_view, PropertyMap, StringListMap};
use crate::text::{decimal_text, seq_views};

verus! {

/// The `[check]` rules that `check` works with: the table must exist and not be empty,
/// and `--fix` also needs a `[properties]` table.
pub fn check_rules(config: &Config, fix: bool) -> (r: Result<&StringListMap, CommandError>)
    ensures
        match config.check {
            None => r matches Err(CommandError::NoCheckSection),
            Some(rules) => if rules@.len() == 0 {
                r matches Err(CommandError::NoCheckRules)
            } else if fix && config.properties is None {
                r matches Err(CommandError::FixNeedsProperties)
            } else {
                r matches Ok(t) && t@ == rules@ && t.pairs() == rules.pairs()
            },
        },
{
    let rules = match &config.check {
        Some(r) => r,
        None => {
            return Err(CommandError::NoCheckSection);
        },
    };
    if rules.is_empty() {
        return Err(CommandError::NoCheckRules);
    }
    if fix && config.properties.is_none() {
        return Err(CommandError::FixNeedsProperties);
    }
    Ok(rules)
}

/// The required keys that the shared properties lack, in rule order (a key listed twice
/// is reported twice).
pub open spec fn missing_required(required: Seq<Seq<char>>, shared: Map<Seq<char>, Seq<char>>) -> Seq<Seq<char>>
    decreases required.len(),
{
    if required.len() == 0 {
        Seq::empty()
    } else {
        let rest = missing_required(required.drop_last(), shared);
        if shared.contains_key(required.last()) {
            rest
        } else {
            rest.push(required.last())
        }
    }
}

/// The verdict of `check` on one event, in terms of views.
pub enum CheckVerdict {
    MissingType,
    UnknownType(Seq<char>),
    Missing(Seq<char>, Seq<Seq<char>>),
    Passed,
}

/// What `check` finds for an event with these shared properties: its `type` must be
/// set, must name a `[check]` rule, and the rule's keys must all be set.
pub open spec fn check_verdict(shared: Map<Seq<char>, Seq<char>>, rules: Map<Seq<char>, Seq<Seq<char>>>) -> CheckVerdict {
    if !shared.contains_key("type"@) {
        CheckVerdict::MissingType
    } else {
        let t = shared["type"@];
        if !rules.contains_key(t) {
            CheckVerdict::UnknownType(t)
        } else {
            let missing = missing_required(rules[t], shared);
            if missing.len() == 0 {
                CheckVerdict::Passed
            } else {
                CheckVerdict::Missing(t, missing)
            }
        }
    }
}

/// The finding of `check` on one event.
#[derive(Debug)]
pub enum CheckOutcome {
    /// The event has no `type` property.
    MissingType,
    /// The event's type has no rule.
    UnknownType(String),
    /// The event lacks keys that its type requires.
    MissingRequired { event_type: String, missing: Vec<String> },
    /// Nothing is missing.
    Passed,
}

impl CheckOutcome {
    /// The finding in terms of views.
    pub open spec fn verdict(self) -> CheckVerdict {
        match self {
            CheckOutcome::MissingType => CheckVerdict::MissingType,
            CheckOutcome::UnknownType(t) => CheckVerdict::UnknownType(t@),
            CheckOutcome::MissingRequired { event_type, missing } => CheckVerdict::Missing(
                event_type@,
                strings_view(missing@),
            ),
            CheckOutcome::Passed => CheckVerdict::Passed,
        }
    }

    /// The number of issues it counts for: one for a missing or unknown type, one per
    /// missing key.
    pub open spec fn issue_count_spec(self) -> nat {
        match self.verdict() {
            CheckVerdict::MissingType => 1,
            CheckVerdict::UnknownType(_) => 1,
            CheckVerdict::Missing(_, m) => m.len(),
            CheckVerdict::Passed => 0,
        }
    }

    /// The number of issues it counts for.
    pub fn issue_count(&self) -> (r: usize)
        ensures
            r == self.issue_count_spec(),
    {
        match self {
            CheckOutcome::MissingType => 1,
            CheckOutcome::UnknownType(_) => 1,
            CheckOutcome::MissingRequired { missing, .. } => missing.len(),
            CheckOutcome::Passed => 0,
        }
    }
}

/// Check one event against the `[check]` rules.
pub fn check_event(event: &CalendarEvent, rules: &StringListMap) -> (r: CheckOutcome)
    ensures
        r.verdict() == check_verdict(event.shared_map(), rules@),
{
    let empty = PropertyMap::new();
    let shared: &PropertyMap = match event.shared() {
        Some(m) => m,
        None => &empty,
    };
    let event_type = match shared.get("type") {
        Some(t) => t,
        None => {
            return CheckOutcome::MissingType;
        },
    };
    let required = match rules.get(event_type.as_str()) {
        Some(r) => r,
        None => {
            return CheckOutcome::UnknownType(event_type.clone());
        },
    };
    let ghost req = strings_view(required@);
    let mut missing: Vec<String> = Vec::new();
    let n = required.len();
    let mut i: usize = 0;
    while i < n
        invariant
            n == required@.len(),
            i <= n,
            req == strings_view(required@),
            strings_view(missing@) == missing_required(req.take(i as int), shared@),
        decreases n - i,
    {
        let key = &required[i];
        proof {
            assert(req.take(i + 1).drop_last() =~= req.take(i as int));
            assert(req.take(i + 1).last() == key@);
        }
        if !shared.contains_key(key.as_str()) {
            let ghost old_m = missing@;
            missing.push(key.clone());
            assert(strings_view(missing@) =~= strings_view(old_m).push(key@));
        }
        i = i + 1;
    }
    assert(req.take(n as int) =~= req);
    if missing.len() == 0 {
        CheckOutcome::Passed
    } else {
        CheckOutcome::MissingRequired { event_type: event_type.clone(), missing }
    }
}

/// The allowed values to offer when fixing `key`: none when the key is already set on
/// the properties being built or has no allowed values in the config.
pub fn fix_choices<'a>(new_props: &PropertyMap, key: &str, properties: &'a StringListMap) -> (r: Option<&'a Vec<String>>)
    ensures
        match r {
            Some(v) => !new_props@.contains_key(key@) && properties@.contains_key(key@)
                && strings_view(v@) == properties@[key@],
            None => new_props@.contains_key(key@) || !properties@.contains_key(key@),
        },
{
    if new_props.contains_key(key) {
        None
    } else {
        properties.get(key)
    }
}


/// Keys with their allowed values, as views.
pub open spec fn choices_view(c: Seq<(String, Vec<String>)>) -> Seq<(Seq<char>, Seq<Seq<char>>)> {
    c.map_values(|p: (String, Vec<String>)| (p.0@, strings_view(p.1@)))
}

/// The missing keys that the config gives allowed values for, in order, each with those
/// values (a key missing twice is offered twice).
pub open spec fn confirm_choices_of(missing: Seq<Seq<char>>, properties: Map<Seq<char>, Seq<Seq<char>>>) -> Seq<(Seq<char>, Seq<Seq<char>>)> {
    missing.filter(|k: Seq<char>| properties.contains_key(k)).map_values(|k: Seq<char>| (k, properties[k]))
}

/// The keys that a confirmed fix asks for, with their allowed values.
fn confirm_choices(missing: &Vec<String>, properties: &StringListMap) -> (r: Vec<(String, Vec<String>)>)
    ensures
        choices_view(r@) == confirm_choices_of(strings_view(missing@), properties@),
{
    let ghost ms = strings_view(missing@);
    let ghost pred = |k: Seq<char>| properties@.contains_key(k);
    let ghost f = |k: Seq<char>| (k, properties@[k]);
    let mut out: Vec<(String, Vec<String>)> = Vec::new();
    let n = missing.len();
    let mut i: usize = 0;
    while i < n
        invariant
            n == missing@.len(),
            i <= n,
            ms == strings_view(missing@),
            pred == (|k: Seq<char>| properties@.contains_key(k)),
            f == (|k: Seq<char>| (k, properties@[k])),
            choices_view(out@) == ms.take(i as int).filter(pred).map_values(f),
        decreases n - i,
    {
        let key = &missing[i];
        proof {
            assert(ms[i as int] == key@);
            assert(ms.take(i + 1) =~= ms.take(i as int).push(key@));
            ms.take(i as int).lemma_filter_push(key@, pred);
        }
        if let Some(values) = properties.get(key.as_str()) {
            let ghost before = choices_view(out@);
            out.push((key.clone(), clone_strings(values)));
            proof {
                assert(pred(key@));
                assert(ms.take(i + 1).filter(pred) == ms.take(i as int).filter(pred).push(key@));
                assert(choices_view(out@) =~= before.push(f(key@)));
                assert(ms.take(i as int).filter(pred).push(key@).map_values(f) =~= before.push(f(key@)));
            }
        } else {
            assert(ms.take(i + 1).filter(pred) == ms.take(i as int).filter(pred));
        }
        i = i + 1;
    }
    assert(ms.take(n as int) =~= ms);
    out
}

/// How `check --fix` starts on an event with issues.
#[derive(Debug)]
pub enum FixStart {
    /// Nothing to offer.
    Nothing,
    /// Offer these values for `type` (the event has none).
    ChooseType(Vec<String>),
    /// Ask whether to fix the event, then offer each of these missing keys its allowed
    /// values.
    Confirm(Vec<(String, Vec<String>)>),
}

/// The start of `check --fix` on an event: an event without `type` is offered the
/// allowed values of `type` (when the config has them), an event that lacks required
/// keys is offered a fix of those keys, and nothing else is fixed.
pub fn fix_start(outcome: &CheckOutcome, properties: &StringListMap) -> (r: FixStart)
    ensures
        match outcome.verdict() {
            CheckVerdict::MissingType => if properties@.contains_key("type"@) {
                r matches FixStart::ChooseType(v) && strings_view(v@) == properties@["type"@]
            } else {
                r is Nothing
            },
            CheckVerdict::Missing(_, m) => r matches FixStart::Confirm(c) && choices_view(c@) == confirm_choices_of(m, properties@),
            _ => r is Nothing,
        },
{
    match outcome {
        CheckOutcome::MissingType => match properties.get("type") {
            Some(values) => FixStart::ChooseType(clone_strings(values)),
            None => FixStart::Nothing,
        },
        CheckOutcome::MissingRequired { missing, .. } => FixStart::Confirm(confirm_choices(missing, properties)),
        _ => FixStart::Nothing,
    }
}

/// The keys that a type requires, to fill in once `check --fix` has chosen it (none
/// when the type has no rule).
pub fn required_for(rules: &StringListMap, event_type: &str) -> (r: Vec<String>)
    ensures
        strings_view(r@) == (if rules@.contains_key(event_type@) {
            rules@[event_type@]
        } else {
            Seq::empty()
        }),
{
    match rules.get(event_type) {
        Some(keys) => clone_strings(keys),
        None => {
            let v: Vec<String> = Vec::new();
            assert(strings_view(v@) =~= Seq::<Seq<char>>::empty());
            v
        },
    }
}

// ---------------------------------------------------------------------------
// What `check` prints
// ---------------------------------------------------------------------------

/// The line that reports a missing required key.
pub open spec fn missing_key_line(event_type: Seq<char>, key: Seq<char>) -> Seq<char> {
    "  - missing required property '"@ + key + "' (required for type '"@ + event_type + "')"@
}

/// The lines that `check` prints for an event: nothing when it passed, otherwise its
/// summary and start, then one line per issue.
pub open spec fn check_report_lines(summary: Seq<char>, start: Seq<char>, v: CheckVerdict) -> Seq<Seq<char>> {
    let head = summary + " ("@ + start + "):"@;
    match v {
        CheckVerdict::Passed => Seq::empty(),
        CheckVerdict::MissingType => seq![head, "  - missing 'type' property"@],
        CheckVerdict::UnknownType(t) => seq![head, "  - unknown type '"@ + t + "' (not in [check] config)"@],
        CheckVerdict::Missing(t, keys) => seq![head] + keys.map_values(|k: Seq<char>| missing_key_line(t, k)),
    }
}

/// The report of an event matches its count: an event that passed prints nothing, any
/// other prints its header line and then one line per issue counted; for missing
/// required keys, line `j + 1` names the `j`-th missing key, in rule order.
pub proof fn law_report_has_a_line_per_issue(summary: Seq<char>, start: Seq<char>, outcome: CheckOutcome)
    ensures
        ({
            let lines = check_report_lines(summary, start, outcome.verdict());
            &&& outcome.verdict() is Passed ==> lines.len() == 0
            &&& !(outcome.verdict() is Passed) ==> lines.len() == 1 + outcome.issue_count_spec()
                && lines[0] == summary + " ("@ + start + "):"@
            &&& outcome.verdict() matches CheckVerdict::Missing(t, keys) ==> forall|j: int|
                0 <= j < keys.len() ==> #[trigger] lines[j + 1] == "  - missing required property '"@
                    + keys[j] + "' (required for type '"@ + t + "')"@
        }),
{
}

/// The lines that report the finding on one event.
pub fn check_report(summary: &str, start: &str, outcome: &CheckOutcome) -> (r: Vec<String>)
    ensures
        seq_views(r@) == check_report_lines(summary@, start@, outcome.verdict()),
        outcome.verdict() is Passed ==> r@.len() == 0,
        !(outcome.verdict() is Passed) ==> r@.len() == 1 + outcome.issue_count_spec(),
        outcome.verdict() matches CheckVerdict::Missing(t, keys) ==> forall|j: int|
            0 <= j < keys.len() ==> #[trigger] r@[j + 1]@ == "  - missing required property '"@ + keys[j]
                + "' (required for type '"@ + t + "')"@,
{
    proof {
        law_report_has_a_line_per_issue(summary@, start@, *outcome);
    }
    let mut out: Vec<String> = Vec::new();
    if let CheckOutcome::Passed = outcome {
        assert(seq_views(out@) =~= Seq::<Seq<char>>::empty());
        return out;
    }
    let mut head = String::from_str(summary);
    head.append(" (");
    head.append(start);
    head.append("):");
    out.push(head);
    match outcome {
        CheckOutcome::MissingType => {
            out.push(String::from_str("  - missing 'type' property"));
        },
        CheckOutcome::UnknownType(t) => {
            let mut line = String::from_str("  - unknown type '");
            line.append(t.as_str());
            line.append("' (not in [check] config)");
            out.push(line);
        },
        CheckOutcome::MissingRequired { event_type, missing } => {
            let ghost t = event_type@;
            let ghost keys = strings_view(missing@);
            let n = missing.len();
            let mut i: usize = 0;
            while i < n
                invariant
                    n == missing@.len(),
                    i <= n,
                    t == event_type@,
                    keys == strings_view(missing@),
                    out@.len() == i + 1,
                    out@[0]@ == summary@ + " ("@ + start@ + "):"@,
                    forall|j: int| 0 <= j < i ==> #[trigger] out@[j + 1]@ == missing_key_line(t, keys[j]),
                decreases n - i,
            {
                let mut line = String::from_str("  - missing required property '");
                line.append(missing[i].as_str());
                line.append("' (required for type '");
                line.append(event_type.as_str());
                line.append("')");
                out.push(line);
                proof {
                    assert(out@[i + 1]@ == missing_key_line(t, keys[i as int]));
                }
                i = i + 1;
            }
            proof {
                assert(outcome.verdict() == CheckVerdict::Missing(t, keys));
                let rhs = seq![summary@ + " ("@ + start@ + "):"@] + keys.map_values(
                    |k: Seq<char>| missing_key_line(t, k),
                );
                assert(check_report_lines(summary@, start@, outcome.verdict()) == rhs);
                assert forall|j: int| 0 <= j < out@.len() implies #[trigger] seq_views(out@)[j] == rhs[j] by {
                    if j > 0 {
                        assert(out@[(j - 1) + 1]@ == missing_key_line(t, keys[j - 1]));
                    }
                }
                assert(seq_views(out@) =~= rhs);
            }
            return out;
        },
        CheckOutcome::Passed => {},
    }
    assert(seq_views(out@) =~= check_report_lines(summary@, start@, outcome.verdict()));
    out
}

/// The running counts of `check`.
pub struct CheckTally {
    /// Issues found so far.
    pub issues: u32,
    /// Events with at least one issue.
    pub events_with_issues: u32,
    /// Events fixed with `--fix`.
    pub fixed: u32,
}

impl CheckTally {
    /// Nothing counted yet.
    pub fn new() -> (r: Self)
        ensures
            r.issues == 0 && r.events_with_issues == 0 && r.fixed == 0,
    {
        CheckTally { issues: 0, events_with_issues: 0, fixed: 0 }
    }

    /// Count the finding on one event: its issues, and the event itself unless it passed.
    pub fn record(&mut self, outcome: &CheckOutcome)
        requires
            old(self).issues + outcome.issue_count_spec() <= u32::MAX,
            old(self).events_with_issues < u32::MAX,
        ensures
            final(self).issues == old(self).issues + outcome.issue_count_spec(),
            final(self).events_with_issues == old(self).events_with_issues + (if outcome.verdict() is Passed {
                0int
            } else {
                1int
            }),
            final(self).fixed == old(self).fixed,
    {
        let n = outcome.issue_count();
        self.issues = self.issues + n as u32;
        if !matches!(outcome, CheckOutcome::Passed) {
            self.events_with_issues = self.events_with_issues + 1;
        }
    }

    /// Count one fixed event.
    pub fn record_fix(&mut self)
        requires
            old(self).fixed < u32::MAX,
        ensures
            final(self).fixed == old(self).fixed + 1,
            final(self).issues == old(self).issues,
            final(self).events_with_issues == old(self).events_with_issues,
    {
        self.fixed = self.fixed + 1;
    }

    /// The closing lines of `check` over `total` events (`fix` when fixing).
    pub fn summary_lines(&self, total: usize, fix: bool) -> (r: Vec<String>)
        ensures
            seq_views(r@) == check_summary_lines(self.issues as nat, self.events_with_issues as nat, self.fixed as nat, total as nat, fix),
    {
        let mut out: Vec<String> = Vec::new();
        if self.issues == 0 {
            let mut line = String::from_str("All ");
            let count = decimal_text(total as u64);
            line.append(count.as_str());
            line.append(" event(s) pass checks.");
            out.push(line);
        } else {
            out.push(String::new());
            let mut line = decimal_text(self.issues as u64);
            line.append(" issue(s) in ");
            let with_issues = decimal_text(self.events_with_issues as u64);
            line.append(with_issues.as_str());
            line.append(" event(s) out of ");
            let count = decimal_text(total as u64);
            line.append(count.as_str());
            line.append(".");
            out.push(line);
            if fix {
                let mut fixed = decimal_text(self.fixed as u64);
                fixed.append(" event(s) fixed.");
                out.push(fixed);
            }
        }
        assert(seq_views(out@) =~= check_summary_lines(self.issues as nat, self.events_with_issues as nat, self.fixed as nat, total as nat, fix));
        out
    }

    /// The lines that `check --fix` prints when the user quits.
    pub fn quit_lines(&self) -> (r: Vec<String>)
        ensures
            seq_views(r@) == seq![Seq::<char>::empty(), "Quit. "@ + decimal(self.fixed as nat) + " event(s) fixed."@],
    {
        let mut out: Vec<String> = Vec::new();
        out.push(String::new());
        let mut line = String::from_str("Quit. ");
        let fixed = decimal_text(self.fixed as u64);
        line.append(fixed.as_str());
        line.append(" event(s) fixed.");
        out.push(line);
        assert(seq_views(out@) =~= seq![Seq::<char>::empty(), "Quit. "@ + decimal(self.fixed as nat) + " event(s) fixed."@]);
        out
    }
}

/// The closing lines of `check`: all passed, or the counts of issues, of events with
/// issues and (when fixing) of fixed events, after an empty line.
pub open spec fn check_summary_lines(issues: nat, events_with_issues: nat, fixed: nat, total: nat, fix: bool) -> Seq<Seq<char>> {
    if issues == 0 {
        seq!["All "@ + decimal(total) + " event(s) pass checks."@]
    } else {
        let counts = seq![
            Seq::<char>::empty(),
            decimal(issues) + " issue(s) in "@ + decimal(events_with_issues) + " event(s) out of "@
                + decimal(total) + "."@,
        ];
        if fix {
            counts.push(decimal(fixed) + " event(s) fixed."@)
        } else {
            counts
        }
    }
}

} // verus!
