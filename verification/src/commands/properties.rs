use vstd::prelude::*;

use crate::cli::PropertiesAddArgs;
use crate::commands::CommandError;
use crate::client::{patch_effect, properties_with_deletes_patch, SharedPatch};
use crate::config::Config;
use crate::helpers::opt_str_view;
use crate::models::{described_or_unknown, opt_view, CalendarEvent};
use crate::props::{
    clone_strings, has_key, lemma_key_seq_is_domain, lemma_string_list_domain, strings_view, PropertyMap,
    StringListMap,
};
use crate::dates::decimal;
use crate::text::{decimal_text, seq_views, sort_distinct_strings, str_eq, strictly_sorted};

verus! {

/// The `[properties]` table, which must exist and not be empty.
pub fn require_properties(config: &Config) -> (r: Result<&StringListMap, CommandError>)
    ensures
        match config.properties {
            None => r matches Err(CommandError::NoPropertiesSection),
            Some(p) => if p@.len() == 0 {
                r matches Err(CommandError::NoPropertiesDefined)
            } else {
                r matches Ok(t) && t@ == p@ && t.pairs() == p.pairs()
            },
        },
{
    let properties = match &config.properties {
        Some(p) => p,
        None => {
            return Err(CommandError::NoPropertiesSection);
        },
    };
    if properties.is_empty() {
        return Err(CommandError::NoPropertiesDefined);
    }
    Ok(properties)
}

/// Whether a list of strings holds `s`.
pub fn list_contains(list: &Vec<String>, s: &str) -> (r: bool)
    ensures
        r == strings_view(list@).contains(s@),
{
    let n = list.len();
    let mut i: usize = 0;
    while i < n
        invariant
            n == list@.len(),
            i <= n,
            forall|j: int| 0 <= j < i ==> list@[j]@ != s@,
        decreases n - i,
    {
        if str_eq(list[i].as_str(), s) {
            assert(strings_view(list@)[i as int] == s@);
            return true;
        }
        i = i + 1;
    }
    proof {
        if strings_view(list@).contains(s@) {
            let j = choose|j: int| 0 <= j < strings_view(list@).len() && strings_view(list@)[j] == s@;
            assert(list@[j]@ == s@);
        }
    }
    false
}

/// Check the arguments of `properties add`: `--key` and `--value` come together, the
/// `[properties]` table exists and is not empty, and a given key is defined with the
/// given value among its allowed values.
pub fn validate_add_args<'a>(args: &PropertiesAddArgs, config: &'a Config) -> (r: Result<
    &'a StringListMap,
    CommandError,
>)
    ensures
        (args.key is Some) != (args.value is Some) ==> r matches Err(CommandError::KeyValueMismatch),
        (args.key is Some) == (args.value is Some) ==> match config.properties {
            None => r matches Err(CommandError::NoPropertiesSection),
            Some(p) => if p@.len() == 0 {
                r matches Err(CommandError::NoPropertiesDefined)
            } else {
                match (args.key, args.value) {
                    (Some(k), Some(v)) => if !p@.contains_key(k@) {
                        r matches Err(CommandError::UndefinedKey(m)) && m@ == k@
                    } else if !p@[k@].contains(v@) {
                        r matches Err(CommandError::ValueNotAllowed { key, value, allowed })
                            && key@ == k@ && value@ == v@ && strings_view(allowed@) == p@[k@]
                    } else {
                        r matches Ok(t) && t@ == p@ && t.pairs() == p.pairs()
                    },
                    _ => r matches Ok(t) && t@ == p@ && t.pairs() == p.pairs(),
                }
            },
        },
{
    if args.key.is_some() != args.value.is_some() {
        return Err(CommandError::KeyValueMismatch);
    }
    let properties = require_properties(config)?;
    if let (Some(key), Some(value)) = (&args.key, &args.value) {
        let allowed = match properties.get(key.as_str()) {
            Some(a) => a,
            None => {
                return Err(CommandError::UndefinedKey(key.clone()));
            },
        };
        if !list_contains(allowed, value.as_str()) {
            return Err(
                CommandError::ValueNotAllowed {
                    key: key.clone(),
                    value: value.clone(),
                    allowed: clone_strings(allowed),
                },
            );
        }
    }
    Ok(properties)
}

/// The keys of the `[properties]` table in increasing order, the order in which
/// `properties add` and `properties edit` go through them.
pub fn sorted_property_keys(properties: &StringListMap) -> (r: Vec<String>)
    ensures
        r@.len() == properties.key_seq().len(),
        forall|x: Seq<char>| #[trigger] seq_views(r@).contains(x) <==> properties@.contains_key(x),
        strictly_sorted(seq_views(r@)),
{
    let keys = properties.keys();
    let sorted = sort_distinct_strings(&keys);
    proof {
        assert forall|x: Seq<char>| #[trigger] seq_views(sorted@).contains(x) <==> properties@.contains_key(x) by {
            assert(seq_views(keys@) == properties.key_seq());
        }
    }
    sorted
}

/// `properties add --key K --value V` on one event: nothing to do when the event already
/// has `K=V`, otherwise its properties with `K` set to `V`.
pub fn plan_set(existing: &PropertyMap, key: &str, value: &str) -> (r: Option<PropertyMap>)
    ensures
        match r {
            None => existing@.contains_key(key@) && existing@[key@] == value@,
            Some(m) => !(existing@.contains_key(key@) && existing@[key@] == value@)
                && m@ == existing@.insert(key@, value@),
        },
{
    match existing.get(key) {
        Some(v) => if str_eq(v.as_str(), value) {
            return None;
        },
        None => {},
    }
    let mut m = existing.duplicate();
    m.insert(String::from_str(key), String::from_str(value));
    Some(m)
}

/// Setting a property is idempotent: once `properties add --key K --value V` has set
/// `K=V` on an event, running it again on the result finds nothing to do.
pub proof fn law_set_is_idempotent(existing: Map<Seq<char>, Seq<char>>, key: Seq<char>, value: Seq<char>)
    ensures
        existing.insert(key, value).contains_key(key) && existing.insert(key, value)[key] == value,
        existing.insert(key, value).insert(key, value) == existing.insert(key, value),
{
    assert(existing.insert(key, value).insert(key, value) =~= existing.insert(key, value));
}

/// The keys of `sorted_keys` that the event does not have yet, in the same order: the
/// ones that interactive `properties add` prompts for.
pub fn keys_to_prompt(existing: &PropertyMap, sorted_keys: &Vec<String>) -> (r: Vec<String>)
    ensures
        seq_views(r@) == seq_views(sorted_keys@).filter(|k: Seq<char>| !existing@.contains_key(k)),
{
    let ghost pred = |k: Seq<char>| !existing@.contains_key(k);
    let ghost ks = seq_views(sorted_keys@);
    let mut out: Vec<String> = Vec::new();
    let n = sorted_keys.len();
    let mut i: usize = 0;
    while i < n
        invariant
            n == sorted_keys@.len(),
            i <= n,
            ks == seq_views(sorted_keys@),
            pred == (|k: Seq<char>| !existing@.contains_key(k)),
            seq_views(out@) == ks.take(i as int).filter(pred),
        decreases n - i,
    {
        let key = &sorted_keys[i];
        proof {
            assert(ks.take(i + 1) =~= ks.take(i as int).push(key@));
            ks.take(i as int).lemma_filter_push(key@, pred);
        }
        if !existing.contains_key(key.as_str()) {
            let ghost old_out = out@;
            out.push(key.clone());
            assert(seq_views(out@) =~= seq_views(old_out).push(key@));
        }
        i = i + 1;
    }
    assert(ks.take(n as int) =~= ks);
    out
}

/// `properties delete --key K` on one event: the value it deletes, or nothing to do
/// when `K` is not set.
pub fn plan_delete(existing: &PropertyMap, key: &str) -> (r: Option<String>)
    ensures
        match r {
            Some(v) => existing@.contains_key(key@) && v@ == existing@[key@],
            None => !existing@.contains_key(key@),
        },
{
    match existing.get(key) {
        Some(v) => Some(v.clone()),
        None => None,
    }
}

/// What `properties rename --from F --to T` does to an event's properties: nothing when
/// `F` is not set, otherwise `F` removed and its value stored under `T`.
pub open spec fn renamed(existing: Map<Seq<char>, Seq<char>>, from: Seq<char>, to: Seq<char>) -> Option<(Seq<char>, Map<Seq<char>, Seq<char>>)> {
    if existing.contains_key(from) {
        let v = existing[from];
        Some((v, existing.remove(from).insert(to, v)))
    } else {
        None
    }
}

/// `properties rename --from F --to T` on one event: the value moved and the new
/// properties, or nothing when `F` is not set.
pub fn plan_rename(existing: &PropertyMap, from: &str, to: &str) -> (r: Option<(String, PropertyMap)>)
    ensures
        match r {
            None => renamed(existing@, from@, to@) is None,
            Some((v, m)) => renamed(existing@, from@, to@) == Some((v@, m@)),
        },
{
    let mut m = existing.duplicate();
    let value = match m.remove(from) {
        Some(v) => v,
        None => {
            return None;
        },
    };
    m.insert(String::from_str(to), value.clone());
    Some((value, m))
}

/// A rename keeps the value: the new key holds what the old one held, the old key is
/// gone unless it is the new one, and every other key is untouched.
pub proof fn law_rename_moves_value(existing: Map<Seq<char>, Seq<char>>, from: Seq<char>, to: Seq<char>)
    requires
        existing.contains_key(from),
    ensures
        renamed(existing, from, to) matches Some((v, m)) && v == existing[from] && m.contains_key(to)
            && m[to] == existing[from] && (from != to ==> !m.contains_key(from)) && (forall|k: Seq<char>|
            k != from && k != to ==> (#[trigger] m.contains_key(k) == existing.contains_key(k)) && (
            existing.contains_key(k) ==> m[k] == existing[k])),
{
}

/// `properties set-value --key K --from A --to B` on one event: its properties with `K`
/// set to `B` when `K` is `A`, nothing otherwise.
pub fn plan_set_value(existing: &PropertyMap, key: &str, from: &str, to: &str) -> (r: Option<PropertyMap>)
    ensures
        match r {
            None => !(existing@.contains_key(key@) && existing@[key@] == from@),
            Some(m) => existing@.contains_key(key@) && existing@[key@] == from@ && m@ == existing@.insert(
                key@,
                to@,
            ),
        },
{
    match existing.get(key) {
        Some(v) => if !str_eq(v.as_str(), from) {
            return None;
        },
        None => {
            return None;
        },
    }
    let mut m = existing.duplicate();
    m.insert(String::from_str(key), String::from_str(to));
    Some(m)
}

// ---------------------------------------------------------------------------
// properties check
// ---------------------------------------------------------------------------

/// A problem that `properties check` reports for one event.
#[derive(Debug)]
pub enum PropertyIssue {
    /// A key of the config is not set on the event.
    Missing(String),
    /// A key's value is not among its allowed values (listed in table order).
    NotAllowed { key: String, value: String, allowed: Vec<String> },
    /// The event has a key that the config does not define.
    Unknown(String),
}

/// A problem of `properties check`, in terms of views.
pub enum IssueView {
    Missing(Seq<char>),
    NotAllowed(Seq<char>, Seq<char>, Seq<Seq<char>>),
    Unknown(Seq<char>),
}

impl PropertyIssue {
    pub open spec fn issue_view(self) -> IssueView {
        match self {
            PropertyIssue::Missing(k) => IssueView::Missing(k@),
            PropertyIssue::NotAllowed { key, value, allowed } => IssueView::NotAllowed(
                key@,
                value@,
                strings_view(allowed@),
            ),
            PropertyIssue::Unknown(k) => IssueView::Unknown(k@),
        }
    }

    /// The text that reports the issue.
    pub open spec fn issue_text(self) -> Seq<char> {
        match self {
            PropertyIssue::Missing(k) => "missing property '"@ + k@ + "'"@,
            PropertyIssue::NotAllowed { key, value, allowed } => "property '"@ + key@
                + "' has value '"@ + value@ + "' which is not in allowed values: "@
                + crate::text::seq_join(strings_view(allowed@), ", "@),
            PropertyIssue::Unknown(k) => "unknown property '"@ + k@ + "'"@,
        }
    }

    /// The line that reports the issue.
    pub fn message(&self) -> (r: String)
        ensures
            r@ == self.issue_text(),
    {
        match self {
            PropertyIssue::Missing(k) => {
                let mut m = String::from_str("missing property '");
                m.append(k.as_str());
                m.append("'");
                m
            },
            PropertyIssue::NotAllowed { key, value, allowed } => {
                let mut m = String::from_str("property '");
                m.append(key.as_str());
                m.append("' has value '");
                m.append(value.as_str());
                m.append("' which is not in allowed values: ");
                let joined = crate::text::join_strings(allowed, ", ");
                m.append(joined.as_str());
                m
            },
            PropertyIssue::Unknown(k) => {
                let mut m = String::from_str("unknown property '");
                m.append(k.as_str());
                m.append("'");
                m
            },
        }
    }
}

/// The issues for the config's keys, in table order: a key not set, or set to a value it
/// does not allow.
pub open spec fn key_issues(
    table: Seq<(Seq<char>, Seq<Seq<char>>)>,
    shared: Map<Seq<char>, Seq<char>>,
) -> Seq<IssueView>
    decreases table.len(),
{
    if table.len() == 0 {
        Seq::empty()
    } else {
        let rest = key_issues(table.drop_last(), shared);
        let (k, allowed) = table.last();
        if !shared.contains_key(k) {
            rest.push(IssueView::Missing(k))
        } else if !allowed.contains(shared[k]) {
            rest.push(IssueView::NotAllowed(k, shared[k], allowed))
        } else {
            rest
        }
    }
}

/// The issues for the event's own keys, in its order: keys the config does not define.
pub open spec fn unknown_issues(keys: Seq<Seq<char>>, defined: Map<Seq<char>, Seq<Seq<char>>>) -> Seq<IssueView>
    decreases keys.len(),
{
    if keys.len() == 0 {
        Seq::empty()
    } else {
        let rest = unknown_issues(keys.drop_last(), defined);
        if defined.contains_key(keys.last()) {
            rest
        } else {
            rest.push(IssueView::Unknown(keys.last()))
        }
    }
}

/// The keys of an event's shared properties in their order (none when it has none).
pub open spec fn event_shared_keys(event: CalendarEvent) -> Seq<Seq<char>> {
    match event.extended_properties {
        Some(p) => match p.shared {
            Some(m) => m.key_seq(),
            None => Seq::empty(),
        },
        None => Seq::empty(),
    }
}

/// The issues, in terms of views.
pub open spec fn issue_views(issues: Seq<PropertyIssue>) -> Seq<IssueView> {
    issues.map_values(|i: PropertyIssue| i.issue_view())
}

proof fn lemma_concat_contains<A>(a: Seq<A>, b: Seq<A>, x: A)
    ensures
        (a + b).contains(x) <==> (a.contains(x) || b.contains(x)),
{
    if (a + b).contains(x) {
        let i = choose|i: int| 0 <= i < (a + b).len() && (a + b)[i] == x;
        if i < a.len() {
            assert(a[i] == x);
        } else {
            assert(b[i - a.len()] == x);
        }
    }
    if a.contains(x) {
        let i = choose|i: int| 0 <= i < a.len() && a[i] == x;
        assert((a + b)[i] == x);
    }
    if b.contains(x) {
        let i = choose|i: int| 0 <= i < b.len() && b[i] == x;
        assert((a + b)[i + a.len()] == x);
    }
}

proof fn lemma_push_contains<A>(a: Seq<A>, y: A, x: A)
    ensures
        a.push(y).contains(x) <==> (a.contains(x) || x == y),
{
    if a.push(y).contains(x) {
        let i = choose|i: int| 0 <= i < a.push(y).len() && a.push(y)[i] == x;
        if i < a.len() {
            assert(a[i] == x);
        }
    }
    if a.contains(x) {
        let i = choose|i: int| 0 <= i < a.len() && a[i] == x;
        assert(a.push(y)[i] == x);
    }
    if x == y {
        assert(a.push(y)[a.len() as int] == x);
    }
}

/// The unknown-key issues are those of the keys the table does not define.
proof fn lemma_unknown_issues(keys: Seq<Seq<char>>, defined: Map<Seq<char>, Seq<Seq<char>>>, k: Seq<char>)
    ensures
        unknown_issues(keys, defined).contains(IssueView::Unknown(k)) <==> (keys.contains(k) && !defined.contains_key(k)),
        !unknown_issues(keys, defined).contains(IssueView::Missing(k)),
    decreases keys.len(),
{
    if keys.len() > 0 {
        let rest = keys.drop_last();
        lemma_unknown_issues(rest, defined, k);
        lemma_push_contains(rest, keys.last(), k);
        assert(rest.push(keys.last()) =~= keys);
        let ri = unknown_issues(rest, defined);
        if !defined.contains_key(keys.last()) {
            lemma_push_contains(ri, IssueView::Unknown(keys.last()), IssueView::Unknown(k));
            lemma_push_contains(ri, IssueView::Unknown(keys.last()), IssueView::Missing(k));
        }
    }
}

/// The config's keys give missing issues exactly for those the event lacks, and no
/// unknown-key issue.
proof fn lemma_key_issues(table: Seq<(Seq<char>, Seq<Seq<char>>)>, shared: Map<Seq<char>, Seq<char>>, k: Seq<char>)
    ensures
        !key_issues(table, shared).contains(IssueView::Unknown(k)),
        key_issues(table, shared).contains(IssueView::Missing(k)) <==> (has_key(table, k) && !shared.contains_key(k)),
    decreases table.len(),
{
    if table.len() > 0 {
        let rest = table.drop_last();
        lemma_key_issues(rest, shared, k);
        let ri = key_issues(rest, shared);
        let (tk, allowed) = table.last();
        if !shared.contains_key(tk) {
            lemma_push_contains(ri, IssueView::Missing(tk), IssueView::Unknown(k));
            lemma_push_contains(ri, IssueView::Missing(tk), IssueView::Missing(k));
        } else if !allowed.contains(shared[tk]) {
            lemma_push_contains(ri, IssueView::NotAllowed(tk, shared[tk], allowed), IssueView::Unknown(k));
            lemma_push_contains(ri, IssueView::NotAllowed(tk, shared[tk], allowed), IssueView::Missing(k));
        }
        if has_key(table, k) {
            let i = choose|i: int| 0 <= i < table.len() && #[trigger] table[i].0 == k;
            if i < table.len() - 1 {
                assert(rest[i].0 == k);
            }
        }
        if has_key(rest, k) {
            let i = choose|i: int| 0 <= i < rest.len() && #[trigger] rest[i].0 == k;
            assert(table[i].0 == k);
        }
    }
}

/// `properties check` reports an `unknown property` issue for exactly the event's keys
/// that the `[properties]` table does not define (every one of them, in whatever place
/// it stands), and a `missing property` issue for exactly the table's keys that the event
/// lacks.
pub proof fn law_issues_name_unknown_and_missing_keys(event: CalendarEvent, properties: StringListMap, k: Seq<char>)
    ensures
        ({
            let issues = key_issues(properties.pairs(), event.shared_map()) + unknown_issues(
                event_shared_keys(event),
                properties@,
            );
            &&& issues.contains(IssueView::Unknown(k)) <==> (event.shared_map().contains_key(k)
                && !properties@.contains_key(k))
            &&& issues.contains(IssueView::Missing(k)) <==> (properties@.contains_key(k)
                && !event.shared_map().contains_key(k))
        }),
{
    let table = properties.pairs();
    let shared = event.shared_map();
    let keys = event_shared_keys(event);
    lemma_key_issues(table, shared, k);
    lemma_unknown_issues(keys, properties@, k);
    lemma_concat_contains(key_issues(table, shared), unknown_issues(keys, properties@), IssueView::Unknown(k));
    lemma_concat_contains(key_issues(table, shared), unknown_issues(keys, properties@), IssueView::Missing(k));
    lemma_string_list_domain(properties);
    match event.extended_properties {
        Some(p) => match p.shared {
            Some(m) => {
                lemma_key_seq_is_domain(m);
            },
            None => {},
        },
        None => {},
    }
}

/// What `properties check` reports for one event: the issues of the config's keys, then
/// those of the event's unknown keys.
pub fn property_issues(event: &CalendarEvent, properties: &StringListMap) -> (r: Vec<PropertyIssue>)
    ensures
        r@.map_values(|i: PropertyIssue| i.issue_view()) == key_issues(properties.pairs(), event.shared_map())
            + unknown_issues(event_shared_keys(*event), properties@),
        forall|k: Seq<char>| #[trigger] issue_views(r@).contains(IssueView::Unknown(k))
            <==> (event.shared_map().contains_key(k) && !properties@.contains_key(k)),
        forall|k: Seq<char>| #[trigger] issue_views(r@).contains(IssueView::Missing(k))
            <==> (properties@.contains_key(k) && !event.shared_map().contains_key(k)),
{
    let empty = PropertyMap::new();
    let shared: &PropertyMap = match event.shared() {
        Some(m) => m,
        None => &empty,
    };
    let mut out: Vec<PropertyIssue> = Vec::new();
    let n = properties.len();
    let mut i: usize = 0;
    while i < n
        invariant
            n == properties.pairs().len(),
            i <= n,
            shared@ == event.shared_map(),
            out@.map_values(|i: PropertyIssue| i.issue_view()) == key_issues(properties.pairs().take(i as int), shared@),
        decreases n - i,
    {
        let (key, allowed) = properties.entry_at(i);
        proof {
            assert(properties.pairs().take(i + 1).drop_last() =~= properties.pairs().take(i as int));
            assert(properties.pairs().take(i + 1).last() == properties.pairs()[i as int]);
        }
        let ghost old_out = out@;
        match shared.get(key.as_str()) {
            None => {
                out.push(PropertyIssue::Missing(key.clone()));
                assert(out@.map_values(|i: PropertyIssue| i.issue_view()) =~= old_out.map_values(|i: PropertyIssue| i.issue_view()).push(IssueView::Missing(key@)));
            },
            Some(value) => {
                if !list_contains(allowed, value.as_str()) {
                    out.push(PropertyIssue::NotAllowed { key: key.clone(), value: value.clone(), allowed: clone_strings(allowed) });
                    assert(out@.map_values(|i: PropertyIssue| i.issue_view()) =~= old_out.map_values(|i: PropertyIssue| i.issue_view()).push(IssueView::NotAllowed(key@, value@, strings_view(allowed@))));
                }
            },
        }
        i = i + 1;
    }
    assert(properties.pairs().take(n as int) =~= properties.pairs());
    let ghost prefix = out@.map_values(|i: PropertyIssue| i.issue_view());
    let keys: Vec<String> = match event.shared() {
        Some(m) => m.keys(),
        None => Vec::new(),
    };
    let ghost ks = seq_views(keys@);
    assert(ks == event_shared_keys(*event));
    let m = keys.len();
    let mut j: usize = 0;
    while j < m
        invariant
            m == keys@.len(),
            j <= m,
            ks == seq_views(keys@),
            out@.map_values(|i: PropertyIssue| i.issue_view()) == prefix + unknown_issues(ks.take(j as int), properties@),
        decreases m - j,
    {
        let key = &keys[j];
        proof {
            assert(ks.take(j + 1).drop_last() =~= ks.take(j as int));
            assert(ks.take(j + 1).last() == key@);
        }
        if !properties.contains_key(key.as_str()) {
            let ghost old_out = out@;
            out.push(PropertyIssue::Unknown(key.clone()));
            assert(out@.map_values(|i: PropertyIssue| i.issue_view()) =~= old_out.map_values(|i: PropertyIssue| i.issue_view()).push(IssueView::Unknown(key@)));
        }
        j = j + 1;
    }
    assert(ks.take(m as int) =~= ks);
    proof {
        assert forall|k: Seq<char>| #[trigger] issue_views(out@).contains(IssueView::Unknown(k))
            <==> (event.shared_map().contains_key(k) && !properties@.contains_key(k)) by {
            law_issues_name_unknown_and_missing_keys(*event, *properties, k);
        }
        assert forall|k: Seq<char>| #[trigger] issue_views(out@).contains(IssueView::Missing(k))
            <==> (properties@.contains_key(k) && !event.shared_map().contains_key(k)) by {
            law_issues_name_unknown_and_missing_keys(*event, *properties, k);
        }
    }
    out
}


// ---------------------------------------------------------------------------
// properties edit
// ---------------------------------------------------------------------------

/// The properties of one event while `properties edit` works on it.
#[derive(Debug)]
pub struct EditSession {
    /// The properties as they now stand.
    pub current: PropertyMap,
    /// The keys deleted so far, in order.
    pub deleted_keys: Vec<String>,
    /// Whether anything was set or deleted.
    pub changed: bool,
}

impl EditSession {
    /// Start editing an event's properties.
    pub fn new(current: PropertyMap) -> (r: Self)
        ensures
            r.current@ == current@,
            r.deleted_keys@.len() == 0,
            !r.changed,
    {
        EditSession { current, deleted_keys: Vec::new(), changed: false }
    }

    /// Set `key` to `value` (an `add` or `change` answered with a value); a key deleted
    /// before is no longer deleted.
    pub fn set_value(&mut self, key: String, value: String)
        ensures
            final(self).current@ == old(self).current@.insert(key@, value@),
            seq_views(final(self).deleted_keys@) == without_key(seq_views(old(self).deleted_keys@), key@),
            final(self).changed,
    {
        let ghost dk = seq_views(self.deleted_keys@);
        let ghost pred = |k: Seq<char>| k != key@;
        let mut kept: Vec<String> = Vec::new();
        let n = self.deleted_keys.len();
        let mut i: usize = 0;
        while i < n
            invariant
                n == self.deleted_keys@.len(),
                i <= n,
                dk == seq_views(self.deleted_keys@),
                pred == (|k: Seq<char>| k != key@),
                seq_views(kept@) == dk.take(i as int).filter(pred),
            decreases n - i,
        {
            let d = &self.deleted_keys[i];
            proof {
                assert(dk.take(i + 1) =~= dk.take(i as int).push(d@));
                dk.take(i as int).lemma_filter_push(d@, pred);
            }
            if !crate::text::str_eq(d.as_str(), key.as_str()) {
                let ghost before = seq_views(kept@);
                kept.push(d.clone());
                assert(seq_views(kept@) =~= before.push(d@));
            }
            i = i + 1;
        }
        assert(dk.take(n as int) =~= dk);
        assert(seq_views(kept@) == without_key(dk, key@));
        self.deleted_keys = kept;
        self.current.insert(key, value);
        self.changed = true;
    }

    /// Delete `key`.
    pub fn delete_key(&mut self, key: String)
        ensures
            final(self).current@ == old(self).current@.remove(key@),
            final(self).deleted_keys@ == old(self).deleted_keys@.push(key),
            final(self).changed,
    {
        let _ = self.current.remove(key.as_str());
        self.deleted_keys.push(key);
        self.changed = true;
    }

    /// Whether there is nothing to show: no property left and none deleted.
    pub fn shows_no_properties(&self) -> (r: bool)
        ensures
            r == (self.current@.len() == 0 && self.deleted_keys@.len() == 0),
    {
        self.current.is_empty() && self.deleted_keys.len() == 0
    }

    /// The patch to save when leaving the event: nothing when nothing changed, otherwise
    /// one that stores the current properties and deletes (with a JSON `null`) each
    /// deleted key that is not current, so the event's properties become the current ones.
    pub fn save_patch(&self) -> (r: Option<SharedPatch>)
        ensures
            match r {
                None => !self.changed,
                Some(p) => self.changed && (forall|k: Seq<char>|
                    #[trigger] patch_effect(p.patch_pairs()).contains_key(k) <==> (self.current@.contains_key(k)
                        || seq_views(self.deleted_keys@).contains(k))) && (forall|k: Seq<char>|
                    #[trigger] patch_effect(p.patch_pairs()).contains_key(k) ==> patch_effect(p.patch_pairs())[k]
                        == (if self.current@.contains_key(k) {
                        Some(self.current@[k])
                    } else {
                        None
                    })),
            },
    {
        if !self.changed {
            return None;
        }
        Some(properties_with_deletes_patch(&self.current, &self.deleted_keys))
    }

    /// Carry out a menu choice: `add` or `change` sets the key to `chosen` when a value
    /// was chosen, `delete` deletes the key, and `next event` and `quit` leave the
    /// properties as they are and end the event.
    pub fn apply(&mut self, action: &EditAction, chosen: Option<String>) -> (r: EditFlow)
        ensures
            match action.action_view() {
                EditActionView::Add(k) | EditActionView::Change(k) => r == EditFlow::Stay && match chosen {
                    Some(v) => final(self).current@ == old(self).current@.insert(k, v@)
                        && seq_views(final(self).deleted_keys@) == without_key(seq_views(old(self).deleted_keys@), k)
                        && final(self).changed,
                    None => *final(self) == *old(self),
                },
                EditActionView::Delete(k) => r == EditFlow::Stay && final(self).current@ == old(
                    self,
                ).current@.remove(k) && final(self).deleted_keys@.len() == old(self).deleted_keys@.len() + 1
                    && seq_views(final(self).deleted_keys@) == seq_views(old(self).deleted_keys@).push(k)
                    && final(self).changed,
                EditActionView::NextEvent => r == EditFlow::Next && *final(self) == *old(self),
                EditActionView::Quit => r == EditFlow::Quit && *final(self) == *old(self),
            },
    {
        match action {
            EditAction::Add(k) | EditAction::Change(k) => {
                if let Some(v) = chosen {
                    self.set_value(k.clone(), v);
                }
                EditFlow::Stay
            },
            EditAction::Delete(k) => {
                let ghost before = self.deleted_keys@;
                self.delete_key(k.clone());
                assert(seq_views(self.deleted_keys@) =~= seq_views(before).push(k@));
                EditFlow::Stay
            },
            EditAction::NextEvent => EditFlow::Next,
            EditAction::Quit => EditFlow::Quit,
        }
    }
}

/// The keys of `ks` other than `key`, in order.
pub open spec fn without_key(ks: Seq<Seq<char>>, key: Seq<char>) -> Seq<Seq<char>> {
    ks.filter(|k: Seq<char>| k != key)
}

/// Where the `properties edit` loop goes after a choice.
#[derive(Clone, Copy, Debug, PartialEq, Eq, Structural)]
pub enum EditFlow {
    /// Show the menu again.
    Stay,
    /// Save and go to the next event.
    Next,
    /// Save and stop.
    Quit,
}

/// The lines of the configured keys that are set, in key order: `key: value`.
pub open spec fn known_lines(keys: Seq<Seq<char>>, current: Map<Seq<char>, Seq<char>>) -> Seq<Seq<char>> {
    keys.filter(|k: Seq<char>| current.contains_key(k)).map_values(|k: Seq<char>| k + ": "@ + current[k])
}

/// The lines of the set keys that the config does not define, in the map's order:
/// `key: value (unknown)`.
pub open spec fn unknown_lines(pairs: Seq<(Seq<char>, Seq<char>)>, defined: Map<Seq<char>, Seq<Seq<char>>>) -> Seq<Seq<char>> {
    pairs.filter(|p: (Seq<char>, Seq<char>)| !defined.contains_key(p.0)).map_values(
        |p: (Seq<char>, Seq<char>)| p.0 + ": "@ + p.1 + " (unknown)"@,
    )
}

/// An optional field as a line: `label` and its text, or no line.
pub open spec fn optional_line(label: Seq<char>, field: Option<String>) -> Seq<Seq<char>> {
    match field {
        Some(t) => seq![label + t@],
        None => Seq::empty(),
    }
}

/// What `properties edit` shows of an event before each menu: its summary, start and
/// end, its location and description when it has them, then `(no properties)` when
/// nothing is set and nothing was deleted, otherwise the configured keys that are set
/// and the set keys that the config does not define.
pub open spec fn edit_view_lines(
    e: CalendarEvent,
    keys: Seq<Seq<char>>,
    current: PropertyMap,
    nothing_to_show: bool,
    defined: Map<Seq<char>, Seq<Seq<char>>>,
) -> Seq<Seq<char>> {
    seq![e.summary_text(), "start: "@ + described_or_unknown(e.start), "end:   "@ + described_or_unknown(e.end)]
        + optional_line("location: "@, e.location) + optional_line("description: "@, e.description) + if nothing_to_show {
        seq!["(no properties)"@]
    } else {
        known_lines(keys, current@) + unknown_lines(current.pairs(), defined)
    }
}

fn push_optional(out: &mut Vec<String>, label: &str, field: &Option<String>)
    ensures
        seq_views(final(out)@) == seq_views(old(out)@) + optional_line(label@, *field),
{
    let ghost before = seq_views(out@);
    match field {
        Some(t) => {
            let mut line = String::from_str(label);
            line.append(t.as_str());
            out.push(line);
            assert(seq_views(out@) =~= before + optional_line(label@, *field));
        },
        None => {
            assert(seq_views(out@) =~= before + optional_line(label@, *field));
        },
    }
}

/// The configured keys that are set, as lines.
fn known_key_lines(keys: &Vec<String>, current: &PropertyMap) -> (r: Vec<String>)
    ensures
        seq_views(r@) == known_lines(seq_views(keys@), current@),
{
    let ghost ks = seq_views(keys@);
    let ghost pred = |k: Seq<char>| current@.contains_key(k);
    let ghost f = |k: Seq<char>| k + ": "@ + current@[k];
    let mut out: Vec<String> = Vec::new();
    let n = keys.len();
    let mut i: usize = 0;
    while i < n
        invariant
            n == keys@.len(),
            i <= n,
            ks == seq_views(keys@),
            pred == (|k: Seq<char>| current@.contains_key(k)),
            f == (|k: Seq<char>| k + ": "@ + current@[k]),
            seq_views(out@) == ks.take(i as int).filter(pred).map_values(f),
        decreases n - i,
    {
        let key = &keys[i];
        proof {
            assert(ks.take(i + 1) =~= ks.take(i as int).push(key@));
            ks.take(i as int).lemma_filter_push(key@, pred);
        }
        if let Some(v) = current.get(key.as_str()) {
            let ghost before = seq_views(out@);
            let mut line = key.clone();
            line.append(": ");
            line.append(v.as_str());
            out.push(line);
            proof {
                assert(pred(key@));
                assert(ks.take(i + 1).filter(pred) == ks.take(i as int).filter(pred).push(key@));
                assert(seq_views(out@) =~= before.push(f(key@)));
                assert(ks.take(i as int).filter(pred).push(key@).map_values(f) =~= before.push(f(key@)));
            }
        } else {
            assert(ks.take(i + 1).filter(pred) == ks.take(i as int).filter(pred));
        }
        i = i + 1;
    }
    assert(ks.take(n as int) =~= ks);
    out
}

/// The set keys that the config does not define, as lines.
fn unknown_key_lines(current: &PropertyMap, defined: &StringListMap) -> (r: Vec<String>)
    ensures
        seq_views(r@) == unknown_lines(current.pairs(), defined@),
{
    let pairs = current.to_pairs();
    let ghost ps = current.pairs();
    let ghost pred = |p: (Seq<char>, Seq<char>)| !defined@.contains_key(p.0);
    let ghost f = |p: (Seq<char>, Seq<char>)| p.0 + ": "@ + p.1 + " (unknown)"@;
    let mut out: Vec<String> = Vec::new();
    let n = pairs.len();
    let mut i: usize = 0;
    while i < n
        invariant
            n == pairs@.len(),
            i <= n,
            ps == current.pairs(),
            pairs@.map_values(|p: (String, String)| (p.0@, p.1@)) == ps,
            pred == (|p: (Seq<char>, Seq<char>)| !defined@.contains_key(p.0)),
            f == (|p: (Seq<char>, Seq<char>)| p.0 + ": "@ + p.1 + " (unknown)"@),
            seq_views(out@) == ps.take(i as int).filter(pred).map_values(f),
        decreases n - i,
    {
        let (k, v) = (&pairs[i].0, &pairs[i].1);
        proof {
            assert(ps[i as int] == (k@, v@));
            assert(ps.take(i + 1) =~= ps.take(i as int).push(ps[i as int]));
            ps.take(i as int).lemma_filter_push(ps[i as int], pred);
        }
        if !defined.contains_key(k.as_str()) {
            let ghost before = seq_views(out@);
            let mut line = k.clone();
            line.append(": ");
            line.append(v.as_str());
            line.append(" (unknown)");
            out.push(line);
            proof {
                let p = ps[i as int];
                assert(pred(p));
                assert(ps.take(i + 1).filter(pred) == ps.take(i as int).filter(pred).push(p));
                assert(seq_views(out@) =~= before.push(f(p)));
                assert(ps.take(i as int).filter(pred).push(p).map_values(f) =~= before.push(f(p)));
            }
        } else {
            assert(ps.take(i + 1).filter(pred) == ps.take(i as int).filter(pred));
        }
        i = i + 1;
    }
    assert(ps.take(n as int) =~= ps);
    out
}

impl EditSession {
    /// What `properties edit` shows of the event before each menu.
    pub fn view_lines(&self, event: &CalendarEvent, sorted_keys: &Vec<String>, properties: &StringListMap) -> (r: Vec<String>)
        ensures
            seq_views(r@) == edit_view_lines(
                *event,
                seq_views(sorted_keys@),
                self.current,
                self.current@.len() == 0 && self.deleted_keys@.len() == 0,
                properties@,
            ),
    {
        let mut out: Vec<String> = Vec::new();
        out.push(String::from_str(event.summary_or_default()));
        let mut start = String::from_str("start: ");
        let start_text = event.start_str();
        start.append(start_text.as_str());
        out.push(start);
        let mut end = String::from_str("end:   ");
        let end_text = event.end_str();
        end.append(end_text.as_str());
        out.push(end);
        assert(seq_views(out@) =~= seq![event.summary_text(), "start: "@ + described_or_unknown(event.start), "end:   "@ + described_or_unknown(event.end)]);
        push_optional(&mut out, "location: ", &event.location);
        push_optional(&mut out, "description: ", &event.description);
        let ghost head = seq_views(out@);
        if self.shows_no_properties() {
            out.push(String::from_str("(no properties)"));
            assert(seq_views(out@) =~= head + seq!["(no properties)"@]);
        } else {
            let known = known_key_lines(sorted_keys, &self.current);
            let unknown = unknown_key_lines(&self.current, properties);
            let mut k: usize = 0;
            while k < known.len()
                invariant
                    k <= known@.len(),
                    seq_views(out@) == head + seq_views(known@).take(k as int),
                decreases known@.len() - k,
            {
                let ghost before = seq_views(out@);
                out.push(known[k].clone());
                assert(seq_views(out@) =~= before.push(known@[k as int]@));
                assert(seq_views(known@).take(k + 1) =~= seq_views(known@).take(k as int).push(known@[k as int]@));
                k = k + 1;
            }
            assert(seq_views(known@).take(known@.len() as int) =~= seq_views(known@));
            let ghost mid = seq_views(out@);
            let mut u: usize = 0;
            while u < unknown.len()
                invariant
                    u <= unknown@.len(),
                    seq_views(out@) == mid + seq_views(unknown@).take(u as int),
                decreases unknown@.len() - u,
            {
                let ghost before = seq_views(out@);
                out.push(unknown[u].clone());
                assert(seq_views(out@) =~= before.push(unknown@[u as int]@));
                assert(seq_views(unknown@).take(u + 1) =~= seq_views(unknown@).take(u as int).push(unknown@[u as int]@));
                u = u + 1;
            }
            assert(seq_views(unknown@).take(unknown@.len() as int) =~= seq_views(unknown@));
            assert(seq_views(out@) =~= head + (seq_views(known@) + seq_views(unknown@)));
        }
        out
    }
}

/// A choice of the `properties edit` menu.
#[derive(Debug)]
pub enum EditAction {
    Change(String),
    Delete(String),
    Add(String),
    NextEvent,
    Quit,
}

/// A menu choice, in terms of views.
pub enum EditActionView {
    Change(Seq<char>),
    Delete(Seq<char>),
    Add(Seq<char>),
    NextEvent,
    Quit,
}

impl EditAction {
    pub open spec fn action_view(self) -> EditActionView {
        match self {
            EditAction::Change(k) => EditActionView::Change(k@),
            EditAction::Delete(k) => EditActionView::Delete(k@),
            EditAction::Add(k) => EditActionView::Add(k@),
            EditAction::NextEvent => EditActionView::NextEvent,
            EditAction::Quit => EditActionView::Quit,
        }
    }

    /// The menu line of the choice.
    pub fn label(&self) -> (r: String)
        ensures
            r@ == (match self {
                EditAction::Change(k) => "change '"@ + k@ + "'"@,
                EditAction::Delete(k) => "delete '"@ + k@ + "'"@,
                EditAction::Add(k) => "add '"@ + k@ + "'"@,
                EditAction::NextEvent => "next event"@,
                EditAction::Quit => "quit"@,
            }),
    {
        let (prefix, key) = match self {
            EditAction::Change(k) => ("change '", k),
            EditAction::Delete(k) => ("delete '", k),
            EditAction::Add(k) => ("add '", k),
            EditAction::NextEvent => {
                return String::from_str("next event");
            },
            EditAction::Quit => {
                return String::from_str("quit");
            },
        };
        let mut m = String::from_str(prefix);
        m.append(key.as_str());
        m.append("'");
        m
    }
}

/// The choices for the keys, in key order: change and delete for a key that is set, add
/// for one that is not.
pub open spec fn key_actions(keys: Seq<Seq<char>>, current: Map<Seq<char>, Seq<char>>) -> Seq<EditActionView>
    decreases keys.len(),
{
    if keys.len() == 0 {
        Seq::empty()
    } else {
        let rest = key_actions(keys.drop_last(), current);
        let k = keys.last();
        if current.contains_key(k) {
            rest.push(EditActionView::Change(k)).push(EditActionView::Delete(k))
        } else {
            rest.push(EditActionView::Add(k))
        }
    }
}

/// The `properties edit` menu for an event: the choices for each configured key in
/// order, then `next event` and `quit`.
pub fn edit_menu(sorted_keys: &Vec<String>, current: &PropertyMap) -> (r: Vec<EditAction>)
    ensures
        r@.map_values(|a: EditAction| a.action_view()) == key_actions(seq_views(sorted_keys@), current@)
            .push(EditActionView::NextEvent).push(EditActionView::Quit),
{
    let ghost ks = seq_views(sorted_keys@);
    let mut out: Vec<EditAction> = Vec::new();
    let n = sorted_keys.len();
    let mut i: usize = 0;
    while i < n
        invariant
            n == sorted_keys@.len(),
            i <= n,
            ks == seq_views(sorted_keys@),
            out@.map_values(|a: EditAction| a.action_view()) == key_actions(ks.take(i as int), current@),
        decreases n - i,
    {
        let key = &sorted_keys[i];
        proof {
            assert(ks.take(i + 1).drop_last() =~= ks.take(i as int));
            assert(ks.take(i + 1).last() == key@);
        }
        let ghost old_out = out@;
        if current.contains_key(key.as_str()) {
            out.push(EditAction::Change(key.clone()));
            out.push(EditAction::Delete(key.clone()));
            assert(out@.map_values(|a: EditAction| a.action_view()) =~= old_out.map_values(|a: EditAction| a.action_view()).push(EditActionView::Change(key@)).push(EditActionView::Delete(key@)));
        } else {
            out.push(EditAction::Add(key.clone()));
            assert(out@.map_values(|a: EditAction| a.action_view()) =~= old_out.map_values(|a: EditAction| a.action_view()).push(EditActionView::Add(key@)));
        }
        i = i + 1;
    }
    assert(ks.take(n as int) =~= ks);
    let ghost before = out@;
    out.push(EditAction::NextEvent);
    out.push(EditAction::Quit);
    assert(out@.map_values(|a: EditAction| a.action_view()) =~= before.map_values(|a: EditAction| a.action_view()).push(EditActionView::NextEvent).push(EditActionView::Quit));
    out
}


/// The lines that `properties check` prints for an event: nothing when it has no issue,
/// otherwise its summary and start, then each issue on an indented `- ` line.
pub open spec fn issue_report_lines(summary: Seq<char>, start: Seq<char>, issues: Seq<PropertyIssue>) -> Seq<Seq<char>> {
    if issues.len() == 0 {
        Seq::empty()
    } else {
        seq![summary + " ("@ + start + "):"@] + issues.map_values(|i: PropertyIssue| "  - "@ + i.issue_text())
    }
}

/// The lines that report an event's property issues.
pub fn issue_report(summary: &str, start: &str, issues: &Vec<PropertyIssue>) -> (r: Vec<String>)
    ensures
        seq_views(r@) == issue_report_lines(summary@, start@, issues@),
{
    let mut out: Vec<String> = Vec::new();
    let n = issues.len();
    if n == 0 {
        assert(seq_views(out@) =~= Seq::<Seq<char>>::empty());
        return out;
    }
    let mut head = String::from_str(summary);
    head.append(" (");
    head.append(start);
    head.append("):");
    out.push(head);
    let mut i: usize = 0;
    while i < n
        invariant
            n == issues@.len(),
            i <= n,
            out@.len() == i + 1,
            out@[0]@ == summary@ + " ("@ + start@ + "):"@,
            forall|j: int| 0 <= j < i ==> #[trigger] out@[j + 1]@ == "  - "@ + issues@[j].issue_text(),
        decreases n - i,
    {
        let mut line = String::from_str("  - ");
        let text = issues[i].message();
        line.append(text.as_str());
        out.push(line);
        proof {
            assert(out@[i + 1]@ == "  - "@ + issues@[i as int].issue_text());
        }
        i = i + 1;
    }
    proof {
        let rhs = seq![summary@ + " ("@ + start@ + "):"@] + issues@.map_values(
            |x: PropertyIssue| "  - "@ + x.issue_text(),
        );
        assert forall|j: int| 0 <= j < out@.len() implies #[trigger] seq_views(out@)[j] == rhs[j] by {
            if j > 0 {
                assert(out@[(j - 1) + 1]@ == "  - "@ + issues@[j - 1].issue_text());
            }
        }
        assert(seq_views(out@) =~= rhs);
    }
    out
}

/// The count of `properties check` after an event: the issues so far and the event's.
pub fn add_issues(issues: u32, found: &Vec<PropertyIssue>) -> (r: u32)
    requires
        issues + found@.len() <= u32::MAX,
    ensures
        r == issues + found@.len(),
{
    issues + found.len() as u32
}

/// The closing lines of `properties check` with `issues` issues over `total` events.
pub open spec fn properties_check_summary_lines(issues: nat, total: nat) -> Seq<Seq<char>> {
    if issues == 0 {
        seq!["All "@ + decimal(total) + " event(s) have valid properties."@]
    } else {
        seq![Seq::<char>::empty(), decimal(issues) + " issue(s) found across "@ + decimal(total) + " event(s)."@]
    }
}

/// The closing lines of `properties check`.
pub fn properties_check_summary(issues: u32, total: usize) -> (r: Vec<String>)
    ensures
        seq_views(r@) == properties_check_summary_lines(issues as nat, total as nat),
{
    let mut out: Vec<String> = Vec::new();
    let count = decimal_text(total as u64);
    if issues == 0 {
        let mut line = String::from_str("All ");
        line.append(count.as_str());
        line.append(" event(s) have valid properties.");
        out.push(line);
    } else {
        out.push(String::new());
        let mut line = decimal_text(issues as u64);
        line.append(" issue(s) found across ");
        line.append(count.as_str());
        line.append(" event(s).");
        out.push(line);
    }
    assert(seq_views(out@) =~= properties_check_summary_lines(issues as nat, total as nat));
    out
}

} // verus!
