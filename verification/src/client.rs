use vstd::prelude::*;

use crate::config::Config;
use crate::models::{clone_opt, opt_view, CalendarListEntry};
use crate::props::{has_key, keys_distinct, lemma_pairs_push, pairs_to_map, PropertyMap};
use crate::text::seq_views;
use crate::helpers::opt_str_view;
use crate::text::{join_strings, seq_join, str_eq};

verus! {

// ---------------------------------------------------------------------------
// Finding calendars by name
// ---------------------------------------------------------------------------

/// Why a calendar could not be picked.
#[derive(Debug)]
pub enum CalendarError {
    /// Neither a name was given nor a default set in the config.
    NoCalendarName,
    /// No calendar has this name.
    NotFound(String),
    /// Several calendars have this name; their ids (or `<no id>`) are given in list order.
    Ambiguous { name: String, ids: Vec<String> },
    /// The calendar found has no id.
    NoId,
}

impl CalendarError {
    /// The message that reports the error.
    pub fn message(&self) -> (r: String)
        ensures
            r@ == (match self {
                CalendarError::NoCalendarName => "no calendar name specified; use --calendar-name or set calendar_name in config.toml"@,
                CalendarError::NotFound(n) => "no calendar named '"@ + n@ + "' found"@,
                CalendarError::Ambiguous { name, ids } => "multiple calendars named '"@ + name@
                    + "' found (IDs: "@ + seq_join(ids@.map_values(|s: String| s@), ", "@)
                    + "); use a unique calendar name"@,
                CalendarError::NoId => "calendar has no id"@,
            }),
    {
        match self {
            CalendarError::NoCalendarName => String::from_str(
                "no calendar name specified; use --calendar-name or set calendar_name in config.toml",
            ),
            CalendarError::NotFound(n) => {
                let mut m = String::from_str("no calendar named '");
                m.append(n.as_str());
                m.append("' found");
                m
            },
            CalendarError::Ambiguous { name, ids } => {
                let mut m = String::from_str("multiple calendars named '");
                m.append(name.as_str());
                m.append("' found (IDs: ");
                let joined = join_strings(ids, ", ");
                m.append(joined.as_str());
                m.append("); use a unique calendar name");
                m
            },
            CalendarError::NoId => String::from_str("calendar has no id"),
        }
    }
}

/// The calendar has the summary `name`.
pub open spec fn has_name(c: CalendarListEntry, name: Seq<char>) -> bool {
    opt_view(c.summary) == Some(name)
}

/// The calendars named `name`, in list order.
pub open spec fn named_calendars(cals: Seq<CalendarListEntry>, name: Seq<char>) -> Seq<CalendarListEntry> {
    cals.filter(|c: CalendarListEntry| has_name(c, name))
}

/// The id of a calendar, or `<no id>`.
pub open spec fn id_or_placeholder(c: CalendarListEntry) -> Seq<char> {
    match c.id {
        Some(id) => id@,
        None => "<no id>"@,
    }
}

/// The calendar name a command uses: the one given, else the config's default.
pub open spec fn chosen_calendar_name(name: Option<&str>, config: Config) -> Option<Seq<char>> {
    match name {
        Some(n) => Some(n@),
        None => opt_view(config.calendar_name),
    }
}

/// A calendar name given on the command line always wins over the config's
/// `calendar_name`: whatever the config holds, the given name is the one used.
pub proof fn law_flag_overrides_config(flag: &str, config: Config)
    ensures
        chosen_calendar_name(Some(flag), config) == Some(flag@),
{
}

/// The id that a name resolves to: the id of the only calendar with that name, when
/// exactly one has it and it has an id.
pub open spec fn resolved_id(cals: Seq<CalendarListEntry>, name: Seq<char>) -> Option<Seq<char>> {
    let found = named_calendars(cals, name);
    if found.len() == 1 {
        match found[0].id {
            Some(id) => Some(id@),
            None => None,
        }
    } else {
        None
    }
}

/// Filtering keeps the count of each kept element and drops the others.
proof fn lemma_filter_counts<A>(s: Seq<A>, p: spec_fn(A) -> bool, v: A)
    ensures
        s.filter(p).to_multiset().count(v) == (if p(v) {
            s.to_multiset().count(v)
        } else {
            0
        }),
    decreases s.len(),
{
    broadcast use vstd::multiset::group_multiset_axioms, vstd::seq_lib::group_to_multiset_ensures;

    reveal(Seq::filter);
    if s.len() == 0 {
        assert(s.filter(p) =~= s);
    } else {
        let t = s.drop_last();
        lemma_filter_counts(t, p, v);
        assert(t.push(s.last()) =~= s);
        assert(s.to_multiset() == t.to_multiset().insert(s.last()));
        if p(s.last()) {
            assert(s.filter(p) == t.filter(p).push(s.last()));
            assert(s.filter(p).to_multiset() == t.filter(p).to_multiset().insert(s.last()));
        } else {
            assert(s.filter(p) == t.filter(p));
        }
    }
}

/// The calendar list is a set of calendars: in whatever order the API lists them, the
/// same number of calendars carry a name, and the name resolves to the same id (so
/// `resolve_calendar_id` succeeds on both lists or on neither, with the same id).
pub proof fn law_resolution_ignores_order(c1: Seq<CalendarListEntry>, c2: Seq<CalendarListEntry>, name: Seq<char>)
    requires
        c1.to_multiset() == c2.to_multiset(),
    ensures
        named_calendars(c1, name).len() == named_calendars(c2, name).len(),
        resolved_id(c1, name) == resolved_id(c2, name),
{
    broadcast use vstd::multiset::group_multiset_axioms, vstd::seq_lib::group_to_multiset_ensures;

    let p = |c: CalendarListEntry| has_name(c, name);
    let f1 = c1.filter(p);
    let f2 = c2.filter(p);
    assert(named_calendars(c1, name) == f1);
    assert(named_calendars(c2, name) == f2);
    assert forall|v: CalendarListEntry| f1.to_multiset().count(v) == f2.to_multiset().count(v) by {
        lemma_filter_counts(c1, p, v);
        lemma_filter_counts(c2, p, v);
    }
    assert(f1.to_multiset() =~= f2.to_multiset());
    assert(f1.len() == f1.to_multiset().len());
    assert(f2.len() == f2.to_multiset().len());
    if f1.len() == 1 {
        assert(f1.contains(f1[0]));
        assert(f2.to_multiset().count(f1[0]) > 0);
        assert(f2.contains(f1[0]));
        assert(f2[0] == f1[0]);
    }
}

/// Find the id of the calendar a command works on: the calendar named by `name` or, when
/// no name is given, by the config's `calendar_name`. The name must belong to exactly one
/// calendar, and that calendar must have an id.
pub fn resolve_calendar_id<'a>(
    calendars: &'a [CalendarListEntry],
    name: Option<&str>,
    config: &Config,
) -> (r: Result<&'a str, CalendarError>)
    ensures
        match chosen_calendar_name(name, *config) {
            None => r matches Err(CalendarError::NoCalendarName),
            Some(n) => {
                let found = named_calendars(calendars@, n);
                if found.len() == 0 {
                    r matches Err(CalendarError::NotFound(m)) && m@ == n
                } else if found.len() > 1 {
                    r matches Err(CalendarError::Ambiguous { name: m, ids }) && m@ == n
                        && ids@.map_values(|s: String| s@) == found.map_values(
                        |c: CalendarListEntry| id_or_placeholder(c),
                    )
                } else {
                    match found[0].id {
                        Some(id) => r matches Ok(s) && s@ == id@,
                        None => r matches Err(CalendarError::NoId),
                    }
                }
            },
        },
        match r {
            Ok(s) => chosen_calendar_name(name, *config) matches Some(n) && resolved_id(calendars@, n) == Some(s@),
            Err(_) => chosen_calendar_name(name, *config) is None || resolved_id(
                calendars@,
                chosen_calendar_name(name, *config)->0,
            ) is None,
        },
{
    let name: &str = match name {
        Some(n) => n,
        None => match &config.calendar_name {
            Some(n) => n.as_str(),
            None => {
                return Err(CalendarError::NoCalendarName);
            },
        },
    };
    let ghost n = name@;
    let ghost pred = |c: CalendarListEntry| has_name(c, n);
    let mut matches: Vec<usize> = Vec::new();
    let len = calendars.len();
    let mut i: usize = 0;
    while i < len
        invariant
            len == calendars@.len(),
            i <= len,
            n == name@,
            pred == (|c: CalendarListEntry| has_name(c, n)),
            matches@.map_values(|j: usize| calendars@[j as int]) == calendars@.take(i as int).filter(pred),
            forall|k: int| 0 <= k < matches@.len() ==> #[trigger] matches@[k] < i,
        decreases len - i,
    {
        let is_named = match &calendars[i].summary {
            Some(s) => str_eq(s.as_str(), name),
            None => false,
        };
        proof {
            assert(calendars@.take(i + 1) =~= calendars@.take(i as int).push(calendars@[i as int]));
            calendars@.take(i as int).lemma_filter_push(calendars@[i as int], pred);
        }
        if is_named {
            matches.push(i);
            assert(matches@.map_values(|j: usize| calendars@[j as int]) =~= calendars@.take(i as int).filter(pred).push(calendars@[i as int]));
        }
        i = i + 1;
    }
    assert(calendars@.take(len as int) =~= calendars@);
    let ghost found = named_calendars(calendars@, n);
    assert(found == matches@.map_values(|j: usize| calendars@[j as int]));
    if matches.len() == 0 {
        return Err(CalendarError::NotFound(String::from_str(name)));
    }
    if matches.len() > 1 {
        let mut ids: Vec<String> = Vec::new();
        let m = matches.len();
        let mut k: usize = 0;
        while k < m
            invariant
                m == matches@.len(),
                k <= m,
                len == calendars@.len(),
                forall|t: int| 0 <= t < matches@.len() ==> #[trigger] matches@[t] < len,
                ids@.len() == k,
                forall|t: int| 0 <= t < k ==> #[trigger] ids@[t]@ == id_or_placeholder(calendars@[matches@[t] as int]),
            decreases m - k,
        {
            let id = match &calendars[matches[k]].id {
                Some(id) => id.clone(),
                None => String::from_str("<no id>"),
            };
            ids.push(id);
            k = k + 1;
        }
        assert(ids@.map_values(|s: String| s@) =~= found.map_values(|c: CalendarListEntry| id_or_placeholder(c)));
        return Err(CalendarError::Ambiguous { name: String::from_str(name), ids });
    }
    assert(found[0] == calendars@[matches@[0] as int]);
    match &calendars[matches[0]].id {
        Some(id) => Ok(id.as_str()),
        None => Err(CalendarError::NoId),
    }
}

/// `i` is the position of the first calendar named `name`.
pub open spec fn first_named(cals: Seq<CalendarListEntry>, name: Seq<char>, i: int) -> bool {
    &&& 0 <= i < cals.len()
    &&& has_name(cals[i], name)
    &&& forall|j: int| 0 <= j < i ==> !has_name(#[trigger] cals[j], name)
}

/// Find the id of the first calendar named `name` (how `calendar copy` and `move-events`
/// pick their source and target).
pub fn find_calendar_id<'a>(calendars: &'a [CalendarListEntry], name: &str) -> (r: Result<
    &'a str,
    CalendarError,
>)
    ensures
        match r {
            Ok(id) => exists|i: int|
                #[trigger] first_named(calendars@, name@, i) && (calendars@[i].id matches Some(s)
                    && s@ == id@),
            Err(CalendarError::NotFound(m)) => m@ == name@ && forall|i: int|
                0 <= i < calendars@.len() ==> !has_name(#[trigger] calendars@[i], name@),
            Err(CalendarError::NoId) => exists|i: int|
                #[trigger] first_named(calendars@, name@, i) && calendars@[i].id is None,
            Err(_) => false,
        },
{
    let len = calendars.len();
    let mut i: usize = 0;
    while i < len
        invariant
            len == calendars@.len(),
            i <= len,
            forall|j: int| 0 <= j < i ==> !has_name(#[trigger] calendars@[j], name@),
        decreases len - i,
    {
        let is_named = match &calendars[i].summary {
            Some(s) => str_eq(s.as_str(), name),
            None => false,
        };
        if is_named {
            assert(first_named(calendars@, name@, i as int));
            return match &calendars[i].id {
                Some(id) => Ok(id.as_str()),
                None => Err(CalendarError::NoId),
            };
        }
        i = i + 1;
    }
    Err(CalendarError::NotFound(String::from_str(name)))
}


// ---------------------------------------------------------------------------
// Request URLs
// ---------------------------------------------------------------------------

/// The root of the Google Calendar REST API.
pub const API_BASE: &'static str = "https://www.googleapis.com/calendar/v3";

/// The bytes that URL encoding leaves as they are: ASCII letters, digits and `-._~`.
pub open spec fn url_unreserved(b: u8) -> bool {
    ||| 0x30 <= b <= 0x39
    ||| 0x41 <= b <= 0x5A
    ||| 0x61 <= b <= 0x7A
    ||| b == 0x2D
    ||| b == 0x2E
    ||| b == 0x5F
    ||| b == 0x7E
}

/// An upper-case hexadecimal digit (0 to 15).
pub open spec fn hex_digit(n: int) -> char {
    if n < 10 {
        (n + 0x30) as char
    } else {
        (n - 10 + 0x41) as char
    }
}

/// How one byte is written in a URL: as itself, or as `%` and two hex digits.
pub open spec fn url_byte_text(b: u8) -> Seq<char> {
    if url_unreserved(b) {
        seq![b as char]
    } else {
        seq!['%', hex_digit(b as int / 16), hex_digit(b as int % 16)]
    }
}

/// Percent-encoding of a byte string.
pub open spec fn url_encode_bytes(bs: Seq<u8>) -> Seq<char>
    decreases bs.len(),
{
    if bs.len() == 0 {
        Seq::empty()
    } else {
        url_encode_bytes(bs.drop_last()) + url_byte_text(bs.last())
    }
}

/// Percent-encoding of a text, byte by byte of its UTF-8 form.
pub open spec fn url_encoded(s: Seq<char>) -> Seq<char> {
    url_encode_bytes(vstd::utf8::encode_utf8(s))
}

/// Calls `urlencoding::encode`.
///
/// Claimed: the exact encoding that the crate documents and its source performs: every
/// byte of the UTF-8 form except ASCII letters, digits and `-._~` becomes `%` and two
/// upper-case hex digits.
#[verifier::external_body]
fn url_encode(s: &str) -> (r: String)
    ensures
        r@ == url_encoded(s@),
{
    urlencoding::encode(s).into_owned()
}

/// A text of ASCII letters, digits and `-._~` is its own URL encoding.
pub proof fn lemma_url_encode_unreserved(s: Seq<char>)
    requires
        forall|i: int| 0 <= i < s.len() ==> '\0' <= #[trigger] s[i] <= '\u{7f}' && url_unreserved(s[i] as u8),
    ensures
        url_encoded(s) == s,
    decreases s.len(),
{
    vstd::utf8::is_ascii_chars_encode_utf8(s);
    let bs = vstd::utf8::encode_utf8(s);
    assert(bs =~= Seq::new(s.len(), |i| s[i] as u8));
    lemma_url_encode_bytes_identity(bs, s);
}

proof fn lemma_url_encode_bytes_identity(bs: Seq<u8>, s: Seq<char>)
    requires
        bs.len() == s.len(),
        forall|i: int| 0 <= i < s.len() ==> '\0' <= #[trigger] s[i] <= '\u{7f}' && url_unreserved(s[i] as u8),
        forall|i: int| 0 <= i < s.len() ==> #[trigger] bs[i] == s[i] as u8,
    ensures
        url_encode_bytes(bs) == s,
    decreases bs.len(),
{
    if bs.len() > 0 {
        lemma_url_encode_bytes_identity(bs.drop_last(), s.drop_last());
        let k = s.len() - 1;
        assert(s[k] as u8 as char == s[k]);
        assert(url_encode_bytes(bs) =~= s);
    } else {
        assert(s =~= Seq::<char>::empty());
    }
}

/// `API_BASE` followed by `path`.
pub open spec fn api_url(path: Seq<char>) -> Seq<char> {
    API_BASE@ + path
}

/// The URL that creates calendars.
pub fn calendars_url() -> (r: String)
    ensures
        r@ == api_url("/calendars"@),
{
    let mut u = String::from_str(API_BASE);
    u.append("/calendars");
    u
}

/// The URL of the user's calendar list.
pub fn calendar_list_url() -> (r: String)
    ensures
        r@ == api_url("/users/me/calendarList"@),
{
    let mut u = String::from_str(API_BASE);
    u.append("/users/me/calendarList");
    u
}

/// The URL of one calendar.
pub fn calendar_url(calendar_id: &str) -> (r: String)
    ensures
        r@ == api_url("/calendars/"@ + url_encoded(calendar_id@)),
{
    let mut u = String::from_str(API_BASE);
    u.append("/calendars/");
    let e = url_encode(calendar_id);
    u.append(e.as_str());
    proof {
        assert(u@ =~= api_url("/calendars/"@ + url_encoded(calendar_id@)));
    }
    u
}

/// The URL of a calendar's access control list.
pub fn calendar_acl_url(calendar_id: &str) -> (r: String)
    ensures
        r@ == api_url("/calendars/"@ + url_encoded(calendar_id@) + "/acl"@),
{
    let mut u = calendar_url(calendar_id);
    u.append("/acl");
    proof {
        assert(u@ =~= api_url("/calendars/"@ + url_encoded(calendar_id@) + "/acl"@));
    }
    u
}

/// The URL of a calendar's events.
pub fn events_url(calendar_id: &str) -> (r: String)
    ensures
        r@ == api_url("/calendars/"@ + url_encoded(calendar_id@) + "/events"@),
{
    let mut u = calendar_url(calendar_id);
    u.append("/events");
    proof {
        assert(u@ =~= api_url("/calendars/"@ + url_encoded(calendar_id@) + "/events"@));
    }
    u
}

/// The URL of one event.
pub fn event_url(calendar_id: &str, event_id: &str) -> (r: String)
    ensures
        r@ == api_url("/calendars/"@ + url_encoded(calendar_id@) + "/events/"@ + url_encoded(event_id@)),
{
    let mut u = calendar_url(calendar_id);
    u.append("/events/");
    let e = url_encode(event_id);
    u.append(e.as_str());
    proof {
        assert(u@ =~= api_url("/calendars/"@ + url_encoded(calendar_id@) + "/events/"@ + url_encoded(event_id@)));
    }
    u
}


// ---------------------------------------------------------------------------
// Changes to shared properties
// ---------------------------------------------------------------------------

/// The change that a patch of shared properties makes, applied pair by pair with later
/// pairs winning: a key mapped to a value is set, a key mapped to nothing (JSON `null`)
/// is deleted.
pub open spec fn patch_effect(ps: Seq<(Seq<char>, Option<Seq<char>>)>) -> Map<Seq<char>, Option<Seq<char>>>
    decreases ps.len(),
{
    if ps.len() == 0 {
        Map::empty()
    } else {
        patch_effect(ps.drop_last()).insert(ps.last().0, ps.last().1)
    }
}

/// Pairs that set each key to its value.
pub open spec fn setting_pairs(ps: Seq<(Seq<char>, Seq<char>)>) -> Seq<(Seq<char>, Option<Seq<char>>)> {
    ps.map_values(|p: (Seq<char>, Seq<char>)| (p.0, Some(p.1)))
}

/// Pairs that delete each key.
pub open spec fn deleting_pairs(keys: Seq<Seq<char>>) -> Seq<(Seq<char>, Option<Seq<char>>)> {
    keys.map_values(|k: Seq<char>| (k, None::<Seq<char>>))
}

/// The shared properties of an event patch, in the order they are written into the JSON
/// object: `Some` sets a value, `None` deletes the key.
#[derive(Debug)]
pub struct SharedPatch {
    pub entries: Vec<(String, Option<String>)>,
}

impl SharedPatch {
    /// The pairs of the patch, as views.
    pub open spec fn patch_pairs(self) -> Seq<(Seq<char>, Option<Seq<char>>)> {
        self.entries@.map_values(|p: (String, Option<String>)| (p.0@, opt_view(p.1)))
    }
}

/// Setting each pair of distinct-keyed properties sets exactly those properties.
proof fn lemma_patch_of_pairs(ps: Seq<(Seq<char>, Seq<char>)>)
    requires
        keys_distinct(ps),
    ensures
        forall|k: Seq<char>| #[trigger] patch_effect(setting_pairs(ps)).contains_key(k)
            <==> pairs_to_map(ps).contains_key(k),
        forall|k: Seq<char>| #[trigger] pairs_to_map(ps).contains_key(k) ==> patch_effect(
            setting_pairs(ps),
        )[k] == Some(pairs_to_map(ps)[k]),
    decreases ps.len(),
{
    if ps.len() == 0 {
        assert(pairs_to_map(ps) =~= Map::<Seq<char>, Seq<char>>::empty());
        assert(setting_pairs(ps) =~= Seq::<(Seq<char>, Option<Seq<char>>)>::empty());
    } else {
        let qs = ps.drop_last();
        let last = ps.last();
        assert(keys_distinct(qs));
        assert(!has_key(qs, last.0)) by {
            if has_key(qs, last.0) {
                let j = choose|j: int| 0 <= j < qs.len() && #[trigger] qs[j].0 == last.0;
                assert(ps[j].0 == ps[ps.len() - 1].0);
            }
        }
        lemma_patch_of_pairs(qs);
        lemma_pairs_push(qs, last.0, last.1);
        assert(qs.push((last.0, last.1)) =~= ps);
        assert(setting_pairs(ps).drop_last() =~= setting_pairs(qs));
    }
}

/// Deleting keys after other pairs deletes those keys and leaves the rest.
proof fn lemma_patch_deletes(base: Seq<(Seq<char>, Option<Seq<char>>)>, keys: Seq<Seq<char>>)
    ensures
        forall|k: Seq<char>| #[trigger] patch_effect(base + deleting_pairs(keys)).contains_key(k)
            <==> (patch_effect(base).contains_key(k) || keys.contains(k)),
        forall|k: Seq<char>| #[trigger] patch_effect(base + deleting_pairs(keys)).contains_key(k)
            ==> patch_effect(base + deleting_pairs(keys))[k] == (if keys.contains(k) {
            None
        } else {
            patch_effect(base)[k]
        }),
    decreases keys.len(),
{
    if keys.len() == 0 {
        assert(base + deleting_pairs(keys) =~= base);
    } else {
        let ks = keys.drop_last();
        lemma_patch_deletes(base, ks);
        let all = base + deleting_pairs(keys);
        assert(all.drop_last() =~= base + deleting_pairs(ks));
        assert(all.last() == (keys.last(), None::<Seq<char>>));
        assert forall|k: Seq<char>| #[trigger] keys.contains(k) <==> (ks.contains(k) || k == keys.last()) by {
            if keys.contains(k) {
                let j = choose|j: int| 0 <= j < keys.len() && keys[j] == k;
                if j < keys.len() - 1 {
                    assert(ks[j] == k);
                }
            }
            if ks.contains(k) {
                let j = choose|j: int| 0 <= j < ks.len() && ks[j] == k;
                assert(keys[j] == k);
            }
            if k == keys.last() {
                assert(keys[keys.len() - 1] == k);
            }
        }
    }
}

/// The patch that stores `shared` as the event's shared properties.
pub fn set_properties_patch(shared: &PropertyMap) -> (r: SharedPatch)
    ensures
        r.patch_pairs() == setting_pairs(shared.pairs()),
        forall|k: Seq<char>| #[trigger] patch_effect(r.patch_pairs()).contains_key(k) <==> shared@.contains_key(k),
        forall|k: Seq<char>| #[trigger] shared@.contains_key(k) ==> patch_effect(r.patch_pairs())[k] == Some(shared@[k]),
{
    let pairs = shared.to_pairs();
    let mut entries: Vec<(String, Option<String>)> = Vec::new();
    let n = pairs.len();
    let mut i: usize = 0;
    while i < n
        invariant
            n == pairs@.len(),
            i <= n,
            pairs@.map_values(|p: (String, String)| (p.0@, p.1@)) == shared.pairs(),
            entries@.len() == i,
            forall|j: int| 0 <= j < i ==> (#[trigger] entries@[j]).0@ == shared.pairs()[j].0 && opt_view(entries@[j].1) == Some(shared.pairs()[j].1),
        decreases n - i,
    {
        let (k, v) = (&pairs[i].0, &pairs[i].1);
        assert(shared.pairs()[i as int] == (k@, v@));
        entries.push((k.clone(), Some(v.clone())));
        i = i + 1;
    }
    let r = SharedPatch { entries };
    assert(r.patch_pairs() =~= setting_pairs(shared.pairs()));
    proof {
        lemma_patch_of_pairs(shared.pairs());
    }
    r
}

/// The patch that deletes one shared property (the key with a JSON `null`).
pub fn delete_property_patch(key: &str) -> (r: SharedPatch)
    ensures
        r.patch_pairs() == seq![(key@, None::<Seq<char>>)],
{
    let mut entries: Vec<(String, Option<String>)> = Vec::new();
    entries.push((String::from_str(key), None));
    let r = SharedPatch { entries };
    assert(r.patch_pairs() =~= seq![(key@, None::<Seq<char>>)]);
    r
}

/// Where listing a calendar's events stands.
#[derive(Debug)]
pub enum PageState {
    /// No page fetched yet.
    First,
    /// The next page is the one with this token.
    Next(String),
    /// The last page was fetched.
    Done,
}

/// The page after one whose `nextPageToken` is `next_token`: that page, or the end when
/// the response has no token.
pub fn page_after(next_token: Option<&str>) -> (r: PageState)
    ensures
        match next_token {
            Some(t) => r matches PageState::Next(s) && s@ == t@,
            None => r is Done,
        },
{
    match next_token {
        Some(t) => PageState::Next(String::from_str(t)),
        None => PageState::Done,
    }
}

/// The query of a page of events: up to 2500 single events in start-time order, from
/// the given page on.
pub open spec fn page_query_pairs(token: Option<Seq<char>>) -> Seq<(Seq<char>, Seq<char>)> {
    let base = seq![("maxResults"@, "2500"@), ("singleEvents"@, "true"@), ("orderBy"@, "startTime"@)];
    match token {
        Some(t) => base.push(("pageToken"@, t)),
        None => base,
    }
}

/// The query that fetches the page, or none when all pages were fetched.
pub fn page_query(state: &PageState) -> (r: Option<Vec<(String, String)>>)
    ensures
        match state {
            PageState::Done => r is None,
            PageState::First => r matches Some(q) && q@.map_values(|p: (String, String)| (p.0@, p.1@)) == page_query_pairs(None),
            PageState::Next(t) => r matches Some(q) && q@.map_values(|p: (String, String)| (p.0@, p.1@)) == page_query_pairs(Some(t@)),
        },
{
    let token = match state {
        PageState::Done => {
            return None;
        },
        PageState::First => None,
        PageState::Next(t) => Some(t),
    };
    let mut q: Vec<(String, String)> = Vec::new();
    q.push((String::from_str("maxResults"), String::from_str("2500")));
    q.push((String::from_str("singleEvents"), String::from_str("true")));
    q.push((String::from_str("orderBy"), String::from_str("startTime")));
    if let Some(t) = token {
        q.push((String::from_str("pageToken"), t.clone()));
    }
    assert(q@.map_values(|p: (String, String)| (p.0@, p.1@)) =~= page_query_pairs(opt_view(match state {
        PageState::Next(t) => Some(*t),
        _ => None,
    })));
    Some(q)
}

/// Applying `a` and then `b` is applying `a` with `b`'s entries winning.
proof fn lemma_patch_concat(a: Seq<(Seq<char>, Option<Seq<char>>)>, b: Seq<(Seq<char>, Option<Seq<char>>)>)
    ensures
        patch_effect(a + b) == patch_effect(a).union_prefer_right(patch_effect(b)),
    decreases b.len(),
{
    if b.len() == 0 {
        assert(a + b =~= a);
        assert(patch_effect(a).union_prefer_right(patch_effect(b)) =~= patch_effect(a));
    } else {
        lemma_patch_concat(a, b.drop_last());
        assert((a + b).drop_last() =~= a + b.drop_last());
        assert((a + b).last() == b.last());
        assert(patch_effect(a + b) =~= patch_effect(a).union_prefer_right(patch_effect(b)));
    }
}

/// The patch that stores `current` and deletes the other `deleted_keys`: first each
/// deleted key with a JSON `null`, then the current properties, so that a key that is
/// both deleted and current keeps its current value (the later pair wins).
pub fn properties_with_deletes_patch(current: &PropertyMap, deleted_keys: &Vec<String>) -> (r: SharedPatch)
    ensures
        r.patch_pairs() == deleting_pairs(seq_views(deleted_keys@)) + setting_pairs(current.pairs()),
        forall|k: Seq<char>| #[trigger] patch_effect(r.patch_pairs()).contains_key(k)
            <==> (current@.contains_key(k) || seq_views(deleted_keys@).contains(k)),
        forall|k: Seq<char>| #[trigger] patch_effect(r.patch_pairs()).contains_key(k)
            ==> patch_effect(r.patch_pairs())[k] == (if current@.contains_key(k) {
            Some(current@[k])
        } else {
            None
        }),
{
    let base = set_properties_patch(current);
    let ghost base_pairs = base.patch_pairs();
    let ghost dk = seq_views(deleted_keys@);
    let mut entries: Vec<(String, Option<String>)> = Vec::new();
    let n = deleted_keys.len();
    let mut i: usize = 0;
    while i < n
        invariant
            n == deleted_keys@.len(),
            i <= n,
            dk == seq_views(deleted_keys@),
            entries@.map_values(|p: (String, Option<String>)| (p.0@, opt_view(p.1))) == deleting_pairs(dk.take(i as int)),
        decreases n - i,
    {
        let ghost old_entries = entries@;
        entries.push((deleted_keys[i].clone(), None));
        proof {
            assert(dk.take(i + 1) =~= dk.take(i as int).push(deleted_keys@[i as int]@));
            assert(deleting_pairs(dk.take(i + 1)) =~= deleting_pairs(dk.take(i as int)).push((deleted_keys@[i as int]@, None::<Seq<char>>)));
            assert(entries@ == old_entries.push(entries@.last()));
            assert(entries@.map_values(|p: (String, Option<String>)| (p.0@, opt_view(p.1))) =~= old_entries.map_values(|p: (String, Option<String>)| (p.0@, opt_view(p.1))).push((deleted_keys@[i as int]@, None::<Seq<char>>)));
        }
        i = i + 1;
    }
    assert(dk.take(n as int) =~= dk);
    let ghost dels = entries@.map_values(|p: (String, Option<String>)| (p.0@, opt_view(p.1)));
    let m = base.entries.len();
    let mut j: usize = 0;
    while j < m
        invariant
            m == base.entries@.len(),
            j <= m,
            base_pairs == base.patch_pairs(),
            dels == deleting_pairs(dk),
            entries@.map_values(|p: (String, Option<String>)| (p.0@, opt_view(p.1))) == dels + base_pairs.take(j as int),
        decreases m - j,
    {
        let ghost old_entries = entries@;
        let k = base.entries[j].0.clone();
        let v = clone_opt(&base.entries[j].1);
        entries.push((k, v));
        proof {
            assert(base_pairs[j as int] == (base.entries@[j as int].0@, opt_view(base.entries@[j as int].1)));
            assert(base_pairs.take(j + 1) =~= base_pairs.take(j as int).push(base_pairs[j as int]));
            assert(entries@ == old_entries.push(entries@.last()));
            assert(entries@.map_values(|p: (String, Option<String>)| (p.0@, opt_view(p.1))) =~= old_entries.map_values(|p: (String, Option<String>)| (p.0@, opt_view(p.1))).push(base_pairs[j as int]));
        }
        j = j + 1;
    }
    assert(base_pairs.take(m as int) =~= base_pairs);
    let r = SharedPatch { entries };
    proof {
        lemma_patch_concat(dels, base_pairs);
        lemma_patch_deletes(Seq::empty(), dk);
        assert(Seq::<(Seq<char>, Option<Seq<char>>)>::empty() + deleting_pairs(dk) =~= deleting_pairs(dk));
        assert(patch_effect(Seq::<(Seq<char>, Option<Seq<char>>)>::empty()) =~= Map::<Seq<char>, Option<Seq<char>>>::empty());
    }
    r
}

/// The patch that `properties rename --from F --to T` sends with the renamed properties:
/// they are stored, and `F` is deleted with a JSON `null` unless it is `T` itself.
pub fn rename_patch(renamed: &PropertyMap, from: &str, to: &str) -> (r: SharedPatch)
    ensures
        forall|k: Seq<char>| #[trigger] patch_effect(r.patch_pairs()).contains_key(k)
            <==> (renamed@.contains_key(k) || (k == from@ && from@ != to@)),
        forall|k: Seq<char>| #[trigger] patch_effect(r.patch_pairs()).contains_key(k)
            ==> patch_effect(r.patch_pairs())[k] == (if renamed@.contains_key(k) {
            Some(renamed@[k])
        } else {
            None
        }),
{
    let mut deleted: Vec<String> = Vec::new();
    if !crate::text::str_eq(from, to) {
        deleted.push(String::from_str(from));
    }
    let r = properties_with_deletes_patch(renamed, &deleted);
    proof {
        assert forall|k: Seq<char>| seq_views(deleted@).contains(k) <==> (k == from@ && from@ != to@) by {
            if seq_views(deleted@).contains(k) {
                let i = choose|i: int| 0 <= i < seq_views(deleted@).len() && seq_views(deleted@)[i] == k;
            }
            if k == from@ && from@ != to@ {
                assert(seq_views(deleted@)[0] == k);
            }
        }
    }
    r
}

} // verus!
