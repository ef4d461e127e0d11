use vstd::prelude::*;

use crate::props::{strings_view, StringListMap};

verus! {

/// The user's settings from `config.toml`; every setting is optional.
#[derive(Debug)]
pub struct Config {
    /// The calendar that commands use when none is named.
    pub calendar_name: Option<String>,
    /// Print the authorization URL instead of opening a browser.
    pub no_browser: Option<bool>,
    /// The allowed values of each property key.
    pub properties: Option<StringListMap>,
    /// The property keys that each event type requires.
    pub check: Option<StringListMap>,
}

impl Default for Config {
    fn default() -> (r: Self)
        ensures
            r.calendar_name is None,
            r.no_browser is None,
            r.properties is None,
            r.check is None,
    {
        Config { calendar_name: None, no_browser: None, properties: None, check: None }
    }
}

/// Something in the config that is accepted but likely a mistake.
#[derive(Debug)]
pub enum ConfigWarning {
    /// A property allows no value at all.
    EmptyAllowedList(String),
    /// A `[check]` rule requires a property that `[properties]` does not define.
    UndefinedCheckKey(String),
}

/// What a warning stands for, as a pair of its kind (`true` for an empty list) and key.
pub open spec fn warning_view(w: ConfigWarning) -> (bool, Seq<char>) {
    match w {
        ConfigWarning::EmptyAllowedList(k) => (true, k@),
        ConfigWarning::UndefinedCheckKey(k) => (false, k@),
    }
}

impl ConfigWarning {
    /// The message that reports the warning.
    pub fn message(&self) -> (r: String)
        ensures
            r@ == (match self {
                ConfigWarning::EmptyAllowedList(k) => "Warning: property '"@ + k@
                    + "' in config.toml has an empty list of allowed values"@,
                ConfigWarning::UndefinedCheckKey(k) => "Warning: [check] references property '"@
                    + k@ + "' which is not defined in [properties]"@,
            }),
    {
        match self {
            ConfigWarning::EmptyAllowedList(k) => {
                let mut m = String::from_str("Warning: property '");
                m.append(k.as_str());
                m.append("' in config.toml has an empty list of allowed values");
                m
            },
            ConfigWarning::UndefinedCheckKey(k) => {
                let mut m = String::from_str("Warning: [check] references property '");
                m.append(k.as_str());
                m.append("' which is not defined in [properties]");
                m
            },
        }
    }
}

/// The keys of a table whose list is empty, in order.
pub open spec fn empty_list_keys(ps: Seq<(Seq<char>, Seq<Seq<char>>)>) -> Seq<Seq<char>>
    decreases ps.len(),
{
    if ps.len() == 0 {
        Seq::empty()
    } else {
        let rest = empty_list_keys(ps.drop_last());
        if ps.last().1.len() == 0 {
            rest.push(ps.last().0)
        } else {
            rest
        }
    }
}

/// The keys of a list that `defined` does not hold, in order.
pub open spec fn undefined_in(keys: Seq<Seq<char>>, defined: Option<Map<Seq<char>, Seq<Seq<char>>>>) -> Seq<Seq<char>>
    decreases keys.len(),
{
    if keys.len() == 0 {
        Seq::empty()
    } else {
        let rest = undefined_in(keys.drop_last(), defined);
        let k = keys.last();
        if defined matches Some(m) && m.contains_key(k) {
            rest
        } else {
            rest.push(k)
        }
    }
}

/// The required keys of all `[check]` rules that are not defined, rule by rule.
pub open spec fn undefined_check_keys(
    rules: Seq<(Seq<char>, Seq<Seq<char>>)>,
    defined: Option<Map<Seq<char>, Seq<Seq<char>>>>,
) -> Seq<Seq<char>>
    decreases rules.len(),
{
    if rules.len() == 0 {
        Seq::empty()
    } else {
        undefined_check_keys(rules.drop_last(), defined) + undefined_in(rules.last().1, defined)
    }
}

/// The `[properties]` table, if the config has one.
pub open spec fn defined_properties(c: Config) -> Option<Map<Seq<char>, Seq<Seq<char>>>> {
    match c.properties {
        Some(p) => Some(p@),
        None => None,
    }
}

/// The properties that allow no value, in table order.
pub open spec fn empty_property_keys(c: Config) -> Seq<Seq<char>> {
    match c.properties {
        Some(p) => empty_list_keys(p.pairs()),
        None => Seq::empty(),
    }
}

/// The warnings that a config gives, as (kind, key) pairs: first the properties with no
/// allowed value, then the `[check]` requirements that `[properties]` lacks.
pub open spec fn config_warnings(c: Config) -> Seq<(bool, Seq<char>)> {
    let undefined = match c.check {
        Some(r) => undefined_check_keys(r.pairs(), defined_properties(c)),
        None => Seq::empty(),
    };
    empty_property_keys(c).map_values(|k: Seq<char>| (true, k)) + undefined.map_values(|k: Seq<char>| (false, k))
}

impl Config {
    /// Whether to print the authorization URL instead of opening a browser (default: no).
    pub fn no_browser(&self) -> (r: bool)
        ensures
            r == (self.no_browser == Some(true)),
    {
        match self.no_browser {
            Some(b) => b,
            None => false,
        }
    }

    /// Whether `auth` opens a browser: not when the flag or the config says otherwise.
    pub fn use_browser(&self, no_browser_flag: bool) -> (r: bool)
        ensures
            r == !(no_browser_flag || self.no_browser == Some(true)),
    {
        !(no_browser_flag || self.no_browser())
    }

    /// The warnings to report after loading the config.
    pub fn validation_warnings(&self) -> (r: Vec<ConfigWarning>)
        ensures
            r@.map_values(|w: ConfigWarning| warning_view(w)) == config_warnings(*self),
    {
        let mut out: Vec<ConfigWarning> = Vec::new();
        let ghost mut empties: Seq<Seq<char>> = Seq::empty();
        if let Some(props) = &self.properties {
            let n = props.len();
            let mut i: usize = 0;
            while i < n
                invariant
                    n == props.pairs().len(),
                    i <= n,
                    empties == empty_list_keys(props.pairs().take(i as int)),
                    out@.map_values(|w: ConfigWarning| warning_view(w)) == empties.map_values(
                        |k: Seq<char>| (true, k),
                    ),
                decreases n - i,
            {
                let (k, v) = props.entry_at(i);
                proof {
                    assert(props.pairs().take(i + 1).drop_last() =~= props.pairs().take(i as int));
                }
                if v.len() == 0 {
                    let ghost old_out = out@;
                    out.push(ConfigWarning::EmptyAllowedList(k.clone()));
                    proof {
                        assert(out@ == old_out.push(out@.last()));
                        assert(out@.map_values(|w: ConfigWarning| warning_view(w)) =~= old_out.map_values(|w: ConfigWarning| warning_view(w)).push((true, k@)));
                        empties = empties.push(k@);
                        assert(out@.map_values(|w: ConfigWarning| warning_view(w)) =~= empties.map_values(
                            |k: Seq<char>| (true, k),
                        ));
                    }
                }
                i = i + 1;
            }
            assert(props.pairs().take(n as int) =~= props.pairs());
        }
        let ghost defined = defined_properties(*self);
        let ghost mut undefined: Seq<Seq<char>> = Seq::empty();
        let ghost prefix = out@.map_values(|w: ConfigWarning| warning_view(w));
        if let Some(rules) = &self.check {
            let n = rules.len();
            let mut i: usize = 0;
            while i < n
                invariant
                    n == rules.pairs().len(),
                    i <= n,
                    defined == defined_properties(*self),
                    undefined == undefined_check_keys(rules.pairs().take(i as int), defined),
                    out@.map_values(|w: ConfigWarning| warning_view(w)) == prefix + undefined.map_values(
                        |k: Seq<char>| (false, k),
                    ),
                decreases n - i,
            {
                let (_name, required) = rules.entry_at(i);
                proof {
                    assert(rules.pairs().take(i + 1).drop_last() =~= rules.pairs().take(i as int));
                }
                let ghost before = undefined;
                let m = required.len();
                let mut j: usize = 0;
                while j < m
                    invariant
                        m == required@.len(),
                        j <= m,
                        undefined == before + undefined_in(strings_view(required@).take(j as int), defined),
                        defined == defined_properties(*self),
                        out@.map_values(|w: ConfigWarning| warning_view(w)) == prefix + undefined.map_values(
                            |k: Seq<char>| (false, k),
                        ),
                    decreases m - j,
                {
                    let key = &required[j];
                    assert(strings_view(required@).take(j + 1).drop_last() =~= strings_view(required@).take(j as int));
                    let is_defined = match &self.properties {
                        Some(p) => p.contains_key(key.as_str()),
                        None => false,
                    };
                    if !is_defined {
                        let ghost old_out = out@;
                        out.push(ConfigWarning::UndefinedCheckKey(key.clone()));
                        proof {
                            assert(out@ == old_out.push(out@.last()));
                            assert(out@.map_values(|w: ConfigWarning| warning_view(w)) =~= old_out.map_values(|w: ConfigWarning| warning_view(w)).push((false, key@)));
                            undefined = undefined.push(key@);
                            assert(out@.map_values(|w: ConfigWarning| warning_view(w)) =~= prefix + undefined.map_values(
                                |k: Seq<char>| (false, k),
                            ));
                        }
                    }
                    proof {
                        assert(before + undefined_in(strings_view(required@).take(j + 1), defined) =~= undefined);
                    }
                    j = j + 1;
                }
                proof {
                    assert(strings_view(required@).take(m as int) =~= strings_view(required@));
                    assert(undefined =~= undefined_check_keys(rules.pairs().take(i + 1), defined));
                }
                i = i + 1;
            }
            assert(rules.pairs().take(n as int) =~= rules.pairs());
        }
        proof {
            assert(prefix == empty_property_keys(*self).map_values(|k: Seq<char>| (true, k)));
        }
        out
    }
}

/// A file or directory name joined onto a directory, as `Path::join` does for a relative
/// name on Unix: with a `/` between them unless the directory is empty or ends in one.
pub open spec fn joined_path(dir: Seq<char>, name: Seq<char>) -> Seq<char> {
    if dir.len() == 0 {
        name
    } else if dir.last() == '/' {
        dir + name
    } else {
        dir + seq!['/'] + name
    }
}

/// `name` joined onto `dir`.
pub fn join_path(dir: &str, name: &str) -> (r: String)
    ensures
        r@ == joined_path(dir@, name@),
{
    let n = dir.unicode_len();
    if n == 0 {
        String::from_str(name)
    } else if dir.get_char(n - 1) == '/' {
        let mut s = String::from_str(dir);
        s.append(name);
        s
    } else {
        let mut s = String::from_str(dir);
        s.append("/");
        s.append(name);
        proof {
            reveal_strlit("/");
        }
        s
    }
}

/// The directory of the tool's files under a home directory: `.config/rscalendar`.
pub fn config_dir(home: &str) -> (r: String)
    ensures
        r@ == joined_path(joined_path(home@, ".config"@), "rscalendar"@),
{
    let dot_config = join_path(home, ".config");
    join_path(dot_config.as_str(), "rscalendar")
}

/// The config file in the tool's directory.
pub fn config_path(config_dir: &str) -> (r: String)
    ensures
        r@ == joined_path(config_dir@, "config.toml"@),
{
    join_path(config_dir, "config.toml")
}

/// The OAuth client credentials file in the tool's directory.
pub fn credentials_path(config_dir: &str) -> (r: String)
    ensures
        r@ == joined_path(config_dir@, "credentials.json"@),
{
    join_path(config_dir, "credentials.json")
}

/// The token cache file in the tool's directory.
pub fn token_cache_path(config_dir: &str) -> (r: String)
    ensures
        r@ == joined_path(config_dir@, "token_cache.json"@),
{
    join_path(config_dir, "token_cache.json")
}

} // verus!
