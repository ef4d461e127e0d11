pub mod check;
pub mod properties;
pub mod list;
pub mod calendar;
pub mod batch;

use vstd::prelude::*;

use crate::text::{join_strings, seq_join};

verus! {

/// Why a command refuses its arguments or the config before doing any work.
#[derive(Debug)]
pub enum CommandError {
    /// `check` needs a `[check]` table.
    NoCheckSection,
    /// The `[check]` table is empty.
    NoCheckRules,
    /// `check --fix` needs a `[properties]` table.
    FixNeedsProperties,
    /// The command needs a `[properties]` table.
    NoPropertiesSection,
    /// The `[properties]` table is empty.
    NoPropertiesDefined,
    /// Only one of `--key` and `--value` was given.
    KeyValueMismatch,
    /// Only one of `--property-key` and `--property-value` was given.
    TagMismatch,
    /// The key is not in the `[properties]` table.
    UndefinedKey(String),
    /// The value is not among the key's allowed values (listed in table order).
    ValueNotAllowed { key: String, value: String, allowed: Vec<String> },
}

impl CommandError {
    /// The message that reports the error.
    pub fn message(&self) -> (r: String)
        ensures
            r@ == (match self {
                CommandError::NoCheckSection => "no [check] section in config.toml"@,
                CommandError::NoCheckRules => "no rules defined in [check] section of config.toml"@,
                CommandError::FixNeedsProperties => "--fix requires [properties] section in config.toml"@,
                CommandError::NoPropertiesSection => "no [properties] section in config.toml"@,
                CommandError::NoPropertiesDefined => "no properties defined in [properties] section of config.toml"@,
                CommandError::KeyValueMismatch => "--key and --value must be used together"@,
                CommandError::TagMismatch => "--property-key and --property-value must be used together"@,
                CommandError::UndefinedKey(k) => "key '"@ + k@ + "' is not defined in [properties] in config.toml"@,
                CommandError::ValueNotAllowed { key, value, allowed } => "value '"@ + value@
                    + "' is not allowed for key '"@ + key@ + "'. Allowed: "@ + seq_join(
                    allowed@.map_values(|s: String| s@),
                    ", "@,
                ),
            }),
    {
        match self {
            CommandError::NoCheckSection => String::from_str("no [check] section in config.toml"),
            CommandError::NoCheckRules => String::from_str(
                "no rules defined in [check] section of config.toml",
            ),
            CommandError::FixNeedsProperties => String::from_str(
                "--fix requires [properties] section in config.toml",
            ),
            CommandError::NoPropertiesSection => String::from_str(
                "no [properties] section in config.toml",
            ),
            CommandError::NoPropertiesDefined => String::from_str(
                "no properties defined in [properties] section of config.toml",
            ),
            CommandError::KeyValueMismatch => String::from_str(
                "--key and --value must be used together",
            ),
            CommandError::TagMismatch => String::from_str(
                "--property-key and --property-value must be used together",
            ),
            CommandError::UndefinedKey(k) => {
                let mut m = String::from_str("key '");
                m.append(k.as_str());
                m.append("' is not defined in [properties] in config.toml");
                m
            },
            CommandError::ValueNotAllowed { key, value, allowed } => {
                let mut m = String::from_str("value '");
                m.append(value.as_str());
                m.append("' is not allowed for key '");
                m.append(key.as_str());
                m.append("'. Allowed: ");
                let joined = join_strings(allowed, ", ");
                m.append(joined.as_str());
                m
            },
        }
    }
}

} // verus!
