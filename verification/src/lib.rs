//! Compact internationalization: translation files become compiled templates
//! with placeholders and plural rules, rendered with named arguments.
//!
//! The modules: `text` (character helpers), `number` (decimal text of
//! integers), `arg` (template arguments), `plural` (plural placeholders),
//! `template` (translation templates), `yaml` (the YAML tree of a file),
//! `store` (all locales and lookup with a fallback), `error` (loading
//! errors) and `laws` (properties of the whole).

pub mod text;
mod number;
pub mod arg;
pub mod plural;
pub mod template;
pub mod store;
pub mod error;
pub mod yaml;
pub mod laws;

pub use arg::{Arg, ToArg, __arg};
pub use error::Error;
pub use plural::{compile, Ruleset};
pub use store::Translations;
pub use template::Template;
pub use text::is_identifier;
pub use yaml::YamlValue;
