use vstd::prelude::*;

verus! {

/// The engine's configuration: named extractor formats, an optional default
/// format name, and per-format path patterns for automatic resolution.
/// `formats` and `path_matches` are mappings keyed by format name, held as
/// association lists in configuration order.
#[derive(Debug)]
pub struct Config {
    pub formats: Vec<(String, Format)>,
    pub default_format: Option<String>,
    pub path_matches: Vec<(String, String)>,
}

/// One extractor configuration: parse each line as a JSON object, or match it
/// against a regular expression and take the named capture groups.
#[derive(Debug)]
pub enum Format {
    JsonFormat { fields: Fields },
    RegexFormat { format: String, fields: Fields },
}

/// Field names to drop, or the sentinel "all" to drop every field.
#[derive(Debug)]
pub enum Exclude {
    ExcludeOne(String),
    ExcludeMany(Vec<String>),
}

/// Field names to keep; when non-empty it takes precedence over `Exclude`.
#[derive(Debug)]
pub enum Include {
    IncludeOne(String),
    IncludeMany(Vec<String>),
}

/// Field selection and named-field remaps for one format. The engine's
/// contract covers keep/exclude filtering; the remaps are
/// forward-compatible metadata.
#[derive(Debug)]
pub struct Fields {
    pub message: Option<String>,
    pub timestamp: Option<TimestampField>,
    pub stacktrace: Option<String>,
    pub exclude: Option<Exclude>,
    pub keep: Option<Include>,
}

#[derive(Debug)]
pub struct TimestampField {
    pub name: String,
    pub format: String,
}

} // verus!
