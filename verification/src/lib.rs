//! A multi-source log tailer core: position-tracked line sources, line-to-field
//! extractors (JSON objects and regex capture groups), format resolution, and
//! the follow-mode tail loop state machine.

mod config;
mod field;
mod reader;
mod reader_builder;
mod reader_json;
mod reader_regex;
mod source;
mod tail;
mod text;

pub use config::Config;
pub use config::Exclude;
pub use config::Fields;
pub use config::Format;
pub use config::Include;
pub use config::TimestampField;
pub use field::Field;
pub use field::Record;
pub use reader::ReadError;
pub use reader::Reader;
pub use reader_builder::BoundReader;
pub use reader_builder::BuildError;
pub use reader_builder::ReaderBuilder;
pub use reader_json::JsonReader;
pub use reader_regex::Pattern;
pub use reader_regex::RegexReader;
pub use source::Source;
pub use source::SourceType;
pub use tail::tail_step;
pub use tail::TailEffect;
pub use tail::TailEvent;
pub use tail::TailState;
