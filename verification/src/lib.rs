//! A small verified templating library: a record's fields, given as a flat
//! map from field names to scalar values, are substituted into a template
//! string at placeholders built from a configurable delimiter pair
//! (`{{name}}` by default). A field whose placeholder is absent from the
//! template is reported as an error.

pub mod formatter;
pub mod laws;
pub mod text;
pub mod value;

pub use crate::formatter::Error;
pub use crate::formatter::FieldMap;
pub use crate::formatter::Format;
pub use crate::formatter::Formatter;
pub use crate::value::Value;
