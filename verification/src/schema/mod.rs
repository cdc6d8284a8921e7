//! RFC 4512 subschema parser and cache.
pub mod assoc;
pub mod cache;
pub mod closure;
pub mod parse;
pub mod picker;
pub mod tokens;
pub mod types;

pub use cache::SchemaCache;
pub use parse::{parse_attribute_type, parse_object_class};
pub use picker::{build_oc_picker_entries, build_picker_entries, build_rdn_picker_entries, build_structural_oc_picker_entries};
pub use types::{AttributeType, ObjectClass, OcKind, PickerEntry};
