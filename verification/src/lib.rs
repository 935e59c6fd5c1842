//! A typed attribute-argument parser and extraction engine.
//!
//! Given a comma-separated sequence of positional values and `name = value`
//! pairs — the kind of argument list attached to an annotation on a
//! declaration — this crate parses each item into a typed value, assembles
//! the items into a map keyed by name or by position, and extracts a
//! strongly-typed record from that map, applying per-field presence and
//! type-coercion rules. A catch-all field absorbs all unconsumed entries,
//! and union records are resolved by a first-match variant-selection
//! protocol with rollback.

pub mod assoc;
pub mod attr_map;
pub mod conversion;
pub mod field_spec;
pub mod keys;
pub mod numeric;
pub mod params;
pub mod parsing;
pub mod record;
pub mod tokens;
pub mod values;
