//! Schema-driven JSON decoding into a slot-addressed destination.
//!
//! A [`Schema`] describes the layout of a target value: scalars occupy one
//! slot each, and records place their fields at offsets relative to the
//! record's base slot. [`from_json`] reads JSON text through the jiter scanner
//! and writes each decoded scalar into the slot that the schema assigns it.

pub mod decode;
pub mod laws;
pub mod number;
pub mod scan;
pub mod schema;

pub use decode::{from_json, DecodeError};
pub use scan::{ScanError, ScanFault};
pub use schema::{Cell, MapField, MapShape, Scalar, Schema, Shape, ShapeKind, Slot};
