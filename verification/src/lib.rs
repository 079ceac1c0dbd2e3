//! Storage layout of records whose fields are packed into 256-bit slots.

pub mod decimal;
pub mod laws;
pub mod packing;
pub mod parse;
pub mod pattern;
pub mod record;
pub mod registry;
pub mod shape;
pub mod slots;
pub mod split;
pub mod text;
pub mod types;
