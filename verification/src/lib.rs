//! An adaptive associative container keyed by name strings.
//!
//! `NamedMap<T>` holds name-to-value associations and decodes from two input
//! shapes — a terse sequence of names (each name expanded to a placeholder
//! value through `FromName`) or a detailed mapping of name to structured
//! value — while always encoding back to the detailed mapping shape.

pub mod adaptive;
pub mod item;
pub mod laws;
pub mod named_map;
pub mod value;

pub use adaptive::{DecodeError, FromName, FromValue, ToValue};
pub use item::Item;
pub use named_map::NamedMap;
pub use value::Value;
