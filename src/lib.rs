//! Removes named attributes from the HTML elements of JSX-like source text.
//!
//! The text is cut at each `<` into fragments; each fragment that opens an
//! element is read into a name and its attributes, and the requested
//! attributes are cut out of the fragments that open HTML elements (names
//! that do not start with an uppercase letter). Everything else is kept as it was.
use vstd::prelude::*;

pub mod component;
pub mod config;
pub mod report;
pub mod rewrite;
pub mod text;

pub use component::{Component, ComponentType, Content, Prop, ReactContent};
pub use config::{parse_value_to_string, Action, Config, ConfigBuilder};
pub use report::{ContentReport, Replacement};
pub use rewrite::apply_content_actions;

verus! {

} // verus!
