//! A scaffolding engine's core: it splits rendered template text into
//! documents, decodes each document's directive, decides whether a file is
//! written, and edits existing text by regex-anchored injection rules.

pub mod directive;
pub mod engine;
pub mod filters;
pub mod inject;
pub mod journal;
pub mod outcome;
pub mod pattern;
pub mod split;
pub mod text;

pub use crate::engine::{FsDriver, Printer};
pub use crate::journal::Recorded;
pub use crate::filters::{camel_case, kebab_case, lower_camel_case, pascal_case, plural, snake_case};
pub use crate::outcome::{Error, GenResult};
