//! Renders delimiter-separated records as a text table in one of four
//! markup dialects: Markdown, Org, Confluence wiki or reStructuredText.
//!
//! Fields are escaped as they are read (`escape`), a dialect is picked by
//! name (`format`), and a `table::Table` measures its columns and composes
//! its text, which `render` describes as sequences of characters.

pub mod escape;
pub mod format;
pub mod records;
pub mod render;
pub mod table;
pub mod text;
