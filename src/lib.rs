//! Converts loosely delimited plain-text tables into rows of fields, and
//! renders those rows as Markdown, SQL, HTML or CSV text.

pub mod lines;
pub mod table;
pub mod options;
pub mod text;
pub mod markdown;
pub mod sqlddl;
pub mod output;
