//! Formatter for Mermaid Gantt chart sources.
//!
//! A chart is a sequence of text lines. Formatting trims every line, indents
//! keyword lines, puts one empty line in front of every section header and
//! lays the task lines out in columns whose widths are taken from the whole
//! chart. Every function states its result over sequences of characters.
//!
//! - `text`: white space, trimming and searching in character sequences.
//! - `classify`: the fixed words and the kinds of line.
//! - `meta`: the metadata of a task, split into status tags and items.
//! - `widths`: the widths of the columns of a chart.
//! - `render`: the layout of a single line.
//! - `format`: the layout of a chart, and of its text.
//! - `laws`: what holds of every formatted chart.
//! - `content`: what a chart says, apart from white space and empty lines.
//! - `words`, `roundtrip`, `stable`: the lemmas on which the laws rest.
pub mod classify;
pub mod content;
pub mod format;
pub mod laws;
pub mod meta;
pub mod render;
pub mod roundtrip;
pub mod stable;
pub mod text;
pub mod widths;
pub mod words;
