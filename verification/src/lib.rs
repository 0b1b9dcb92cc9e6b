//! Columnar text layout: a format-string parser and a column renderer.
//!
//! A template such as `"{} | {:?:80}"` is parsed into a list of column
//! descriptors (render mode, optional fixed width, trailing separator), and
//! a parallel list of pre-rendered values is laid out side by side as an
//! aligned multi-line block.

pub mod column_format;
pub mod column_formatter;
pub mod format_part;
pub mod format_type;
pub mod formattable_item;
pub mod laws;
pub mod parse;
pub mod render;
pub mod text;

pub use column_format::ColumnFormat;
pub use column_formatter::ColumnFormatter;
pub use format_part::FormatPart;
pub use format_type::FormatType;
pub use formattable_item::FormattableItem;
