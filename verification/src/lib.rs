use vstd::prelude::*;

pub mod format;
pub mod parse;
pub mod tree;
pub mod viewport;
pub mod widths;

pub use format::Format;
pub use format::FormatFromStrError;
pub use parse::ParseError;
pub use parse::SexpValue;
pub use parse::check_no_empty_list;
pub use parse::parse_tree;
pub use tree::Tree;
pub use tree::TreeRowIter;
pub use tree::TreeTableIter;
pub use viewport::Command;
pub use viewport::Viewport;
pub use widths::column_widths;
pub use widths::fit_columns;
pub use widths::visible_cells;
