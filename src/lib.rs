//! Layout and rendering of text tables.
//!
//! A [`table::Table`] is a matrix of [`table::Cell`]s together with a
//! [`table::Border`]. Rendering resolves one width per column, renders every
//! cell at that width (merged cells span several columns), and joins the
//! cells into lines framed by the border. The same table also renders as
//! markdown.
//!
//! Two smaller tables stand beside it: [`simple::Table`], a title row and
//! rows of cells, wrapped text, rules and blank lines; and
//! [`column::TableColumn`], columns of cells sharing one width.

pub mod column;
pub mod error;
pub mod format_error;
pub mod simple;
pub mod table;
