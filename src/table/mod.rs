//! Cells, contents, render settings and the table itself.
//!
//! The submodules `layout` and `markdown` hold the mathematical description
//! of what a table renders to; `laws` proves properties of it.

mod cell;
mod content;
mod grid;
pub mod layout;
pub mod laws;
pub mod markdown;
mod settings;
pub mod text;

pub use cell::{aligned, default_model, lemma_render_model_len, render_model, Cell, CellModel};
pub use content::{ellipsis_mark, truncated, widen, Content};
pub use grid::{lines_model, pieces_model, Piece, Table};
pub use layout::{PieceModel, TableModel};
pub use settings::{no_border, Align, Border, Overflow, Padding, Renderer};
