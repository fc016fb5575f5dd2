use itertools::Itertools;
use vstd::prelude::*;

use super::cell::CellModel;
use super::content::Content;
use super::layout::validated;
use super::settings::Align;
use super::text::fill;
use crate::error::TableError;

verus! {

/// The parts one after another, with `sep` between each two.
pub open spec fn joined(parts: Seq<Seq<char>>, sep: Seq<char>) -> Seq<char>
    decreases parts.len(),
{
    if parts.len() == 0 {
        Seq::empty()
    } else if parts.len() == 1 {
        parts[0]
    } else {
        joined(parts.drop_last(), sep) + sep + parts.last()
    }
}

/// Relies on `itertools::Itertools::join`: it writes the first item, then
/// `sep` and the next item for each further item (an empty string for no
/// items); a `String` item is written as its characters.
#[verifier::external_body]
pub(crate) fn join_with(parts: &Vec<String>, sep: &str) -> (r: String)
    ensures
        r@ == joined(parts@.map_values(|p: String| p@), sep@),
{
    parts.iter().join(sep)
}

/// A cell in markdown: its text, three rule glyphs for a splitter, nothing
/// for an empty cell.
pub open spec fn md_cell(c: CellModel) -> Seq<char> {
    match c.content {
        Content::Text(s) => s@,
        Content::Splitter => fill('━', 3),
        Content::Empty => Seq::empty(),
    }
}

/// The markdown alignment marker of a column.
pub open spec fn md_mark(a: Align) -> Seq<char> {
    match a {
        Align::Left => seq![':', '-', '-'],
        Align::Center => seq![':', '-', ':'],
        Align::Right => seq!['-', '-', ':'],
    }
}

/// One markdown line: the parts between vertical bars.
pub open spec fn md_line(parts: Seq<Seq<char>>) -> Seq<char> {
    seq!['┃'] + joined(parts, seq!['┃']) + seq!['┃', '\n']
}

/// The cells of a row in markdown.
pub open spec fn md_cells(row: Seq<CellModel>) -> Seq<Seq<char>> {
    row.map_values(|c: CellModel| md_cell(c))
}

/// The alignment markers of a row.
pub open spec fn md_marks(row: Seq<CellModel>) -> Seq<Seq<char>> {
    row.map_values(|c: CellModel| md_mark(c.align))
}

/// The markdown lines of the rows from `i` on.
pub open spec fn md_rows(rows: Seq<Seq<CellModel>>, i: nat) -> Seq<char>
    decreases rows.len() - i,
{
    if i >= rows.len() {
        Seq::empty()
    } else {
        md_line(md_cells(rows[i as int])) + md_rows(rows, i + 1)
    }
}

/// A table in markdown: the first row, a line of alignment markers taken
/// from the first row, then the other rows. Widths and merges play no part.
/// Without rows it is an empty header and a single marker.
pub open spec fn markdown_spec(rows: Seq<Seq<CellModel>>) -> Result<Seq<char>, TableError> {
    match validated(rows) {
        Err(e) => Err(e),
        Ok(_) => Ok(
            if rows.len() == 0 {
                seq!['┃', '┃', '\n', '┃', '-', '┃', '\n']
            } else {
                md_line(md_cells(rows[0])) + md_line(md_marks(rows[0])) + md_rows(rows, 1)
            },
        ),
    }
}

} // verus!
