use vstd::prelude::*;

use super::cell::{default_model, render_model, Cell, CellModel};
use super::text::fill;
use super::content::Content;
use super::settings::{Border, Overflow};
use crate::error::{ErrorView, TableError};

verus! {

/// The abstract value of a [`Table`]: its rows of cell settings and its border.
pub struct TableModel {
    pub rows: Seq<Seq<CellModel>>,
    pub border: Border,
}

/// The models of a matrix of cells.
pub open spec fn rows_model(rows: Seq<Vec<Cell>>) -> Seq<Seq<CellModel>> {
    rows.map_values(|r: Vec<Cell>| r@.map_values(|c: Cell| c@))
}

/// The first row from index `i` on whose length is not `expected`.
pub open spec fn first_mismatch(rows: Seq<Seq<CellModel>>, expected: nat, i: nat) -> Option<nat>
    decreases rows.len() - i,
{
    if i >= rows.len() {
        None
    } else if rows[i as int].len() != expected {
        Some(i)
    } else {
        first_mismatch(rows, expected, i + 1)
    }
}

/// The number of columns of a table whose rows all have the first row's
/// length (0 without rows), or the first row that breaks this.
pub open spec fn validated(rows: Seq<Seq<CellModel>>) -> Result<nat, TableError> {
    if rows.len() == 0 {
        Ok(0)
    } else {
        match first_mismatch(rows, rows[0].len(), 1) {
            Some(i) => Err(
                TableError::InvalidTableSize {
                    row: i as usize,
                    expected: rows[0].len() as usize,
                    actual: rows[i as int].len() as usize,
                },
            ),
            None => Ok(rows[0].len()),
        }
    }
}

/// The width a cell asks of its column (0 where it asks none).
pub open spec fn declared(c: CellModel) -> nat {
    match c.width {
        Some(w) => w as nat,
        None => 0,
    }
}

/// The width of column `x`: the largest width that a cell in it asks for.
pub open spec fn column_width(rows: Seq<Seq<CellModel>>, x: int) -> nat
    decreases rows.len(),
{
    if rows.len() == 0 {
        0
    } else {
        let rest = column_width(rows.drop_last(), x);
        let here = if 0 <= x < rows.last().len() {
            declared(rows.last()[x])
        } else {
            0
        };
        if here > rest {
            here
        } else {
            rest
        }
    }
}

/// The widths of the first `n` columns.
pub open spec fn column_widths(rows: Seq<Seq<CellModel>>, n: nat) -> Seq<nat> {
    Seq::new(n, |x: int| column_width(rows, x))
}

/// The settings of a splitter cell made for a header rule.
pub open spec fn splitter_model() -> CellModel {
    CellModel { content: Content::Splitter, ..default_model() }
}

/// A cell's settings with its overflow replaced.
pub open spec fn with_overflow_model(c: CellModel, overflow: Overflow) -> CellModel {
    CellModel { overflow, ..c }
}

/// The characters that a row of columns of the given widths takes: each
/// column its width plus one blank of margin on either side.
pub open spec fn span_sum(widths: Seq<nat>) -> nat
    decreases widths.len(),
{
    if widths.len() == 0 {
        0
    } else {
        span_sum(widths.drop_last()) + widths.last() + 2
    }
}

/// The full width of every line of the table.
pub open spec fn table_width(widths: Seq<nat>, border: Border) -> nat {
    span_sum(widths) + (if border.left {
        1nat
    } else {
        0nat
    }) + (if border.right {
        1nat
    } else {
        0nat
    })
}

/// The width given to a cell at column `x` that spans `m` more columns: its
/// own column's width and, for each column it covers, that width plus the
/// two margins between them.
pub open spec fn merged_width(widths: Seq<nat>, x: int, m: int) -> nat {
    (span_sum(widths.subrange(x, x + m + 1)) - 2) as nat
}

/// A piece of an output line: drawn text, and the column and row of the
/// cell it shows (none for border glyphs and rules).
pub struct PieceModel {
    pub text: Seq<char>,
    pub cell: Option<(usize, usize)>,
}

/// The first cell of `row` in `j..end` that is not empty.
pub open spec fn first_nonempty(row: Seq<CellModel>, j: int, end: int) -> Option<int>
    decreases end - j,
{
    if j >= end {
        None
    } else if !(row[j].content is Empty) {
        Some(j)
    } else {
        first_nonempty(row, j + 1, end)
    }
}

/// `p` in front of a successful sequence; an error unchanged.
pub open spec fn prepend<T>(p: T, r: Result<Seq<T>, TableError>) -> Result<Seq<T>, TableError> {
    match r {
        Ok(rest) => Ok(seq![p] + rest),
        Err(e) => Err(e),
    }
}

/// The pieces of row `y` from column `x` on, or the first merge error in it.
///
/// A cell without merge is drawn at its column's width. A cell at `x` that
/// spans `m` more columns needs columns `x + 1 ..= x + m` in the row, all
/// empty; it is drawn at the merged width, and the columns it covers draw
/// nothing of their own.
pub open spec fn row_pieces(row: Seq<CellModel>, widths: Seq<nat>, y: nat, x: nat) -> Result<
    Seq<PieceModel>,
    TableError,
>
    decreases row.len() - x,
{
    if x >= row.len() {
        Ok(Seq::empty())
    } else {
        let c = row[x as int];
        match c.merge {
            None => prepend(
                PieceModel { text: render_model(c, widths[x as int]), cell: Some((x as usize, y as usize)) },
                row_pieces(row, widths, y, x + 1),
            ),
            Some(m) => if x + m >= row.len() {
                Err(
                    TableError::MergeOutOfTable {
                        x: x as usize,
                        y: y as usize,
                        merge: m,
                        max: (row.len() - x - 1) as usize,
                    },
                )
            } else {
                match first_nonempty(row, (x + 1) as int, (x + m + 1) as int) {
                    Some(j) => Err(TableError::MergeOverwrite { x: j as usize, y: y as usize }),
                    None => prepend(
                        PieceModel {
                            text: render_model(c, merged_width(widths, x as int, m as int)),
                            cell: Some((x as usize, y as usize)),
                        },
                        row_pieces(row, widths, y, (x + m + 1) as nat),
                    ),
                }
            },
        }
    }
}

/// A border glyph at the left or right end of a row.
pub open spec fn edge_piece() -> PieceModel {
    PieceModel { text: seq!['┃'], cell: None }
}

/// A rule across the whole table, `width` characters long.
pub open spec fn rule_piece(width: nat) -> PieceModel {
    PieceModel { text: fill('━', width), cell: None }
}

/// The line of row `y`: its pieces between the left and right edges that
/// the border draws.
pub open spec fn row_line(row: Seq<CellModel>, widths: Seq<nat>, y: nat, border: Border) -> Result<
    Seq<PieceModel>,
    TableError,
> {
    match row_pieces(row, widths, y, 0) {
        Ok(ps) => Ok((if border.left {
            seq![edge_piece()]
        } else {
            Seq::empty()
        }) + ps + (if border.right {
            seq![edge_piece()]
        } else {
            Seq::empty()
        })),
        Err(e) => Err(e),
    }
}

/// The lines of the rows from `y` on, or the first error among them.
pub open spec fn row_lines(rows: Seq<Seq<CellModel>>, widths: Seq<nat>, border: Border, y: nat) -> Result<
    Seq<Seq<PieceModel>>,
    TableError,
>
    decreases rows.len() - y,
{
    if y >= rows.len() {
        Ok(Seq::empty())
    } else {
        match row_line(rows[y as int], widths, y, border) {
            Ok(l) => prepend(l, row_lines(rows, widths, border, y + 1)),
            Err(e) => Err(e),
        }
    }
}

/// Whether the table is well formed but its lines would be longer than a
/// machine word can count.
pub open spec fn too_wide(t: TableModel) -> bool {
    validated(t.rows) matches Ok(n) && table_width(column_widths(t.rows, n), t.border) > usize::MAX
}

/// The lines of a table that is not too wide: the top rule, one line per
/// row, the bottom rule; or the first error.
pub open spec fn layout_spec(t: TableModel) -> Result<Seq<Seq<PieceModel>>, TableError> {
    match validated(t.rows) {
        Err(e) => Err(e),
        Ok(n) => {
            let widths = column_widths(t.rows, n);
            let rule = seq![rule_piece(table_width(widths, t.border))];
            match row_lines(t.rows, widths, t.border, 0) {
                Ok(ls) => Ok((if t.border.top {
                    seq![rule]
                } else {
                    Seq::empty()
                }) + ls + (if t.border.bottom {
                    seq![rule]
                } else {
                    Seq::empty()
                })),
                Err(e) => Err(e),
            }
        },
    }
}

/// The text of a line: its pieces one after another.
pub open spec fn line_text(pieces: Seq<PieceModel>) -> Seq<char>
    decreases pieces.len(),
{
    if pieces.len() == 0 {
        Seq::empty()
    } else {
        line_text(pieces.drop_last()) + pieces.last().text
    }
}

/// The text of the lines, each ended by a newline.
pub open spec fn lines_text(lines: Seq<Seq<PieceModel>>) -> Seq<char>
    decreases lines.len(),
{
    if lines.len() == 0 {
        Seq::empty()
    } else {
        lines_text(lines.drop_last()) + line_text(lines.last()) + seq!['\n']
    }
}

/// The plain-text rendering of a table that is not too wide.
pub open spec fn raw_spec(t: TableModel) -> Result<Seq<char>, TableError> {
    match layout_spec(t) {
        Ok(ls) => Ok(lines_text(ls)),
        Err(e) => Err(e),
    }
}

pub proof fn lemma_span_sum_concat(a: Seq<nat>, b: Seq<nat>)
    ensures
        span_sum(a + b) == span_sum(a) + span_sum(b),
    decreases b.len(),
{
    if b.len() == 0 {
        assert(a + b =~= a);
    } else {
        assert((a + b).drop_last() =~= a + b.drop_last());
        lemma_span_sum_concat(a, b.drop_last());
    }
}

/// The columns `a..b` take no more than all the columns.
pub proof fn lemma_span_sum_subrange(s: Seq<nat>, a: int, b: int)
    requires
        0 <= a <= b <= s.len(),
    ensures
        span_sum(s.subrange(a, b)) <= span_sum(s),
        span_sum(s.subrange(0, b)) <= span_sum(s),
{
    lemma_span_sum_concat(s.subrange(0, a), s.subrange(a, b));
    assert(s.subrange(0, a) + s.subrange(a, b) =~= s.subrange(0, b));
    lemma_span_sum_concat(s.subrange(0, b), s.subrange(b, s.len() as int));
    assert(s.subrange(0, b) + s.subrange(b, s.len() as int) =~= s);
}

/// Extending a run of columns by one adds that column and its margins.
pub proof fn lemma_span_sum_step(s: Seq<nat>, a: int, b: int)
    requires
        0 <= a <= b < s.len(),
    ensures
        span_sum(s.subrange(a, b + 1)) == span_sum(s.subrange(a, b)) + s[b] + 2,
{
    assert(s.subrange(a, b + 1).drop_last() =~= s.subrange(a, b));
}

/// Machine widths read as natural numbers.
pub open spec fn nats(v: Seq<usize>) -> Seq<nat> {
    v.map_values(|w: usize| w as nat)
}

/// `acc` in front of a successful sequence; an error unchanged.
pub open spec fn prepend_all<T>(acc: Seq<T>, r: Result<Seq<T>, TableError>) -> Result<Seq<T>, TableError> {
    match r {
        Ok(rest) => Ok(acc + rest),
        Err(e) => Err(e),
    }
}

pub proof fn lemma_prepend_all_step<T>(acc: Seq<T>, p: T, r: Result<Seq<T>, TableError>)
    ensures
        prepend_all(acc, prepend(p, r)) == prepend_all(acc.push(p), r),
{
    if let Ok(rest) = r {
        assert(acc + (seq![p] + rest) =~= acc.push(p) + rest);
    }
}

/// After a successful validation every row has the column count.
pub proof fn lemma_validated_rows(rows: Seq<Seq<CellModel>>)
    requires
        validated(rows) is Ok,
    ensures
        forall|y: int| 0 <= y < rows.len() ==> #[trigger] rows[y].len() == validated(rows)->Ok_0,
{
    if rows.len() > 0 {
        assert forall|y: int| 0 <= y < rows.len() implies #[trigger] rows[y].len() == rows[0].len() by {
            if y > 0 {
                lemma_first_mismatch_none(rows, rows[0].len(), 1, y);
            }
        }
    }
}

proof fn lemma_first_mismatch_none(rows: Seq<Seq<CellModel>>, e: nat, i: nat, y: int)
    requires
        first_mismatch(rows, e, i) is None,
        i <= y < rows.len(),
    ensures
        rows[y].len() == e,
    decreases y - i,
{
    if i < y {
        lemma_first_mismatch_none(rows, e, i + 1, y);
    }
}

/// The message of the error for a table wider than a machine word.
pub open spec fn wide_message() -> Seq<char> {
    "table width exceeds the machine word"@
}

/// The message of the error for a row longer than the columns asked for.
pub open spec fn index_message() -> Seq<char> {
    "Update width failed(index error)"@
}

/// A plain-text rendering as character sequences.
pub open spec fn text_outcome(r: Result<String, TableError>) -> Result<Seq<char>, ErrorView> {
    match r {
        Ok(s) => Ok(s@),
        Err(e) => Err(e@),
    }
}

/// The plain-text rendering of any table: the text, or the error that
/// rendering it gives, messages included.
pub open spec fn raw_outcome(t: TableModel) -> Result<Seq<char>, ErrorView> {
    if too_wide(t) {
        Err(ErrorView::Unexpected(wide_message()))
    } else {
        match raw_spec(t) {
            Ok(s) => Ok(s),
            Err(e) => Err(e@),
        }
    }
}

} // verus!
