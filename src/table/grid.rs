use vstd::prelude::*;

use super::cell::Cell;
use super::content::Content;
use super::layout::{
    column_width, column_widths, declared, edge_piece, first_mismatch, first_nonempty, layout_spec,
    lemma_prepend_all_step, lemma_span_sum_step, lemma_span_sum_subrange, lemma_validated_rows,
    index_message, line_text, lines_text, raw_outcome, text_outcome, wide_message, merged_width, nats, prepend_all, raw_spec, row_line, row_lines,
    row_pieces, rows_model, rule_piece, span_sum, splitter_model, table_width, too_wide, validated,
    with_overflow_model, PieceModel, TableModel,
};
use super::markdown::{join_with, markdown_spec, md_cell, md_cells, md_line, md_mark, md_marks, md_rows};
use super::text::{fill, repeat_glyph};
use super::settings::{no_border, Align, Border, Overflow};
use crate::error::TableError;
use vstd::string::StringExecFns;

verus! {

/// A piece of an output line: drawn text, and the column and row of the
/// cell it shows (`None` for border glyphs and rules).
pub struct Piece {
    pub text: String,
    pub cell: Option<(usize, usize)>,
}

impl View for Piece {
    type V = PieceModel;

    open spec fn view(&self) -> PieceModel {
        PieceModel { text: self.text@, cell: self.cell }
    }
}

/// The models of a line's pieces.
pub open spec fn pieces_model(v: Seq<Piece>) -> Seq<PieceModel> {
    v.map_values(|p: Piece| p@)
}

/// The models of the pieces of several lines.
pub open spec fn lines_model(v: Seq<Vec<Piece>>) -> Seq<Seq<PieceModel>> {
    v.map_values(|l: Vec<Piece>| pieces_model(l@))
}

fn edge() -> (r: Piece)
    ensures
        r@ == edge_piece(),
{
    proof {
        reveal_strlit("┃");
    }
    let p = Piece { text: String::from_str("┃"), cell: None };
    assert(p@.text =~= edge_piece().text);
    p
}

fn wide_error() -> (r: TableError)
    ensures
        r matches TableError::Unexpected(m) && m@ == wide_message(),
{
    TableError::Unexpected(String::from_str("table width exceeds the machine word"))
}

fn rule(width: usize) -> (r: Piece)
    ensures
        r@ == rule_piece(width as nat),
{
    proof {
        reveal_strlit("━");
    }
    Piece { text: repeat_glyph("━", width), cell: None }
}

/// A table: rows of cells, with a border.
#[derive(Clone)]
pub struct Table {
    table: Vec<Vec<Cell>>,
    border: Border,
}

impl View for Table {
    type V = TableModel;

    closed spec fn view(&self) -> TableModel {
        TableModel { rows: rows_model(self.table@), border: self.border }
    }
}

impl Table {
    /// A table of the given rows, without border.
    pub fn new(table: Vec<Vec<Cell>>) -> (r: Table)
        ensures
            r@.rows == rows_model(table@),
            r@.border == no_border(),
    {
        Table { table, border: Border::none() }
    }

    /// A table of a header row, optionally a rule of splitter cells under
    /// it (one per header cell), and then the given rows; without border.
    pub fn create(header: Vec<Cell>, cell: Vec<Vec<Cell>>, splitter: bool) -> (r: Table)
        ensures
            r@.rows == seq![header@.map_values(|c: Cell| c@)] + (if splitter {
                seq![Seq::new(header@.len(), |_i: int| splitter_model())]
            } else {
                Seq::empty()
            }) + rows_model(cell@),
            r@.border == no_border(),
    {
        let n = header.len();
        let mut v: Vec<Vec<Cell>> = Vec::new();
        v.push(header);
        if splitter {
            let mut rule: Vec<Cell> = Vec::new();
            let mut i: usize = 0;
            while i < n
                invariant
                    i <= n,
                    rule@.len() == i,
                    forall|k: int| 0 <= k < i ==> #[trigger] rule@[k]@ == splitter_model(),
                decreases n - i,
            {
                rule.push(Cell::default().with_content(Content::Splitter));
                i = i + 1;
            }
            assert(rule@.map_values(|c: Cell| c@) =~= Seq::new(n as nat, |_i: int| splitter_model()));
            v.push(rule);
        }
        let mut rest = cell;
        let ghost first = v@;
        v.append(&mut rest);
        let r = Table { table: v, border: Border::none() };
        assert(r@.rows =~= seq![header@.map_values(|c: Cell| c@)] + (if splitter {
            seq![Seq::new(n as nat, |_i: int| splitter_model())]
        } else {
            Seq::empty()
        }) + rows_model(cell@));
        r
    }

    pub fn with_border(self, border: Border) -> (r: Table)
        ensures
            r@ == (TableModel { border, ..self@ }),
    {
        let mut t = self;
        t.set_border(border);
        t
    }

    pub fn set_border(&mut self, border: Border)
        ensures
            final(self)@ == (TableModel { border, ..old(self)@ }),
    {
        self.border = border;
    }

    /// Sets the overflow of every cell of the table.
    pub fn overwrite_overflow(&mut self, overflow: Overflow)
        ensures
            final(self)@.border == old(self)@.border,
            final(self)@.rows.len() == old(self)@.rows.len(),
            forall|y: int|
                0 <= y < old(self)@.rows.len() ==> (#[trigger] final(self)@.rows[y]).len()
                    == old(self)@.rows[y].len(),
            forall|y: int, x: int|
                0 <= y < old(self)@.rows.len() && 0 <= x < old(self)@.rows[y].len()
                    ==> #[trigger] final(self)@.rows[y][x] == with_overflow_model(
                    old(self)@.rows[y][x],
                    overflow,
                ),
    {
        let ghost before = self@;
        let mut y: usize = 0;
        while y < self.table.len()
            invariant
                y <= self.table@.len(),
                self.table@.len() == before.rows.len(),
                self.border == before.border,
                forall|j: int| 0 <= j < before.rows.len() ==> (#[trigger] self.table@[j])@.len() == before.rows[j].len(),
                forall|j: int, x: int|
                    0 <= j < y && 0 <= x < before.rows[j].len() ==> #[trigger] self.table@[j]@[x]@
                        == with_overflow_model(before.rows[j][x], overflow),
                forall|j: int, x: int|
                    y <= j < before.rows.len() && 0 <= x < before.rows[j].len() ==> #[trigger] self.table@[j]@[x]@
                        == before.rows[j][x],
            decreases before.rows.len() - y,
        {
            let mut x: usize = 0;
            while x < self.table[y].len()
                invariant
                    y < self.table@.len(),
                    x <= self.table@[y as int]@.len(),
                    self.table@.len() == before.rows.len(),
                    self.border == before.border,
                    forall|j: int| 0 <= j < before.rows.len() ==> (#[trigger] self.table@[j])@.len() == before.rows[j].len(),
                    forall|j: int, k: int|
                        0 <= j < y && 0 <= k < before.rows[j].len() ==> #[trigger] self.table@[j]@[k]@
                            == with_overflow_model(before.rows[j][k], overflow),
                    forall|j: int, k: int|
                        y < j < before.rows.len() && 0 <= k < before.rows[j].len() ==> #[trigger] self.table@[j]@[k]@
                            == before.rows[j][k],
                    forall|k: int|
                        0 <= k < x ==> #[trigger] self.table@[y as int]@[k]@
                            == with_overflow_model(before.rows[y as int][k], overflow),
                    forall|k: int|
                        x <= k < before.rows[y as int].len() ==> #[trigger] self.table@[y as int]@[k]@
                            == before.rows[y as int][k],
                decreases before.rows[y as int].len() - x,
            {
                self.table[y][x].set_overflow(overflow);
                x = x + 1;
            }
            y = y + 1;
        }
    }

    /// The number of columns: the first row's length, provided every row
    /// has that length (0 for a table without rows).
    pub fn validate(&self) -> (r: Result<usize, TableError>)
        ensures
            match validated(self@.rows) {
                Ok(n) => r matches Ok(k) && k == n,
                Err(e) => r == Err::<usize, TableError>(e),
            },
    {
        if self.table.len() == 0 {
            return Ok(0);
        }
        let e = self.table[0].len();
        let mut i: usize = 1;
        while i < self.table.len()
            invariant
                1 <= i <= self.table@.len(),
                e == self@.rows[0].len(),
                first_mismatch(self@.rows, e as nat, 1) == first_mismatch(self@.rows, e as nat, i as nat),
            decreases self.table@.len() - i,
        {
            let l = self.table[i].len();
            if l != e {
                return Err(TableError::InvalidTableSize { row: i, expected: e, actual: l });
            }
            i = i + 1;
        }
        Ok(e)
    }

    /// The width of each of the first `w` columns, or an error where a row
    /// has more than `w` cells.
    pub fn update_width(&self, w: usize) -> (r: Result<Vec<usize>, TableError>)
        ensures
            (forall|y: int| 0 <= y < self@.rows.len() ==> #[trigger] self@.rows[y].len() <= w) ==> (
            r matches Ok(v) && v@.len() == w && forall|x: int|
                0 <= x < w ==> #[trigger] v@[x] == column_width(self@.rows, x)),
            (exists|y: int| 0 <= y < self@.rows.len() && #[trigger] self@.rows[y].len() > w) ==> (
            r matches Err(TableError::Unexpected(m)) && m@ == index_message()),
    {
        let mut v: Vec<usize> = Vec::new();
        let mut i: usize = 0;
        while i < w
            invariant
                i <= w,
                v@.len() == i,
                forall|x: int| 0 <= x < i ==> #[trigger] v@[x] == 0,
            decreases w - i,
        {
            v.push(0);
            i = i + 1;
        }
        let ghost rows = self@.rows;
        let mut y: usize = 0;
        while y < self.table.len()
            invariant
                y <= rows.len(),
                rows == self@.rows,
                v@.len() == w,
                forall|j: int| 0 <= j < y ==> #[trigger] rows[j].len() <= w,
                forall|x: int| 0 <= x < w ==> #[trigger] v@[x] == column_width(rows.take(y as int), x),
            decreases rows.len() - y,
        {
            let row = &self.table[y];
            let mut x: usize = 0;
            while x < row.len()
                invariant
                    y < rows.len(),
                    rows == self@.rows,
                    row@.map_values(|c: Cell| c@) == rows[y as int],
                    x <= row@.len(),
                    v@.len() == w,
                    x <= w,
                    forall|k: int|
                        0 <= k < x ==> #[trigger] v@[k] == (if declared(rows[y as int][k]) > column_width(
                            rows.take(y as int),
                            k,
                        ) {
                            declared(rows[y as int][k])
                        } else {
                            column_width(rows.take(y as int), k)
                        }),
                    forall|k: int| x <= k < w ==> #[trigger] v@[k] == column_width(rows.take(y as int), k),
                decreases row@.len() - x,
            {
                if x >= w {
                    proof {
                        assert(rows[y as int].len() > w);
                    }
                    proof {
                        reveal_strlit("Update width failed(index error)");
                    }
                    return Err(TableError::Unexpected(String::from_str("Update width failed(index error)")));
                }
                if let Some(iw) = row[x].get_width() {
                    if iw > v[x] {
                        v.set(x, iw);
                    }
                }
                x = x + 1;
            }
            proof {
                assert(rows.take(y + 1).drop_last() =~= rows.take(y as int));
                assert forall|k: int| 0 <= k < w implies #[trigger] v@[k] == column_width(rows.take(y + 1), k) by {
                    assert(rows.take(y + 1).last() == rows[y as int]);
                }
            }
            y = y + 1;
        }
        proof {
            assert(rows.take(rows.len() as int) =~= rows);
        }
        Ok(v)
    }

    /// The pieces of row `y` between the edges that the border draws.
    fn row_pieces_of(&self, y: usize, widths: &Vec<usize>) -> (r: Result<Vec<Piece>, TableError>)
        requires
            y < self@.rows.len(),
            self@.rows[y as int].len() == widths@.len(),
            span_sum(nats(widths@)) <= usize::MAX,
        ensures
            match row_line(self@.rows[y as int], nats(widths@), y as nat, self@.border) {
                Ok(l) => r matches Ok(v) && pieces_model(v@) == l,
                Err(e) => r == Err::<Vec<Piece>, TableError>(e),
            },
    {
        let row = &self.table[y];
        let ghost rm = self@.rows[y as int];
        let ghost w = nats(widths@);
        assert(row@.map_values(|c: Cell| c@) == rm);
        let mut mid: Vec<Piece> = Vec::new();
        let mut x: usize = 0;
        assert(pieces_model(mid@) =~= Seq::<PieceModel>::empty());
        assert(prepend_all(Seq::<PieceModel>::empty(), row_pieces(rm, w, y as nat, 0)) == row_pieces(rm, w, y as nat, 0)) by {
            if let Ok(ps) = row_pieces(rm, w, y as nat, 0) {
                assert(Seq::<PieceModel>::empty() + ps =~= ps);
            }
        }
        while x < row.len()
            invariant
                y < self@.rows.len(),
                rm == self@.rows[y as int],
                x <= row@.len(),
                row@.len() == rm.len(),
                rm.len() == w.len(),
                w == nats(widths@),
                span_sum(w) <= usize::MAX,
                forall|k: int| 0 <= k < row@.len() ==> #[trigger] row@[k]@ == rm[k],
                row_pieces(rm, w, y as nat, 0) == prepend_all(pieces_model(mid@), row_pieces(rm, w, y as nat, x as nat)),
            decreases row@.len() - x,
        {
            let cell = &row[x];
            assert(row@[x as int]@ == rm[x as int]);
            match cell.get_merge() {
                None => {
                    proof {
                        lemma_span_sum_step(w, x as int, x as int);
                        lemma_span_sum_subrange(w, x as int, x + 1);
                        assert(w.subrange(x as int, x as int) =~= Seq::<nat>::empty());
                    }
                    let text = cell.render_with_width_raw(widths[x]);
                    let p = Piece { text, cell: Some((x, y)) };
                    proof {
                        lemma_prepend_all_step(pieces_model(mid@), p@, row_pieces(rm, w, y as nat, (x + 1) as nat));
                    }
                    let ghost before = pieces_model(mid@);
                    mid.push(p);
                    assert(pieces_model(mid@) =~= before.push(p@));
                    x = x + 1;
                },
                Some(m) => {
                    if m >= row.len() - x {
                        let e = TableError::MergeOutOfTable { x, y, merge: m, max: row.len() - x - 1 };
                        assert(row_pieces(rm, w, y as nat, x as nat) == Err::<Seq<PieceModel>, TableError>(e));
                        assert(row_pieces(rm, w, y as nat, 0) == Err::<Seq<PieceModel>, TableError>(e));
                                return Err(e);
                    }
                    let end = x + m;
                    let mut mw: usize = widths[x];
                    proof {
                        lemma_span_sum_step(w, x as int, x as int);
                        assert(w.subrange(x as int, x as int) =~= Seq::<nat>::empty());
                    }
                    let mut j: usize = x + 1;
                    while j <= end
                        invariant
                            y < self@.rows.len(),
                            rm == self@.rows[y as int],
                            x < j <= end + 1,
                            end < rm.len(),
                            end == x + m,
                            rm[x as int].merge == Some(m),
                            row_pieces(rm, w, y as nat, 0) == prepend_all(pieces_model(mid@), row_pieces(rm, w, y as nat, x as nat)),
                            row@.len() <= usize::MAX,
                            row@.len() == rm.len(),
                            rm.len() == w.len(),
                            w == nats(widths@),
                            span_sum(w) <= usize::MAX,
                            forall|k: int| 0 <= k < row@.len() ==> #[trigger] row@[k]@ == rm[k],
                            first_nonempty(rm, x + 1, end + 1) == first_nonempty(rm, j as int, end + 1),
                            mw + 2 == span_sum(w.subrange(x as int, j as int)),
                        decreases end + 1 - j,
                    {
                        assert(row@[j as int]@ == rm[j as int]);
                        if !matches!(row[j].get_content(), Content::Empty) {
                            let e = TableError::MergeOverwrite { x: j, y };
                            assert(first_nonempty(rm, j as int, end + 1) == Some(j as int));
                            assert(row_pieces(rm, w, y as nat, x as nat) == Err::<Seq<PieceModel>, TableError>(e));
                            assert(row_pieces(rm, w, y as nat, 0) == Err::<Seq<PieceModel>, TableError>(e));
                            return Err(e);
                        }
                        proof {
                            lemma_span_sum_step(w, x as int, j as int);
                            lemma_span_sum_subrange(w, x as int, j + 1);
                        }
                        mw = mw + widths[j] + 2;
                        j = j + 1;
                    }
                    proof {
                        lemma_span_sum_subrange(w, x as int, end + 1);
                    }
                    let text = cell.render_with_width_raw(mw);
                    let p = Piece { text, cell: Some((x, y)) };
                    proof {
                        assert(mw == merged_width(w, x as int, m as int));
                        lemma_prepend_all_step(pieces_model(mid@), p@, row_pieces(rm, w, y as nat, (end + 1) as nat));
                    }
                    let ghost before = pieces_model(mid@);
                    mid.push(p);
                    assert(pieces_model(mid@) =~= before.push(p@));
                    x = end + 1;
                },
            }
        }
        let mut out: Vec<Piece> = Vec::new();
        if self.border.left {
            out.push(edge());
        }
        let ghost middle = pieces_model(mid@);
        out.append(&mut mid);
        if self.border.right {
            out.push(edge());
        }
        proof {
            let ps = row_pieces(rm, w, y as nat, 0)->Ok_0;
            assert(ps =~= middle + Seq::<PieceModel>::empty());
        }
        assert(pieces_model(out@) =~= row_line(rm, w, y as nat, self@.border)->Ok_0);
        Ok(out)
    }

    /// The lines of the table as pieces: the top rule, one line per row and
    /// the bottom rule, as the border asks. Fails on rows of unequal length,
    /// on a merge that leaves the row or covers a non-empty cell, and on a
    /// table whose width a machine word cannot hold.
    pub fn layout(&self) -> (r: Result<Vec<Vec<Piece>>, TableError>)
        ensures
            too_wide(self@) ==> (r matches Err(TableError::Unexpected(m)) && m@ == wide_message()),
            !too_wide(self@) ==> match layout_spec(self@) {
                Ok(ls) => r matches Ok(v) && lines_model(v@) == ls,
                Err(e) => r == Err::<Vec<Vec<Piece>>, TableError>(e),
            },
    {
        let n = match self.validate() {
            Ok(n) => n,
            Err(e) => return Err(e),
        };
        let ghost rows = self@.rows;
        proof {
            lemma_validated_rows(rows);
        }
        let widths = match self.update_width(n) {
            Ok(v) => v,
            Err(e) => return Err(e),
        };
        let ghost w = nats(widths@);
        assert(w =~= column_widths(rows, n as nat));
        let mut tw: usize = 0;
        let mut x: usize = 0;
        assert(w.subrange(0, 0) =~= Seq::<nat>::empty());
        while x < widths.len()
            invariant
                x <= widths@.len(),
                w == nats(widths@),
                w == column_widths(rows, n as nat),
                rows == self@.rows,
                validated(rows) == Ok::<nat, TableError>(n as nat),
                tw == span_sum(w.subrange(0, x as int)),
            decreases widths@.len() - x,
        {
            proof {
                lemma_span_sum_step(w, 0, x as int);
                lemma_span_sum_subrange(w, 0, x + 1);
            }
            if widths[x] > usize::MAX - 2 || tw > usize::MAX - 2 - widths[x] {
                return Err(wide_error());
            }
            tw = tw + widths[x] + 2;
            x = x + 1;
        }
        assert(w.subrange(0, w.len() as int) =~= w);
        if self.border.left {
            if tw == usize::MAX {
                return Err(wide_error());
            }
            tw = tw + 1;
        }
        if self.border.right {
            if tw == usize::MAX {
                return Err(wide_error());
            }
            tw = tw + 1;
        }
        assert(tw == table_width(w, self@.border));
        assert(!too_wide(self@));
        let mut lines: Vec<Vec<Piece>> = Vec::new();
        if self.border.top {
            let top = vec![rule(tw)];
            assert(pieces_model(top@) =~= seq![rule_piece(tw as nat)]);
            lines.push(top);
        }
        let ghost head = lines_model(lines@);
        assert(head =~= (if self@.border.top {
            seq![seq![rule_piece(tw as nat)]]
        } else {
            Seq::empty()
        }));
        let mut y: usize = 0;
        let ghost mut acc: Seq<Seq<PieceModel>> = Seq::empty();
        assert(row_lines(rows, w, self@.border, 0) == prepend_all(acc, row_lines(rows, w, self@.border, 0))) by {
            if let Ok(ls) = row_lines(rows, w, self@.border, 0) {
                assert(acc + ls =~= ls);
            }
        }
        assert(lines_model(lines@) =~= head + acc);
        while y < self.table.len()
            invariant
                rows == self@.rows,
                y <= rows.len(),
                w == nats(widths@),
                w.len() == n,
                span_sum(w) <= usize::MAX,
                !too_wide(self@),
                w == column_widths(rows, n as nat),
                validated(rows) == Ok::<nat, TableError>(n as nat),
                forall|k: int| 0 <= k < rows.len() ==> #[trigger] rows[k].len() == n,
                lines_model(lines@) == head + acc,
                row_lines(rows, w, self@.border, 0) == prepend_all(acc, row_lines(rows, w, self@.border, y as nat)),
            decreases rows.len() - y,
        {
            match self.row_pieces_of(y, &widths) {
                Ok(l) => {
                    let ghost lm = pieces_model(l@);
                    proof {
                        lemma_prepend_all_step(acc, lm, row_lines(rows, w, self@.border, (y + 1) as nat));
                    }
                    let ghost before = lines_model(lines@);
                    lines.push(l);
                    assert(lines_model(lines@) =~= before.push(lm));
                    proof {
                        acc = acc.push(lm);
                    }
                    assert(lines_model(lines@) =~= head + acc);
                },
                Err(e) => {
                    assert(row_lines(rows, w, self@.border, y as nat) == Err::<Seq<Seq<PieceModel>>, TableError>(e));
                    return Err(e);
                },
            }
            y = y + 1;
        }
        assert(row_lines(rows, w, self@.border, 0) == Ok::<Seq<Seq<PieceModel>>, TableError>(acc)) by {
            assert(acc + Seq::<Seq<PieceModel>>::empty() =~= acc);
        }
        let ghost body = lines_model(lines@);
        if self.border.bottom {
            let bottom = vec![rule(tw)];
            assert(pieces_model(bottom@) =~= seq![rule_piece(tw as nat)]);
            lines.push(bottom);
            assert(lines_model(lines@) =~= body.push(seq![rule_piece(tw as nat)]));
        }
        assert(lines_model(lines@) =~= head + acc + (if self@.border.bottom {
            seq![seq![rule_piece(tw as nat)]]
        } else {
            Seq::empty()
        }));
        Ok(lines)
    }

    /// The table as plain text: its lines, each ended by a newline. Fails as
    /// [`Table::layout`] does.
    pub fn render_raw(&self) -> (r: Result<String, TableError>)
        ensures
            too_wide(self@) ==> (r matches Err(TableError::Unexpected(m)) && m@ == wide_message()),
            !too_wide(self@) ==> match raw_spec(self@) {
                Ok(s) => r matches Ok(t) && t@ == s,
                Err(e) => r == Err::<String, TableError>(e),
            },
            text_outcome(r) == raw_outcome(self@),
    {
        let lines = match self.layout() {
            Ok(lines) => lines,
            Err(e) => return Err(e),
        };
        let ghost lm = lines_model(lines@);
        let mut out = String::new();
        let mut i: usize = 0;
        assert(lm.take(0) =~= Seq::<Seq<PieceModel>>::empty());
        while i < lines.len()
            invariant
                i <= lines@.len(),
                lm == lines_model(lines@),
                out@ == lines_text(lm.take(i as int)),
            decreases lines@.len() - i,
        {
            let line = &lines[i];
            let ghost pm = pieces_model(line@);
            let ghost start = out@;
            let mut k: usize = 0;
            assert(pm.take(0) =~= Seq::<PieceModel>::empty());
            while k < line.len()
                invariant
                    k <= line@.len(),
                    pm == pieces_model(line@),
                    out@ == start + line_text(pm.take(k as int)),
                decreases line@.len() - k,
            {
                out.append(line[k].text.as_str());
                assert(pm.take(k + 1).drop_last() =~= pm.take(k as int));
                assert(out@ =~= start + line_text(pm.take(k + 1)));
                k = k + 1;
            }
            proof {
                reveal_strlit("\n");
            }
            out.append("\n");
            assert(pm.take(pm.len() as int) =~= pm);
            assert(lm.take(i + 1).drop_last() =~= lm.take(i as int));
            assert(out@ =~= lines_text(lm.take(i + 1)));
            i = i + 1;
        }
        assert(lm.take(lm.len() as int) =~= lm);
        Ok(out)
    }

    /// The table as markdown: the first row, a line of alignment markers
    /// taken from the first row alone, then the other rows; widths and merges
    /// play no part. Fails only on rows of unequal length.
    pub fn render_markdown(&self) -> (r: Result<String, TableError>)
        ensures
            match markdown_spec(self@.rows) {
                Ok(s) => r matches Ok(t) && t@ == s,
                Err(e) => r == Err::<String, TableError>(e),
            },
    {
        match self.validate() {
            Ok(_) => {},
            Err(e) => return Err(e),
        }
        let ghost rows = self@.rows;
        if self.table.len() == 0 {
            proof {
                reveal_strlit("┃┃\n┃-┃\n");
            }
            let s = String::from_str("┃┃\n┃-┃\n");
            assert(s@ =~= markdown_spec(rows)->Ok_0);
            return Ok(s);
        }
        let header = &self.table[0];
        let mut marks: Vec<String> = Vec::new();
        let mut x: usize = 0;
        while x < header.len()
            invariant
                x <= header@.len(),
                rows == self@.rows,
                rows.len() > 0,
                header@.map_values(|c: Cell| c@) == rows[0],
                marks@.len() == x,
                forall|k: int| 0 <= k < x ==> #[trigger] marks@[k]@ == md_mark(rows[0][k].align),
            decreases header@.len() - x,
        {
            assert(header@[x as int]@ == rows[0][x as int]);
            let mark = match header[x].get_align() {
                Align::Left => {
                    proof {
                        reveal_strlit(":--");
                    }
                    String::from_str(":--")
                },
                Align::Center => {
                    proof {
                        reveal_strlit(":-:");
                    }
                    String::from_str(":-:")
                },
                Align::Right => {
                    proof {
                        reveal_strlit("--:");
                    }
                    String::from_str("--:")
                },
            };
            assert(mark@ =~= md_mark(rows[0][x as int].align));
            marks.push(mark);
            x = x + 1;
        }
        assert(marks@.map_values(|p: String| p@) =~= md_marks(rows[0]));
        let mut out = markdown_line(&self.table[0]);
        assert(out@ == md_line(md_cells(rows[0])));
        let mark_line = bar_line(&marks);
        out.append(mark_line.as_str());
        let mut y: usize = 1;
        while y < self.table.len()
            invariant
                1 <= y <= rows.len(),
                rows == self@.rows,
                out@ + md_rows(rows, y as nat) == md_line(md_cells(rows[0])) + md_line(md_marks(rows[0])) + md_rows(rows, 1),
            decreases rows.len() - y,
        {
            let line = markdown_line(&self.table[y]);
            assert(line@ == md_line(md_cells(rows[y as int])));
            let ghost before = out@;
            out.append(line.as_str());
            assert(before + md_rows(rows, y as nat) =~= out@ + md_rows(rows, (y + 1) as nat));
            y = y + 1;
        }
        assert(out@ + md_rows(rows, y as nat) =~= out@);
        Ok(out)
    }
}

/// The parts between vertical bars, with a newline.
fn bar_line(parts: &Vec<String>) -> (r: String)
    ensures
        r@ == md_line(parts@.map_values(|p: String| p@)),
{
    proof {
        reveal_strlit("┃");
        reveal_strlit("┃\n");
    }
    let mut s = String::from_str("┃");
    assert(s@ =~= seq!['┃']);
    s.append(join_with(parts, "┃").as_str());
    assert("┃"@ =~= seq!['┃']);
    assert("┃\n"@ =~= seq!['┃', '\n']);
    s.append("┃\n");
    assert(s@ =~= md_line(parts@.map_values(|p: String| p@)));
    s
}

/// A row of cells as a markdown line.
fn markdown_line(row: &Vec<Cell>) -> (r: String)
    ensures
        r@ == md_line(md_cells(row@.map_values(|c: Cell| c@))),
{
    let mut parts: Vec<String> = Vec::new();
    let mut x: usize = 0;
    while x < row.len()
        invariant
            x <= row@.len(),
            parts@.len() == x,
            forall|k: int| 0 <= k < x ==> #[trigger] parts@[k]@ == md_cell(row@[k]@),
        decreases row@.len() - x,
    {
        let part = match row[x].get_content() {
            Content::Empty => String::new(),
            Content::Splitter => {
                proof {
                    reveal_strlit("━━━");
                }
                let s = String::from_str("━━━");
                assert(s@ =~= fill('━', 3));
                s
            },
            Content::Text(t) => t.clone(),
        };
        parts.push(part);
        x = x + 1;
    }
    assert(parts@.map_values(|p: String| p@) =~= md_cells(row@.map_values(|c: Cell| c@)));
    bar_line(&parts)
}

} // verus!
