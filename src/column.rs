//! Column-oriented cells: a cell with position, overflow and padding, and
//! columns of such cells sharing one width.

use vstd::prelude::*;
use vstd::string::{StrSliceExecFns, StringExecFns};

use crate::table::text::{fill, repeat_glyph, spaces};

verus! {

/// What a cell does with text wider than its space.
#[derive(Debug, Clone, Copy, PartialEq, Eq, Structural)]
pub enum CellOverflow {
    Hide,
    Ellipsis,
}

impl Default for CellOverflow {
    fn default() -> (r: Self)
        ensures
            r == CellOverflow::Ellipsis,
    {
        CellOverflow::Ellipsis
    }
}

/// Blank characters inside the cell, taken from its width.
#[derive(Debug, Clone, Copy, PartialEq, Eq, Structural)]
pub struct CellPadding {
    left: usize,
    right: usize,
}

impl CellPadding {
    /// No padding.
    pub fn none() -> (r: Self)
        ensures
            r.left() == 0,
            r.right() == 0,
    {
        CellPadding { left: 0, right: 0 }
    }

    pub fn new(left: usize, right: usize) -> (r: Self)
        ensures
            r.left() == left,
            r.right() == right,
    {
        CellPadding { left, right }
    }

    pub fn set_left(self, left: usize) -> (r: Self)
        ensures
            r.left() == left,
            r.right() == self.right(),
    {
        CellPadding { left, right: self.right }
    }

    pub fn set_right(self, right: usize) -> (r: Self)
        ensures
            r.left() == self.left(),
            r.right() == right,
    {
        CellPadding { left: self.left, right }
    }

    #[verifier::when_used_as_spec(spec_left)]
    pub fn left(&self) -> (r: usize)
        ensures
            r == self.spec_left(),
    {
        self.left
    }

    #[verifier::when_used_as_spec(spec_right)]
    pub fn right(&self) -> (r: usize)
        ensures
            r == self.spec_right(),
    {
        self.right
    }

    pub closed spec fn spec_left(&self) -> usize {
        self.left
    }

    pub closed spec fn spec_right(&self) -> usize {
        self.right
    }
}

impl Default for CellPadding {
    fn default() -> (r: Self)
        ensures
            r.left() == 0,
            r.right() == 0,
    {
        CellPadding { left: 0, right: 0 }
    }
}

/// Where the text of a cell stands within its width.
#[derive(Debug, Clone, Copy, PartialEq, Eq, Structural)]
pub enum CellPosition {
    Left,
    Middle,
    Right,
}

/// What a column cell shows.
#[derive(Debug, Clone)]
pub enum Cell {
    TextCell(String),
    Splitter,
}

/// `text` fitted into `width` characters. Text that fits is kept whole.
/// Otherwise `Hide` keeps the first `width` characters, and `Ellipsis` keeps
/// all but one (width below 3) or all but three and appends as many dots.
/// At width 0 nothing is shown.
pub open spec fn fitted(text: Seq<char>, width: nat, overflow: CellOverflow) -> Seq<char> {
    if text.len() <= width {
        text
    } else {
        match overflow {
            CellOverflow::Hide => text.take(width as int),
            CellOverflow::Ellipsis => if width == 0 {
                Seq::empty()
            } else if width < 3 {
                text.take(width - 1) + seq!['.']
            } else {
                text.take(width - 3) + seq!['.', '.', '.']
            },
        }
    }
}

impl Cell {
    /// What the cell shows in `width` characters.
    pub open spec fn spec_render(&self, width: nat, overflow: CellOverflow) -> Seq<char> {
        match self {
            Cell::TextCell(t) => fitted(t@, width, overflow),
            Cell::Splitter => fill('─', width),
        }
    }

    pub fn is_splitter(&self) -> (r: bool)
        ensures
            r == (self is Splitter),
    {
        matches!(self, Cell::Splitter)
    }

    /// The number of characters of the text; none for a splitter.
    pub fn get_width(&self) -> (r: Option<usize>)
        ensures
            match self {
                Cell::TextCell(t) => r == Some(t@.len() as usize) && t@.len() <= usize::MAX,
                Cell::Splitter => r is None,
            },
    {
        match self {
            Cell::TextCell(text) => Some(text.as_str().unicode_len()),
            Cell::Splitter => None,
        }
    }

    pub fn get_string(&self) -> (r: Option<&String>)
        ensures
            match self {
                Cell::TextCell(t) => r == Some(t),
                Cell::Splitter => r is None,
            },
    {
        match self {
            Cell::TextCell(text) => Some(text),
            Cell::Splitter => None,
        }
    }

    /// The cell drawn into at most `width` characters, with its length.
    pub fn render_with_length(&self, width: usize, overflow: CellOverflow) -> (r: (String, usize))
        ensures
            r.0@ == self.spec_render(width as nat, overflow),
            r.1 == r.0@.len(),
            r.1 <= width,
    {
        match self {
            Cell::Splitter => {
                proof {
                    reveal_strlit("─");
                }
                (repeat_glyph("─", width), width)
            },
            Cell::TextCell(text) => {
                let n = text.as_str().unicode_len();
                if n <= width {
                    return (text.clone(), n);
                }
                match overflow {
                    CellOverflow::Hide => (String::from_str(text.as_str().substring_char(0, width)), width),
                    CellOverflow::Ellipsis => {
                        if width == 0 {
                            (String::new(), 0)
                        } else if width < 3 {
                            let mut s = String::from_str(text.as_str().substring_char(0, width - 1));
                            proof {
                                reveal_strlit(".");
                            }
                            s.append(".");
                            assert(s@ =~= fitted(text@, width as nat, overflow));
                            (s, width)
                        } else {
                            let mut s = String::from_str(text.as_str().substring_char(0, width - 3));
                            proof {
                                reveal_strlit("...");
                            }
                            s.append("...");
                            assert(s@ =~= fitted(text@, width as nat, overflow));
                            (s, width)
                        }
                    },
                }
            },
        }
    }
}

/// `body` placed in `width` characters. In the middle, the left side gets
/// half of the blanks, rounded down, and the right side the rest.
pub open spec fn placed(body: Seq<char>, width: nat, position: CellPosition) -> Seq<char> {
    let diff = (width - body.len()) as nat;
    match position {
        CellPosition::Left => body + fill(' ', diff),
        CellPosition::Right => fill(' ', diff) + body,
        CellPosition::Middle => fill(' ', diff / 2) + body + fill(' ', (diff - diff / 2) as nat),
    }
}

/// The abstract value of a [`TableCell`].
pub struct ColumnCellModel {
    pub cell: Cell,
    pub position: CellPosition,
    pub overflow: CellOverflow,
    pub padding: CellPadding,
    pub width: Option<usize>,
}

/// A column cell drawn into `width` characters plus one of margin on each
/// side. Padding that takes the whole width leaves the cell blank. A
/// splitter is drawn between two rule glyphs, without padding; text keeps
/// its padding inside the margins.
pub open spec fn column_cell_render(m: ColumnCellModel, width: nat) -> Seq<char> {
    let pl = m.padding.spec_left() as nat;
    let pr = m.padding.spec_right() as nat;
    if pl + pr >= width {
        fill(' ', width + 2)
    } else {
        let inner = (width - pl - pr) as nat;
        let body = m.cell.spec_render(inner, m.overflow);
        if m.cell is Splitter {
            seq!['─'] + body + seq!['─']
        } else {
            seq![' '] + fill(' ', pl) + placed(body, inner, m.position) + fill(' ', pr) + seq![' ']
        }
    }
}

/// A cell with position, overflow, padding and an optional width.
#[derive(Debug, Clone)]
pub struct TableCell {
    cell: Cell,
    position: CellPosition,
    overflow: CellOverflow,
    padding: CellPadding,
    width: Option<usize>,
}

impl View for TableCell {
    type V = ColumnCellModel;

    closed spec fn view(&self) -> ColumnCellModel {
        ColumnCellModel {
            cell: self.cell,
            position: self.position,
            overflow: self.overflow,
            padding: self.padding,
            width: self.width,
        }
    }
}

impl TableCell {
    /// A left-placed cell with ellipsis, no padding, and the width of its
    /// text.
    pub fn new(cell: Cell) -> (r: TableCell)
        ensures
            r@.cell == cell,
            r@.position == CellPosition::Left,
            r@.overflow == CellOverflow::Ellipsis,
            r@.padding.spec_left() == 0 && r@.padding.spec_right() == 0,
            match cell {
                Cell::TextCell(t) => r@.width == Some(t@.len() as usize),
                Cell::Splitter => r@.width is None,
            },
    {
        let width = cell.get_width();
        TableCell {
            cell,
            position: CellPosition::Left,
            overflow: CellOverflow::Ellipsis,
            padding: CellPadding::none(),
            width,
        }
    }

    pub fn with_padding(self, padding: CellPadding) -> (r: Self)
        ensures
            r@ == (ColumnCellModel { padding, ..self@ }),
    {
        let mut c = self;
        c.set_padding(padding);
        c
    }

    pub fn set_padding(&mut self, padding: CellPadding)
        ensures
            final(self)@ == (ColumnCellModel { padding, ..old(self)@ }),
    {
        self.padding = padding;
    }

    pub fn with_position(self, position: CellPosition) -> (r: Self)
        ensures
            r@ == (ColumnCellModel { position, ..self@ }),
    {
        let mut c = self;
        c.set_position(position);
        c
    }

    pub fn with_overflow(self, overflow: CellOverflow) -> (r: Self)
        ensures
            r@ == (ColumnCellModel { overflow, ..self@ }),
    {
        let mut c = self;
        c.set_overflow(overflow);
        c
    }

    pub fn set_position(&mut self, position: CellPosition)
        ensures
            final(self)@ == (ColumnCellModel { position, ..old(self)@ }),
    {
        self.position = position;
    }

    pub fn set_overflow(&mut self, overflow: CellOverflow)
        ensures
            final(self)@ == (ColumnCellModel { overflow, ..old(self)@ }),
    {
        self.overflow = overflow;
    }

    pub fn with_width(self, width: usize) -> (r: Self)
        ensures
            r@ == (ColumnCellModel { width: Some(width), ..self@ }),
    {
        let mut c = self;
        c.set_width(width);
        c
    }

    pub fn set_width(&mut self, width: usize)
        ensures
            final(self)@ == (ColumnCellModel { width: Some(width), ..old(self)@ }),
    {
        self.width = Some(width);
    }

    pub fn get_width(&self) -> (r: Option<usize>)
        ensures
            r == self@.width,
    {
        self.width
    }

    /// A copy of the cell.
    pub fn clone_cell(&self) -> (r: Self)
        ensures
            r@ == self@,
    {
        let cell = match &self.cell {
            Cell::TextCell(t) => Cell::TextCell(t.clone()),
            Cell::Splitter => Cell::Splitter,
        };
        TableCell {
            cell,
            position: self.position,
            overflow: self.overflow,
            padding: self.padding,
            width: self.width,
        }
    }

    /// The cell drawn into `width` characters plus its margins, as plain
    /// text.
    pub fn render_raw(&self, width: usize) -> (r: String)
        requires
            width <= usize::MAX - 2,
        ensures
            r@ == column_cell_render(self@, width as nat),
    {
        let pl = self.padding.left();
        let pr = self.padding.right();
        if pl >= width || pr >= width - pl {
            return spaces(width + 2);
        }
        let inner = width - pl - pr;
        let (content, clen) = self.cell.render_with_length(inner, self.overflow);
        if self.cell.is_splitter() {
            proof {
                reveal_strlit("─");
            }
            let mut s = String::from_str("─");
            s.append(content.as_str());
            s.append("─");
            assert(s@ =~= column_cell_render(self@, width as nat));
            return s;
        }
        let diff = inner - clen;
        let mut s = spaces(1);
        s.append(spaces(pl).as_str());
        let ghost before = s@;
        match self.position {
            CellPosition::Left => {
                s.append(content.as_str());
                s.append(spaces(diff).as_str());
            },
            CellPosition::Right => {
                s.append(spaces(diff).as_str());
                s.append(content.as_str());
            },
            CellPosition::Middle => {
                let left = diff / 2;
                s.append(spaces(left).as_str());
                s.append(content.as_str());
                s.append(spaces(diff - left).as_str());
            },
        }
        assert(s@ =~= before + placed(content@, inner as nat, self.position));
        s.append(spaces(pr).as_str());
        s.append(spaces(1).as_str());
        assert(s@ =~= column_cell_render(self@, width as nat));
        s
    }
}

/// The abstract value of a [`TableColumn`].
pub struct ColumnModel {
    pub cells: Seq<ColumnCellModel>,
    pub width: nat,
}

/// The cells at index `j` of the rows that have one, in row order.
pub open spec fn column_cells(rows: Seq<Seq<ColumnCellModel>>, j: int) -> Seq<ColumnCellModel>
    decreases rows.len(),
{
    if rows.len() == 0 {
        Seq::empty()
    } else {
        column_cells(rows.drop_last(), j) + (if 0 <= j < rows.last().len() {
            seq![rows.last()[j]]
        } else {
            Seq::empty()
        })
    }
}

/// The length of the longest row.
pub open spec fn longest(rows: Seq<Seq<ColumnCellModel>>) -> nat
    decreases rows.len(),
{
    if rows.len() == 0 {
        0
    } else {
        let rest = longest(rows.drop_last());
        if rows.last().len() > rest {
            rows.last().len()
        } else {
            rest
        }
    }
}

/// The width a cell asks of its column: its own, or 1 where it has none.
pub open spec fn asked(c: ColumnCellModel) -> nat {
    match c.width {
        Some(w) => w as nat,
        None => 1,
    }
}

/// The width of a column of cells: what its widest cell asks, at least 3.
pub open spec fn column_fit(cells: Seq<ColumnCellModel>) -> nat
    decreases cells.len(),
{
    if cells.len() == 0 {
        3
    } else {
        let rest = column_fit(cells.drop_last());
        if asked(cells.last()) > rest {
            asked(cells.last())
        } else {
            rest
        }
    }
}

/// A column: cells drawn at one shared width.
pub struct TableColumn {
    cells: Vec<TableCell>,
    width: usize,
}

impl View for TableColumn {
    type V = ColumnModel;

    closed spec fn view(&self) -> ColumnModel {
        ColumnModel { cells: self.cells@.map_values(|c: TableCell| c@), width: self.width as nat }
    }
}

impl TableColumn {
    pub fn new(cells: Vec<TableCell>, width: usize) -> (r: TableColumn)
        ensures
            r@.cells == cells@.map_values(|c: TableCell| c@),
            r@.width == width,
    {
        TableColumn { cells, width }
    }

    pub fn with_overflow(self, overflow: CellOverflow) -> (r: Self)
        ensures
            r@.width == self@.width,
            r@.cells.len() == self@.cells.len(),
            forall|i: int|
                0 <= i < self@.cells.len() ==> #[trigger] r@.cells[i] == (ColumnCellModel {
                    overflow,
                    ..self@.cells[i]
                }),
    {
        let mut c = self;
        c.set_overflow(overflow);
        c
    }

    pub fn set_overflow(&mut self, overflow: CellOverflow)
        ensures
            final(self)@.width == old(self)@.width,
            final(self)@.cells.len() == old(self)@.cells.len(),
            forall|i: int|
                0 <= i < old(self)@.cells.len() ==> #[trigger] final(self)@.cells[i] == (ColumnCellModel {
                    overflow,
                    ..old(self)@.cells[i]
                }),
    {
        let ghost before = self@;
        let mut i: usize = 0;
        while i < self.cells.len()
            invariant
                i <= self.cells@.len(),
                self.cells@.len() == before.cells.len(),
                self.width == before.width,
                forall|k: int|
                    0 <= k < i ==> #[trigger] self.cells@[k]@ == (ColumnCellModel { overflow, ..before.cells[k] }),
                forall|k: int| i <= k < before.cells.len() ==> #[trigger] self.cells@[k]@ == before.cells[k],
            decreases before.cells.len() - i,
        {
            self.cells[i].set_overflow(overflow);
            i = i + 1;
        }
    }

    pub fn with_width(self, width: usize) -> (r: Self)
        ensures
            r@ == (ColumnModel { width: width as nat, ..self@ }),
    {
        let mut c = self;
        c.set_width(width);
        c
    }

    pub fn set_width(&mut self, width: usize)
        ensures
            final(self)@ == (ColumnModel { width: width as nat, ..old(self)@ }),
    {
        self.width = width;
    }

    pub fn get_width(&self) -> (r: usize)
        ensures
            r == self@.width,
    {
        self.width
    }

    /// The width with the two margins.
    pub fn get_render_width(&self) -> (r: usize)
        requires
            self@.width <= usize::MAX - 2,
        ensures
            r == self@.width + 2,
    {
        self.width + 2
    }

    fn add(&mut self, cell: TableCell)
        ensures
            final(self)@.cells == old(self)@.cells.push(cell@),
            final(self)@.width == (if asked(cell@) > old(self)@.width {
                asked(cell@)
            } else {
                old(self)@.width
            }),
    {
        let w = match cell.get_width() {
            Some(w) => w,
            None => 1,
        };
        if w > self.width {
            self.width = w;
        }
        self.cells.push(cell);
        assert(self@.cells =~= old(self)@.cells.push(cell@));
    }

    /// The columns of rows of cells: column `j` holds the cells at index `j`
    /// of the rows that have one, in row order, and is as wide as its
    /// widest cell asks (a cell without width asks 1), at least 3.
    pub fn from_cells(cells: Vec<Vec<TableCell>>) -> (r: Vec<TableColumn>)
        ensures
            r@.len() == longest(cells@.map_values(|row: Vec<TableCell>| row@.map_values(|c: TableCell| c@))),
            forall|j: int|
                0 <= j < r@.len() ==> (#[trigger] r@[j])@ == (ColumnModel {
                    cells: column_cells(cells@.map_values(|row: Vec<TableCell>| row@.map_values(|c: TableCell| c@)), j),
                    width: column_fit(column_cells(cells@.map_values(|row: Vec<TableCell>| row@.map_values(|c: TableCell| c@)), j)),
                }),
    {
        let ghost rows = cells@.map_values(|row: Vec<TableCell>| row@.map_values(|c: TableCell| c@));
        let mut cols: Vec<TableColumn> = Vec::new();
        let mut y: usize = 0;
        assert(rows.take(0) =~= Seq::<Seq<ColumnCellModel>>::empty());
        while y < cells.len()
            invariant
                y <= cells@.len(),
                rows == cells@.map_values(|row: Vec<TableCell>| row@.map_values(|c: TableCell| c@)),
                cols@.len() == longest(rows.take(y as int)),
                forall|j: int|
                    0 <= j < cols@.len() ==> (#[trigger] cols@[j])@ == (ColumnModel {
                        cells: column_cells(rows.take(y as int), j),
                        width: column_fit(column_cells(rows.take(y as int), j)),
                    }),
            decreases cells@.len() - y,
        {
            let row = &cells[y];
            let ghost prev = rows.take(y as int);
            let ghost next = rows.take(y + 1);
            assert(next.drop_last() =~= prev);
            assert(next.last() == rows[y as int]);
            assert(row@.map_values(|c: TableCell| c@) == rows[y as int]);
            let mut x: usize = 0;
            while x < row.len()
                invariant
                    x <= row@.len(),
                    row@.map_values(|c: TableCell| c@) == rows[y as int],
                    next.drop_last() == prev,
                    next.len() == y + 1,
                    next.last() == rows[y as int],
                    cols@.len() == (if x > longest(prev) {
                        x as nat
                    } else {
                        longest(prev)
                    }),
                    forall|j: int|
                        0 <= j < cols@.len() ==> (#[trigger] cols@[j])@ == (if j < x {
                            ColumnModel {
                                cells: column_cells(next, j),
                                width: column_fit(column_cells(next, j)),
                            }
                        } else {
                            ColumnModel {
                                cells: column_cells(prev, j),
                                width: column_fit(column_cells(prev, j)),
                            }
                        }),
                decreases row@.len() - x,
            {
                let cell = row[x].clone_cell();
                assert(cell@ == rows[y as int][x as int]);
                assert(next.last().len() == row@.len());
                assert(column_cells(next, x as int) =~= column_cells(prev, x as int).push(cell@));
                assert(column_cells(prev, x as int).push(cell@).drop_last() =~= column_cells(prev, x as int));
                if x < cols.len() {
                    cols[x].add(cell);
                } else {
                    proof {
                        assert(column_cells(prev, x as int) =~= Seq::<ColumnCellModel>::empty()) by {
                            lemma_column_cells_beyond(prev, x as int);
                        }
                    }
                    let mut col = TableColumn { cells: Vec::new(), width: 3 };
                    assert(col@.cells =~= Seq::<ColumnCellModel>::empty());
                    col.add(cell);
                    cols.push(col);
                }
                x = x + 1;
            }
            proof {
                assert forall|j: int| 0 <= j < cols@.len() implies (#[trigger] cols@[j])@ == (ColumnModel {
                    cells: column_cells(next, j),
                    width: column_fit(column_cells(next, j)),
                }) by {
                    if j >= x {
                        assert(column_cells(next, j) =~= column_cells(prev, j) + Seq::<ColumnCellModel>::empty());
                    }
                }
            }
            y = y + 1;
        }
        assert(rows.take(rows.len() as int) =~= rows);
        cols
    }

    /// Every cell drawn at the column's width, as plain text.
    pub fn render_raw(&self) -> (r: Vec<String>)
        requires
            self@.width <= usize::MAX - 2,
        ensures
            r@.len() == self@.cells.len(),
            forall|i: int| 0 <= i < r@.len() ==> #[trigger] r@[i]@ == column_cell_render(self@.cells[i], self@.width),
    {
        let mut out: Vec<String> = Vec::new();
        let mut i: usize = 0;
        while i < self.cells.len()
            invariant
                i <= self.cells@.len(),
                self@.width <= usize::MAX - 2,
                out@.len() == i,
                forall|k: int| 0 <= k < i ==> #[trigger] out@[k]@ == column_cell_render(self@.cells[k], self@.width),
            decreases self.cells@.len() - i,
        {
            out.push(self.cells[i].render_raw(self.width));
            i = i + 1;
        }
        out
    }
}

proof fn lemma_column_cells_beyond(rows: Seq<Seq<ColumnCellModel>>, j: int)
    requires
        j >= longest(rows),
    ensures
        column_cells(rows, j) == Seq::<ColumnCellModel>::empty(),
    decreases rows.len(),
{
    if rows.len() > 0 {
        lemma_column_cells_beyond(rows.drop_last(), j);
        assert(column_cells(rows.drop_last(), j) + Seq::<ColumnCellModel>::empty() =~= Seq::<ColumnCellModel>::empty());
    }
}

} // verus!
