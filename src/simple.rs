//! A simple text table: a title row, a rule, and rows that are cells, plain
//! text wrapped across the table, rules or blank lines.

use itertools::Itertools;
use vstd::prelude::*;
use vstd::string::{StrSliceExecFns, StringExecFns};

use crate::format_error::FormatError;
use crate::table::markdown::{join_with, joined};
use crate::table::text::{fill, repeat_glyph, spaces};

verus! {

/// Alignment of a cell of a simple table.
#[derive(Debug, Clone, Copy, PartialEq, Eq, PartialOrd, Ord, Structural)]
pub enum TableAlign {
    Left,
    Right,
}

/// The abstract value of a [`TableCell`].
pub struct TextCellModel {
    pub text: Seq<char>,
    pub align: TableAlign,
}

/// A cell of a simple table: text and alignment.
#[derive(Debug, Clone)]
pub struct TableCell {
    content: String,
    align: TableAlign,
}

impl View for TableCell {
    type V = TextCellModel;

    closed spec fn view(&self) -> TextCellModel {
        TextCellModel { text: self.content@, align: self.align }
    }
}

impl TableCell {
    /// A left-aligned cell holding `content`.
    pub fn new(content: &str) -> (r: TableCell)
        ensures
            r@ == (TextCellModel { text: content@, align: TableAlign::Left }),
    {
        TableCell { content: String::from_str(content), align: TableAlign::Left }
    }

    pub fn with_align(self, align: TableAlign) -> (r: TableCell)
        ensures
            r@ == (TextCellModel { align, ..self@ }),
    {
        TableCell { content: self.content, align }
    }

    pub fn content(&self) -> (r: &String)
        ensures
            r@ == self@.text,
    {
        &self.content
    }

    pub fn align(&self) -> (r: TableAlign)
        ensures
            r == self@.align,
    {
        self.align
    }

    fn copy(&self) -> (r: TableCell)
        ensures
            r@ == self@,
    {
        TableCell { content: self.content.clone(), align: self.align }
    }
}

/// The abstract value of a [`TableRow`].
pub enum RowModel {
    Row(Seq<TextCellModel>),
    PlainText(Seq<char>),
    Splitter,
    BlankLine,
}

/// A row of a simple table.
#[derive(Debug, Clone)]
pub enum TableRow {
    /// Cells, one per column.
    Row(Vec<TableCell>),
    /// Text across the whole table, wrapped where it is too long.
    PlainText(String),
    /// A horizontal rule.
    Splitter,
    /// A blank line between the side bars.
    BlankLine,
}

impl View for TableRow {
    type V = RowModel;

    open spec fn view(&self) -> RowModel {
        match self {
            TableRow::Row(cells) => RowModel::Row(cells@.map_values(|c: TableCell| c@)),
            TableRow::PlainText(t) => RowModel::PlainText(t@),
            TableRow::Splitter => RowModel::Splitter,
            TableRow::BlankLine => RowModel::BlankLine,
        }
    }
}

impl TableRow {
    fn copy(&self) -> (r: TableRow)
        ensures
            r@ == self@,
    {
        match self {
            TableRow::Row(cells) => {
                let mut v: Vec<TableCell> = Vec::new();
                let mut i: usize = 0;
                while i < cells.len()
                    invariant
                        i <= cells@.len(),
                        v@.len() == i,
                        forall|k: int| 0 <= k < i ==> #[trigger] v@[k]@ == cells@[k]@,
                    decreases cells@.len() - i,
                {
                    v.push(cells[i].copy());
                    i = i + 1;
                }
                assert(v@.map_values(|c: TableCell| c@) =~= cells@.map_values(|c: TableCell| c@));
                TableRow::Row(v)
            },
            TableRow::PlainText(t) => TableRow::PlainText(t.clone()),
            TableRow::Splitter => TableRow::Splitter,
            TableRow::BlankLine => TableRow::BlankLine,
        }
    }
}

/// The abstract value of a simple [`Table`].
pub struct SimpleTableModel {
    pub rows: Seq<RowModel>,
    pub column_width: Seq<nat>,
    pub table_width: nat,
}

/// Whether every row of cells has `n` cells.
pub open spec fn rows_have(rows: Seq<RowModel>, n: nat) -> bool {
    forall|y: int| 0 <= y < rows.len() ==> (#[trigger] rows[y] matches RowModel::Row(c) ==> c.len() == n)
}

/// The width of column `x`: the longest text in it.
pub open spec fn text_width(rows: Seq<RowModel>, x: int) -> nat
    decreases rows.len(),
{
    if rows.len() == 0 {
        0
    } else {
        let rest = text_width(rows.drop_last(), x);
        let here = match rows.last() {
            RowModel::Row(c) => if 0 <= x < c.len() {
                c[x].text.len()
            } else {
                0
            },
            _ => 0,
        };
        if here > rest {
            here
        } else {
            rest
        }
    }
}

/// The sum of the lengths.
pub open spec fn sum_of(v: Seq<nat>) -> nat
    decreases v.len(),
{
    if v.len() == 0 {
        0
    } else {
        sum_of(v.drop_last()) + v.last()
    }
}

/// The rows of a table built from a title and further rows.
pub open spec fn titled_rows(title: Seq<TextCellModel>, content: Seq<RowModel>) -> Seq<RowModel> {
    seq![RowModel::Row(title), RowModel::Splitter] + content
}

/// Whether every text in a row of cells fits its column.
pub open spec fn texts_fit(rows: Seq<RowModel>, widths: Seq<nat>) -> bool {
    forall|y: int|
        0 <= y < rows.len() ==> (#[trigger] rows[y] matches RowModel::Row(c) ==> forall|x: int|
            0 <= x < c.len() ==> (#[trigger] c[x]).text.len() <= widths[x])
}

/// `text` cut into pieces of `size` characters, the last one shorter.
pub open spec fn chunked(text: Seq<char>, size: nat) -> Seq<Seq<char>>
    decreases text.len(),
{
    if text.len() == 0 || size == 0 {
        Seq::empty()
    } else if text.len() <= size {
        seq![text]
    } else {
        seq![text.take(size as int)] + chunked(text.skip(size as int), size)
    }
}

/// A cell's text padded to its column's width on the side opposite its
/// alignment.
pub open spec fn padded(c: TextCellModel, width: nat) -> Seq<char> {
    match c.align {
        TableAlign::Left => c.text + fill(' ', (width - c.text.len()) as nat),
        TableAlign::Right => fill(' ', (width - c.text.len()) as nat) + c.text,
    }
}

/// The cells of a row padded to their columns.
pub open spec fn padded_cells(cells: Seq<TextCellModel>, widths: Seq<nat>) -> Seq<Seq<char>> {
    Seq::new(cells.len(), |i: int| padded(cells[i], widths[i]))
}

/// Two blanks.
pub open spec fn gap() -> Seq<char> {
    seq![' ', ' ']
}

/// The padded cells of a row between the side bars. The cells are joined
/// by two blanks; where that leaves room in the table, the room goes after
/// the first cell.
pub open spec fn row_body(parts: Seq<Seq<char>>, table_width: nat) -> Seq<char> {
    let used = sum_of(parts.map_values(|p: Seq<char>| p.len())) + 2 * parts.len();
    if used < table_width {
        parts[0] + fill(' ', (table_width - used) as nat) + joined(parts.drop_first(), gap())
    } else {
        joined(parts, gap())
    }
}

/// One line of text between the side bars, filled to the table width.
pub open spec fn text_line(text: Seq<char>, table_width: nat) -> Seq<char> {
    seq!['|', ' '] + text + fill(' ', (table_width - 4 - text.len()) as nat) + seq![' ', '|', '\n']
}

/// The lines of the pieces of a wrapped text.
pub open spec fn text_lines(pieces: Seq<Seq<char>>, table_width: nat) -> Seq<char>
    decreases pieces.len(),
{
    if pieces.len() == 0 {
        Seq::empty()
    } else {
        text_lines(pieces.drop_last(), table_width) + text_line(pieces.last(), table_width)
    }
}

/// A horizontal rule across the table, with its newline.
pub open spec fn rule_line(table_width: nat) -> Seq<char> {
    fill('─', table_width) + seq!['\n']
}

/// What a row writes.
pub open spec fn row_output(r: RowModel, widths: Seq<nat>, table_width: nat) -> Seq<char> {
    match r {
        RowModel::Row(cells) => if cells.len() == 0 {
            Seq::empty()
        } else {
            seq!['|', ' '] + row_body(padded_cells(cells, widths), table_width) + seq![' ', '|', '\n']
        },
        RowModel::PlainText(t) => if t.len() + 4 <= table_width {
            text_line(t, table_width)
        } else {
            text_lines(chunked(t, (table_width - 4) as nat), table_width)
        },
        RowModel::Splitter => rule_line(table_width),
        RowModel::BlankLine => seq!['|'] + fill(' ', (table_width - 2) as nat) + seq!['|', '\n'],
    }
}

/// What the rows write, one after another.
pub open spec fn rows_output(rows: Seq<RowModel>, widths: Seq<nat>, table_width: nat) -> Seq<char>
    decreases rows.len(),
{
    if rows.len() == 0 {
        Seq::empty()
    } else {
        rows_output(rows.drop_last(), widths, table_width) + row_output(rows.last(), widths, table_width)
    }
}

/// Whether the table width leaves room for each row: two bars for a blank
/// line, bars and margins for cells, and at least one character of wrapped
/// text per line.
pub open spec fn width_suffices(rows: Seq<RowModel>, table_width: nat) -> bool {
    forall|y: int|
        0 <= y < rows.len() ==> match #[trigger] rows[y] {
            RowModel::Row(c) => c.len() > 0 ==> table_width >= 4,
            RowModel::PlainText(t) => t.len() + 4 > table_width ==> table_width >= 5,
            RowModel::Splitter => true,
            RowModel::BlankLine => table_width >= 2,
        }
}

/// Relies on `itertools::Itertools::chunks`: consecutive chunks of `size`
/// characters, the last one shorter where the text runs out, none for empty
/// text.
#[verifier::external_body]
fn char_chunks(text: &str, size: usize) -> (r: Vec<String>)
    requires
        size > 0,
    ensures
        r@.map_values(|s: String| s@) == chunked(text@, size as nat),
{
    text.chars().chunks(size).into_iter().map(|c| c.collect::<String>()).collect()
}

proof fn lemma_sum_prefix(v: Seq<nat>, i: int)
    requires
        0 <= i <= v.len(),
    ensures
        sum_of(v.take(i)) <= sum_of(v),
    decreases v.len() - i,
{
    if i < v.len() {
        assert(v.take(i + 1).drop_last() =~= v.take(i));
        lemma_sum_prefix(v, i + 1);
    } else {
        assert(v.take(i) =~= v);
    }
}

proof fn lemma_text_width_bounds(rows: Seq<RowModel>, x: int, y: int)
    requires
        0 <= y < rows.len(),
        rows[y] matches RowModel::Row(c) && 0 <= x < c.len(),
    ensures
        rows[y]->Row_0[x].text.len() <= text_width(rows, x),
    decreases rows.len(),
{
    if y < rows.len() - 1 {
        assert(rows.drop_last()[y] == rows[y]);
        lemma_text_width_bounds(rows.drop_last(), x, y);
    }
}

proof fn lemma_chunk_lengths(text: Seq<char>, size: nat)
    requires
        size > 0,
    ensures
        forall|k: int| 0 <= k < chunked(text, size).len() ==> #[trigger] chunked(text, size)[k].len() <= size,
    decreases text.len(),
{
    if text.len() > size {
        lemma_chunk_lengths(text.skip(size as int), size);
        let rest = chunked(text.skip(size as int), size);
        assert forall|k: int| 0 <= k < chunked(text, size).len() implies #[trigger] chunked(text, size)[k].len() <= size by {
            if k > 0 {
                assert(chunked(text, size)[k] == rest[k - 1]);
            }
        }
    }
}

/// A simple table: rows, the width of each column and the width of the
/// whole table.
#[derive(Debug)]
pub struct Table {
    rows: Vec<TableRow>,
    column_width: Vec<usize>,
    table_width: usize,
}

impl View for Table {
    type V = SimpleTableModel;

    closed spec fn view(&self) -> SimpleTableModel {
        SimpleTableModel {
            rows: self.rows@.map_values(|r: TableRow| r@),
            column_width: self.column_width@.map_values(|w: usize| w as nat),
            table_width: self.table_width as nat,
        }
    }
}

impl Clone for Table {
    fn clone(&self) -> (r: Self)
        ensures
            r@ == self@,
    {
        proof {
            use_type_invariant(self);
        }
        let mut rows: Vec<TableRow> = Vec::new();
        let mut i: usize = 0;
        while i < self.rows.len()
            invariant
                i <= self.rows@.len(),
                rows@.len() == i,
                forall|k: int| 0 <= k < i ==> #[trigger] rows@[k]@ == self.rows@[k]@,
            decreases self.rows@.len() - i,
        {
            rows.push(self.rows[i].copy());
            i = i + 1;
        }
        let mut column_width: Vec<usize> = Vec::new();
        let mut j: usize = 0;
        while j < self.column_width.len()
            invariant
                j <= self.column_width@.len(),
                column_width@ == self.column_width@.take(j as int),
            decreases self.column_width@.len() - j,
        {
            column_width.push(self.column_width[j]);
            j = j + 1;
        }
        assert(rows@.map_values(|r: TableRow| r@) =~= self.rows@.map_values(|r: TableRow| r@));
        assert(column_width@ =~= self.column_width@);
        Table { rows, column_width, table_width: self.table_width }
    }
}

impl Table {
    /// The rows have one length, every text fits its column, and the
    /// columns with their margins fit a machine word.
    pub open spec fn wf(&self) -> bool {
        &&& rows_have(self@.rows, self@.column_width.len())
        &&& texts_fit(self@.rows, self@.column_width)
        &&& sum_of(self@.column_width) + 2 * self@.column_width.len() + 2 <= usize::MAX
    }

    #[verifier::type_invariant]
    spec fn inv(&self) -> bool {
        self.wf()
    }

    /// Whether the table width leaves room for every row (see
    /// [`width_suffices`]); [`Table::format`] asks for it.
    pub fn fits_width(&self) -> (r: bool)
        ensures
            r == width_suffices(self@.rows, self@.table_width),
    {
        let tw = self.table_width;
        let ghost rows = self@.rows;
        let mut y: usize = 0;
        while y < self.rows.len()
            invariant
                y <= rows.len(),
                rows == self@.rows,
                tw == self@.table_width,
                width_suffices(rows.take(y as int), tw as nat),
            decreases rows.len() - y,
        {
            assert(self.rows@[y as int]@ == rows[y as int]);
            let ok = match &self.rows[y] {
                TableRow::Row(c) => c.len() == 0 || tw >= 4,
                TableRow::PlainText(t) => {
                    let len = t.as_str().unicode_len();
                    (tw >= 4 && len <= tw - 4) || tw >= 5
                },
                TableRow::Splitter => true,
                TableRow::BlankLine => tw >= 2,
            };
            if !ok {
                assert(!width_suffices(rows, tw as nat));
                return false;
            }
            assert forall|k: int| 0 <= k < y + 1 implies match #[trigger] rows.take(y + 1)[k] {
                RowModel::Row(c) => c.len() > 0 ==> tw >= 4,
                RowModel::PlainText(t) => t.len() + 4 > tw ==> tw >= 5,
                RowModel::Splitter => true,
                RowModel::BlankLine => tw >= 2,
            } by {
                if k < y {
                    assert(rows.take(y + 1)[k] == rows.take(y as int)[k]);
                }
            }
            y = y + 1;
        }
        assert(rows.take(rows.len() as int) =~= rows);
        true
    }

    /// A table of the title row, a rule, and the given rows. Each column is
    /// as wide as its longest text, and the table as wide as its columns
    /// with two characters of margin each and two for the side bars. Fails
    /// where a row of cells does not have as many cells as the title.
    pub fn new(title: &[TableCell], content: &[TableRow]) -> (r: Result<Table, FormatError>)
        requires
            ({
                let rows = titled_rows(title@.map_values(|c: TableCell| c@), content@.map_values(|r: TableRow| r@));
                rows_have(rows, title@.len()) ==> sum_of(Seq::new(title@.len(), |x: int| text_width(rows, x)))
                    + 2 * title@.len() + 2 <= usize::MAX
            }),
        ensures
            ({
                let rows = titled_rows(title@.map_values(|c: TableCell| c@), content@.map_values(|r: TableRow| r@));
                &&& r is Ok <==> rows_have(rows, title@.len())
                &&& r is Err ==> r == Err::<Table, FormatError>(FormatError::InconsistentRowWidth)
                &&& r matches Ok(t) ==> {
                    &&& t@.rows == rows
                    &&& t@.column_width == Seq::new(title@.len(), |x: int| text_width(rows, x))
                    &&& t@.table_width == sum_of(t@.column_width) + 2 * title@.len() + 2
                    &&& t.wf()
                }
            }),
    {
        let ghost rows = titled_rows(title@.map_values(|c: TableCell| c@), content@.map_values(|r: TableRow| r@));
        let n = title.len();
        let mut v: Vec<TableRow> = Vec::new();
        let mut head: Vec<TableCell> = Vec::new();
        let mut i: usize = 0;
        while i < n
            invariant
                i <= n,
                n == title@.len(),
                head@.len() == i,
                forall|k: int| 0 <= k < i ==> #[trigger] head@[k]@ == title@[k]@,
            decreases n - i,
        {
            head.push(title[i].copy());
            i = i + 1;
        }
        assert(head@.map_values(|c: TableCell| c@) =~= title@.map_values(|c: TableCell| c@));
        v.push(TableRow::Row(head));
        v.push(TableRow::Splitter);
        let mut j: usize = 0;
        while j < content.len()
            invariant
                j <= content@.len(),
                v@.len() == j + 2,
                forall|k: int| 0 <= k < j + 2 ==> #[trigger] v@[k]@ == rows[k],
                rows == titled_rows(title@.map_values(|c: TableCell| c@), content@.map_values(|r: TableRow| r@)),
            decreases content@.len() - j,
        {
            v.push(content[j].copy());
            j = j + 1;
        }
        assert(v@.map_values(|r: TableRow| r@) =~= rows);
        // every row of cells must have the title's length
        let mut y: usize = 0;
        while y < v.len()
            invariant
                y <= v@.len(),
                v@.map_values(|r: TableRow| r@) == rows,
                rows == titled_rows(title@.map_values(|c: TableCell| c@), content@.map_values(|r: TableRow| r@)),
                n == title@.len(),
                rows_have(rows.take(y as int), n as nat),
            decreases v@.len() - y,
        {
            assert(v@[y as int]@ == rows[y as int]);
            if let TableRow::Row(c) = &v[y] {
                if c.len() != n {
                    assert(!rows_have(rows, n as nat));
                    return Err(FormatError::InconsistentRowWidth);
                }
            }
            assert forall|k: int| 0 <= k < y + 1 implies (#[trigger] rows.take(y + 1)[k] matches RowModel::Row(c) ==> c.len() == n) by {
                if k < y {
                    assert(rows.take(y + 1)[k] == rows.take(y as int)[k]);
                }
            }
            y = y + 1;
        }
        assert(rows.take(rows.len() as int) =~= rows);
        // widths
        let mut cw: Vec<usize> = Vec::new();
        let mut x: usize = 0;
        while x < n
            invariant
                x <= n,
                cw@.len() == x,
                v@.map_values(|r: TableRow| r@) == rows,
                rows_have(rows, n as nat),
                forall|k: int| 0 <= k < x ==> #[trigger] cw@[k] == text_width(rows, k),
            decreases n - x,
        {
            let mut w: usize = 0;
            let mut y: usize = 0;
            while y < v.len()
                invariant
                    y <= v@.len(),
                    x < n,
                    v@.map_values(|r: TableRow| r@) == rows,
                    rows_have(rows, n as nat),
                    w == text_width(rows.take(y as int), x as int),
                decreases v@.len() - y,
            {
                assert(rows.take(y + 1).drop_last() =~= rows.take(y as int));
                assert(v@[y as int]@ == rows[y as int]);
                if let TableRow::Row(c) = &v[y] {
                    assert(c@[x as int]@ == rows[y as int]->Row_0[x as int]);
                    let l = c[x].content().as_str().unicode_len();
                    if l > w {
                        w = l;
                    }
                }
                y = y + 1;
            }
            assert(rows.take(rows.len() as int) =~= rows);
            cw.push(w);
            x = x + 1;
        }
        let ghost widths = Seq::new(n as nat, |x: int| text_width(rows, x));
        assert(cw@.map_values(|w: usize| w as nat) =~= widths);
        // table width
        let mut tw: usize = 2;
        let mut k: usize = 0;
        while k < n
            invariant
                k <= n,
                cw@.map_values(|w: usize| w as nat) == widths,
                widths.len() == n,
                sum_of(widths) + 2 * n + 2 <= usize::MAX,
                tw == sum_of(widths.take(k as int)) + 2 * k + 2,
            decreases n - k,
        {
            proof {
                assert(widths.take(k + 1).drop_last() =~= widths.take(k as int));
                lemma_sum_prefix(widths, k + 1);
            }
            tw = tw + cw[k] + 2;
            k = k + 1;
        }
        assert(widths.take(n as int) =~= widths);
        assert forall|y: int| 0 <= y < rows.len() implies (#[trigger] rows[y] matches RowModel::Row(c) ==> forall|x: int|
            0 <= x < c.len() ==> (#[trigger] c[x]).text.len() <= widths[x]) by {
            if let RowModel::Row(c) = rows[y] {
                assert forall|x: int| 0 <= x < c.len() implies (#[trigger] c[x]).text.len() <= widths[x] by {
                    lemma_text_width_bounds(rows, x, y);
                }
            }
        }
        let t = Table { rows: v, column_width: cw, table_width: tw };
        Ok(t)
    }

    pub fn with_table_width(self, table_width: usize) -> (r: Self)
        ensures
            r@ == (SimpleTableModel { table_width: table_width as nat, ..self@ }),
            r.wf(),
    {
        proof {
            use_type_invariant(&self);
        }
        Table { rows: self.rows, column_width: self.column_width, table_width }
    }

    /// Whether all rows of cells have one length.
    pub fn validate(&self) -> (r: bool)
        ensures
            r == exists|n: nat| rows_have(self@.rows, n),
    {
        let ghost rows = self@.rows;
        let mut first: Option<usize> = None;
        let mut y: usize = 0;
        while y < self.rows.len()
            invariant
                y <= rows.len(),
                rows == self@.rows,
                match first {
                    Some(n) => rows_have(rows.take(y as int), n as nat) && exists|k: int| 0 <= k < y && ((#[trigger] rows[k]) matches RowModel::Row(c) && c.len() == n),
                    None => forall|k: int| 0 <= k < y ==> !(#[trigger] rows[k] is Row),
                },
            decreases rows.len() - y,
        {
            assert(self.rows@[y as int]@ == rows[y as int]);
            if let TableRow::Row(c) = &self.rows[y] {
                match first {
                    None => {
                        first = Some(c.len());
                    },
                    Some(n) => {
                        if c.len() != n {
                            proof {
                                let k = choose|k: int| 0 <= k < y && ((#[trigger] rows[k]) matches RowModel::Row(c) && c.len() == n);
                                assert forall|m: nat| !rows_have(rows, m) by {
                                    if rows_have(rows, m) {
                                        assert(rows[k] matches RowModel::Row(c) && c.len() == m);
                                        assert(rows[y as int] matches RowModel::Row(c) && c.len() == m);
                                    }
                                }
                            }
                            return false;
                        }
                    },
                }
            }
            proof {
                match first {
                    Some(n) => {
                        assert forall|k: int| 0 <= k < y + 1 implies (#[trigger] rows.take(y + 1)[k] matches RowModel::Row(c) ==> c.len() == n) by {
                            if k < y {
                                assert(rows.take(y + 1)[k] == rows.take(y as int)[k]);
                            }
                        }
                    },
                    None => {},
                }
            }
            y = y + 1;
        }
        assert(rows.take(rows.len() as int) =~= rows);
        match first {
            Some(n) => {
                assert(rows_have(rows, n as nat));
            },
            None => {
                assert(rows_have(rows, 0));
            },
        }
        true
    }

    /// The table as text: a rule, the rows, a rule; each line ends with a
    /// newline. A row of cells shows its cells padded to their columns and
    /// joined by two blanks, with any room the table width leaves after the
    /// first cell; plain text too long for one line is wrapped over several;
    /// a splitter is a rule; a blank line shows the side bars alone.
    pub fn format(&self) -> (r: Result<String, FormatError>)
        requires
            width_suffices(self@.rows, self@.table_width),
        ensures
            r matches Ok(s) && s@ == rule_line(self@.table_width) + rows_output(
                self@.rows,
                self@.column_width,
                self@.table_width,
            ) + rule_line(self@.table_width),
    {
        let ghost rows = self@.rows;
        let ghost cw = self@.column_width;
        let ghost tws = self@.table_width;
        proof {
            use_type_invariant(self);
        }
        assert(rows_have(rows, cw.len()));
        if !self.validate() {
            return Err(FormatError::InconsistentRowWidth);
        }
        let tw = self.table_width;
        let mut out = rule_text(tw);
        let ghost head = out@;
        let mut y: usize = 0;
        assert(rows.take(0) =~= Seq::<RowModel>::empty());
        while y < self.rows.len()
            invariant
                y <= rows.len(),
                rows == self@.rows,
                cw == self@.column_width,
                tws == self@.table_width,
                tw == tws,
                self.wf(),
                width_suffices(rows, tws),
                head == rule_line(tws),
                out@ == head + rows_output(rows.take(y as int), cw, tws),
            decreases rows.len() - y,
        {
            assert(self.rows@[y as int]@ == rows[y as int]);
            assert(rows.take(y + 1).drop_last() =~= rows.take(y as int));
            let ghost before = out@;
            match &self.rows[y] {
                TableRow::Row(cells) => {
                    if cells.len() > 0 {
                        assert forall|x: int| 0 <= x < cells@.len() implies (#[trigger] cells@[x])@.text.len()
                            <= self.column_width@[x] by {
                            assert(rows[y as int]->Row_0[x] == cells@[x]@);
                            assert(rows[y as int]->Row_0[x].text.len() <= cw[x]);
                        }
                        let line = cells_line(cells, &self.column_width, tw);
                        out.append(line.as_str());
                    }
                },
                TableRow::PlainText(t) => {
                    let len = t.as_str().unicode_len();
                    if tw >= 4 && len <= tw - 4 {
                        let line = text_line_of(t.as_str(), tw);
                        out.append(line.as_str());
                    } else {
                        let pieces = char_chunks(t.as_str(), tw - 4);
                        proof {
                            lemma_chunk_lengths(t@, (tw - 4) as nat);
                        }
                        let ghost pm = pieces@.map_values(|s: String| s@);
                        let ghost start = out@;
                        let mut k: usize = 0;
                        assert(pm.take(0) =~= Seq::<Seq<char>>::empty());
                        while k < pieces.len()
                            invariant
                                k <= pieces@.len(),
                                pm == pieces@.map_values(|s: String| s@),
                                pm == chunked(t@, (tw - 4) as nat),
                                tw >= 5,
                                forall|i: int| 0 <= i < pm.len() ==> #[trigger] pm[i].len() <= tw - 4,
                                out@ == start + text_lines(pm.take(k as int), tw as nat),
                            decreases pieces@.len() - k,
                        {
                            assert(pm[k as int] == pieces@[k as int]@);
                            let line = text_line_of(pieces[k].as_str(), tw);
                            out.append(line.as_str());
                            assert(pm.take(k + 1).drop_last() =~= pm.take(k as int));
                            k = k + 1;
                        }
                        assert(pm.take(pm.len() as int) =~= pm);
                    }
                },
                TableRow::Splitter => {
                    let line = rule_text(tw);
                    out.append(line.as_str());
                },
                TableRow::BlankLine => {
                    proof {
                        reveal_strlit("|");
                        reveal_strlit("|\n");
                    }
                    out.append("|");
                    out.append(spaces(tw - 2).as_str());
                    out.append("|\n");
                },
            }
            assert(out@ =~= head + rows_output(rows.take(y + 1), cw, tws));
            y = y + 1;
        }
        assert(rows.take(rows.len() as int) =~= rows);
        let last = rule_text(tw);
        out.append(last.as_str());
        Ok(out)
    }
}

/// A rule of `width` characters and a newline.
fn rule_text(width: usize) -> (r: String)
    ensures
        r@ == rule_line(width as nat),
{
    proof {
        reveal_strlit("─");
        reveal_strlit("\n");
    }
    let mut s = repeat_glyph("─", width);
    s.append("\n");
    s
}

/// One line of text between the side bars.
fn text_line_of(text: &str, table_width: usize) -> (r: String)
    requires
        text@.len() + 4 <= table_width,
    ensures
        r@ == text_line(text@, table_width as nat),
{
    proof {
        reveal_strlit("| ");
        reveal_strlit(" |\n");
    }
    let len = text.unicode_len();
    let mut s = String::from_str("| ");
    s.append(text);
    s.append(spaces(table_width - 4 - len).as_str());
    s.append(" |\n");
    assert(s@ =~= text_line(text@, table_width as nat));
    s
}

/// A row of cells between the side bars.
fn cells_line(cells: &Vec<TableCell>, widths: &Vec<usize>, table_width: usize) -> (r: String)
    requires
        cells@.len() == widths@.len(),
        cells@.len() > 0,
        forall|x: int| 0 <= x < cells@.len() ==> (#[trigger] cells@[x])@.text.len() <= widths@[x],
        sum_of(widths@.map_values(|w: usize| w as nat)) + 2 * widths@.len() + 2 <= usize::MAX,
    ensures
        r@ == seq!['|', ' '] + row_body(
            padded_cells(cells@.map_values(|c: TableCell| c@), widths@.map_values(|w: usize| w as nat)),
            table_width as nat,
        ) + seq![' ', '|', '\n'],
{
    let ghost cm = cells@.map_values(|c: TableCell| c@);
    let ghost wn = widths@.map_values(|w: usize| w as nat);
    let ghost pm = padded_cells(cm, wn);
    let n = cells.len();
    let mut parts: Vec<String> = Vec::new();
    let mut rest: Vec<String> = Vec::new();
    let mut used: usize = 0;
    let mut x: usize = 0;
    while x < n
        invariant
            x <= n,
            n == cells@.len(),
            n == widths@.len(),
            cm == cells@.map_values(|c: TableCell| c@),
            wn == widths@.map_values(|w: usize| w as nat),
            pm == padded_cells(cm, wn),
            forall|i: int| 0 <= i < n ==> (#[trigger] cells@[i])@.text.len() <= widths@[i],
            sum_of(wn) + 2 * n + 2 <= usize::MAX,
            parts@.len() == x,
            forall|i: int| 0 <= i < x ==> #[trigger] parts@[i]@ == pm[i],
            x > 0 ==> rest@.len() == x - 1,
            x == 0 ==> rest@.len() == 0,
            forall|i: int| 0 <= i < rest@.len() ==> #[trigger] rest@[i]@ == pm[i + 1],
            used == sum_of(wn.take(x as int)) + 2 * x,
        decreases n - x,
    {
        let cell = &cells[x];
        let len = cell.content().as_str().unicode_len();
        let fill_len = widths[x] - len;
        let part = match cell.align() {
            TableAlign::Left => {
                let mut p = cell.content().clone();
                p.append(spaces(fill_len).as_str());
                p
            },
            TableAlign::Right => {
                let mut p = spaces(fill_len);
                p.append(cell.content().as_str());
                p
            },
        };
        assert(part@ =~= pm[x as int]);
        proof {
            assert(wn.take(x + 1).drop_last() =~= wn.take(x as int));
            lemma_sum_prefix(wn, x + 1);
        }
        used = used + widths[x] + 2;
        if x > 0 {
            rest.push(part.clone());
        }
        parts.push(part);
        x = x + 1;
    }
    assert(wn.take(n as int) =~= wn);
    assert(parts@.map_values(|p: String| p@) =~= pm);
    assert(rest@.map_values(|p: String| p@) =~= pm.drop_first());
    assert(pm.map_values(|p: Seq<char>| p.len()) =~= wn);
    proof {
        reveal_strlit("| ");
        reveal_strlit(" |\n");
        reveal_strlit("  ");
    }
    assert("  "@ =~= gap());
    let mut s = String::from_str("| ");
    if used < table_width {
        s.append(parts[0].as_str());
        s.append(spaces(table_width - used).as_str());
        s.append(join_with(&rest, "  ").as_str());
    } else {
        s.append(join_with(&parts, "  ").as_str());
    }
    s.append(" |\n");
    assert(s@ =~= seq!['|', ' '] + row_body(pm, table_width as nat) + seq![' ', '|', '\n']);
    s
}

} // verus!
