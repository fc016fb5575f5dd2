use vstd::prelude::*;

use super::cell::{lemma_render_model_len, render_model, CellModel};
use super::content::truncated;
use super::layout::{
    column_widths, first_mismatch, layout_spec, lemma_span_sum_concat, line_text, merged_width,
    raw_outcome, raw_spec, row_line, row_lines, row_pieces, rule_piece, span_sum, table_width, validated,
    PieceModel, TableModel,
};
use super::markdown::{markdown_spec, md_cells, md_marks, md_rows};
use super::settings::{Align, Border, Overflow};
use super::text::fill;

verus! {

/// Text exactly as long as the width is shown whole; text one character
/// longer is cut, whichever the overflow policy, and still fills the width.
pub proof fn lemma_truncation_boundary(text: Seq<char>, width: nat, overflow: Overflow)
    ensures
        text.len() == width ==> truncated(text, width, overflow) == text,
        text.len() == width + 1 ==> truncated(text, width, overflow) != text && truncated(
            text,
            width,
            overflow,
        ).len() == width,
{
    if text.len() == width + 1 {
        assert(truncated(text, width, overflow).len() == width);
    }
}

/// Rendering is a function of the table alone: the same cells and border
/// give the same plain text (or the same error, message included), the same
/// pieces and the same markdown, however often they are rendered.
pub proof fn lemma_render_deterministic(a: TableModel, b: TableModel)
    requires
        a == b,
    ensures
        layout_spec(a) == layout_spec(b),
        raw_spec(a) == raw_spec(b),
        raw_outcome(a) == raw_outcome(b),
        markdown_spec(a.rows) == markdown_spec(b.rows),
{
}

/// Centred text gets half of the spare blanks on its left, rounded down,
/// and the rest on its right, inside the padding and the one-blank margins.
pub proof fn lemma_centering(m: CellModel, width: nat)
    requires
        m.content is Text,
        m.align == Align::Center,
        m.padding.left + m.padding.right <= width,
    ensures
        ({
            let inner = (width - m.padding.left - m.padding.right) as nat;
            let body = m.content.spec_render(inner, m.overflow);
            let diff = (inner - body.len()) as nat;
            &&& body.len() <= inner
            &&& diff / 2 <= diff - diff / 2 <= diff / 2 + 1
            &&& render_model(m, width) == seq![' '] + fill(' ', m.padding.left as nat) + fill(' ', diff / 2)
                + body + fill(' ', (diff - diff / 2) as nat) + fill(' ', m.padding.right as nat) + seq![' ']
        }),
{
    let inner = (width - m.padding.left - m.padding.right) as nat;
    let body = m.content.spec_render(inner, m.overflow);
    let diff = (inner - body.len()) as nat;
    assert(render_model(m, width) =~= seq![' '] + fill(' ', m.padding.left as nat) + fill(' ', diff / 2)
        + body + fill(' ', (diff - diff / 2) as nat) + fill(' ', m.padding.right as nat) + seq![' ']);
}

proof fn lemma_line_text_concat(a: Seq<PieceModel>, b: Seq<PieceModel>)
    ensures
        line_text(a + b) == line_text(a) + line_text(b),
    decreases b.len(),
{
    if b.len() == 0 {
        assert(a + b =~= a);
    } else {
        assert((a + b).drop_last() =~= a + b.drop_last());
        lemma_line_text_concat(a, b.drop_last());
    }
}

proof fn lemma_line_text_single(p: PieceModel)
    ensures
        line_text(seq![p]) == p.text,
{
    assert(seq![p].drop_last() =~= Seq::<PieceModel>::empty());
    assert(line_text(Seq::<PieceModel>::empty()) == Seq::<char>::empty());
    assert(Seq::<char>::empty() + p.text =~= p.text);
}

/// The pieces of a row from column `x` on take exactly the width of those
/// columns with their margins.
proof fn lemma_row_pieces_width(row: Seq<CellModel>, widths: Seq<nat>, y: nat, x: nat)
    requires
        widths.len() == row.len(),
        x <= row.len(),
        row_pieces(row, widths, y, x) is Ok,
    ensures
        line_text(row_pieces(row, widths, y, x)->Ok_0).len() == span_sum(
            widths.subrange(x as int, row.len() as int),
        ),
    decreases row.len() - x,
{
    let n = row.len() as int;
    if x == row.len() {
        assert(widths.subrange(x as int, n) =~= Seq::<nat>::empty());
        assert(line_text(Seq::<PieceModel>::empty()) == Seq::<char>::empty());
    } else {
        let c = row[x as int];
        let next: nat = match c.merge {
            None => x + 1,
            Some(m) => (x + m + 1) as nat,
        };
        let width: nat = match c.merge {
            None => widths[x as int],
            Some(m) => merged_width(widths, x as int, m as int),
        };
        let p = row_pieces(row, widths, y, x)->Ok_0[0];
        let rest = row_pieces(row, widths, y, next)->Ok_0;
        assert(row_pieces(row, widths, y, x)->Ok_0 == seq![p] + rest);
        lemma_row_pieces_width(row, widths, y, next);
        lemma_render_model_len(c, width);
        lemma_line_text_concat(seq![p], rest);
        lemma_line_text_single(p);
        lemma_span_sum_concat(widths.subrange(x as int, next as int), widths.subrange(next as int, n));
        assert(widths.subrange(x as int, next as int) + widths.subrange(next as int, n) =~= widths.subrange(
            x as int,
            n,
        ));
        if c.merge is None {
            assert(widths.subrange(x as int, x + 1 as int).drop_last() =~= Seq::<nat>::empty());
            assert(span_sum(Seq::<nat>::empty()) == 0);
            assert(span_sum(widths.subrange(x as int, x + 1 as int)) == widths[x as int] + 2);
        }
        assert(p.text.len() == width + 2);
        assert(span_sum(widths.subrange(x as int, next as int)) == width + 2);
    }
}

/// The line of a row is as wide as the table.
proof fn lemma_row_line_width(row: Seq<CellModel>, widths: Seq<nat>, y: nat, border: Border)
    requires
        widths.len() == row.len(),
        row_line(row, widths, y, border) is Ok,
    ensures
        line_text(row_line(row, widths, y, border)->Ok_0).len() == table_width(widths, border),
{
    let ps = row_pieces(row, widths, y, 0)->Ok_0;
    lemma_row_pieces_width(row, widths, y, 0);
    assert(widths.subrange(0, row.len() as int) =~= widths);
    let left: Seq<PieceModel> = if border.left {
        seq![PieceModel { text: seq!['┃'], cell: None }]
    } else {
        Seq::empty()
    };
    let right: Seq<PieceModel> = if border.right {
        seq![PieceModel { text: seq!['┃'], cell: None }]
    } else {
        Seq::empty()
    };
    assert(row_line(row, widths, y, border)->Ok_0 == left + ps + right);
    lemma_line_text_concat(left + ps, right);
    lemma_line_text_concat(left, ps);
    if border.left {
        lemma_line_text_single(left[0]);
    }
    if border.right {
        lemma_line_text_single(right[0]);
    }
}

proof fn lemma_row_lines_width(
    rows: Seq<Seq<CellModel>>,
    widths: Seq<nat>,
    border: Border,
    y: nat,
)
    requires
        forall|k: int| 0 <= k < rows.len() ==> #[trigger] rows[k].len() == widths.len(),
        y <= rows.len(),
        row_lines(rows, widths, border, y) is Ok,
    ensures
        forall|i: int|
            0 <= i < row_lines(rows, widths, border, y)->Ok_0.len() ==> #[trigger] line_text(
                row_lines(rows, widths, border, y)->Ok_0[i],
            ).len() == table_width(widths, border),
    decreases rows.len() - y,
{
    if y < rows.len() {
        lemma_row_lines_width(rows, widths, border, y + 1);
        lemma_row_line_width(rows[y as int], widths, y, border);
        let l = row_line(rows[y as int], widths, y, border)->Ok_0;
        let rest = row_lines(rows, widths, border, y + 1)->Ok_0;
        assert(row_lines(rows, widths, border, y)->Ok_0 == seq![l] + rest);
        assert forall|i: int|
            0 <= i < row_lines(rows, widths, border, y)->Ok_0.len() implies #[trigger] line_text(
                row_lines(rows, widths, border, y)->Ok_0[i],
            ).len() == table_width(widths, border) by {
            if i > 0 {
                assert(row_lines(rows, widths, border, y)->Ok_0[i] == rest[i - 1]);
            }
        }
    }
}

/// Every line of a rendered table, the rules included, is as wide as the
/// table: the sum over the columns of their widths plus two, plus one for
/// each side edge that the border draws, whatever the cells hold and however
/// they are aligned or merged.
pub proof fn lemma_line_widths(t: TableModel)
    requires
        layout_spec(t) is Ok,
    ensures
        forall|i: int|
            0 <= i < layout_spec(t)->Ok_0.len() ==> #[trigger] line_text(layout_spec(t)->Ok_0[i]).len()
                == table_width(column_widths(t.rows, validated(t.rows)->Ok_0), t.border),
{
    let n = validated(t.rows)->Ok_0;
    let widths = column_widths(t.rows, n);
    let tw = table_width(widths, t.border);
    super::layout::lemma_validated_rows(t.rows);
    lemma_row_lines_width(t.rows, widths, t.border, 0);
    let ls = row_lines(t.rows, widths, t.border, 0)->Ok_0;
    let rule = seq![rule_piece(tw)];
    lemma_line_text_single(rule_piece(tw));
    let top: Seq<Seq<PieceModel>> = if t.border.top {
        seq![rule]
    } else {
        Seq::empty()
    };
    let bottom: Seq<Seq<PieceModel>> = if t.border.bottom {
        seq![rule]
    } else {
        Seq::empty()
    };
    let all = layout_spec(t)->Ok_0;
    assert(all == top + ls + bottom);
    assert forall|i: int| 0 <= i < all.len() implies #[trigger] line_text(all[i]).len() == tw by {
        if i < top.len() {
            assert(all[i] == rule);
        } else if i < top.len() + ls.len() {
            assert(all[i] == ls[i - top.len()]);
        } else {
            assert(all[i] == rule);
        }
    }
}

proof fn lemma_first_mismatch_lengths(a: Seq<Seq<CellModel>>, b: Seq<Seq<CellModel>>, e: nat, i: nat)
    requires
        a.len() == b.len(),
        forall|y: int| 0 <= y < a.len() ==> #[trigger] a[y].len() == b[y].len(),
    ensures
        first_mismatch(a, e, i) == first_mismatch(b, e, i),
    decreases a.len() - i,
{
    if i < a.len() {
        lemma_first_mismatch_lengths(a, b, e, i + 1);
    }
}

proof fn lemma_first_mismatch_bound(rows: Seq<Seq<CellModel>>, e: nat, i: nat)
    ensures
        first_mismatch(rows, e, i) matches Some(k) ==> i <= k < rows.len(),
    decreases rows.len() - i,
{
    if i < rows.len() {
        lemma_first_mismatch_bound(rows, e, i + 1);
    }
}

proof fn lemma_md_rows_contents(a: Seq<Seq<CellModel>>, b: Seq<Seq<CellModel>>, i: nat)
    requires
        a.len() == b.len(),
        forall|y: int| 0 <= y < a.len() ==> #[trigger] a[y].len() == b[y].len(),
        forall|y: int, x: int|
            0 <= y < a.len() && 0 <= x < a[y].len() ==> #[trigger] a[y][x].content == b[y][x].content,
    ensures
        md_rows(a, i) == md_rows(b, i),
    decreases a.len() - i,
{
    if i < a.len() {
        lemma_md_rows_contents(a, b, i + 1);
        assert(md_cells(a[i as int]) =~= md_cells(b[i as int]));
    }
}

/// The alignment markers of a markdown table come from the first row
/// alone: two tables with the same contents and the same alignment in their
/// first rows render the same markdown, whatever the alignment of their
/// other rows.
pub proof fn lemma_markdown_alignment_from_first_row(a: TableModel, b: TableModel)
    requires
        a.rows.len() == b.rows.len(),
        forall|y: int| 0 <= y < a.rows.len() ==> #[trigger] a.rows[y].len() == b.rows[y].len(),
        forall|y: int, x: int|
            0 <= y < a.rows.len() && 0 <= x < a.rows[y].len() ==> #[trigger] a.rows[y][x].content
                == b.rows[y][x].content,
        a.rows.len() > 0 ==> forall|x: int|
            0 <= x < a.rows[0].len() ==> #[trigger] a.rows[0][x].align == b.rows[0][x].align,
    ensures
        markdown_spec(a.rows) == markdown_spec(b.rows),
{
    if a.rows.len() > 0 {
        assert(a.rows[0].len() == b.rows[0].len());
        lemma_first_mismatch_lengths(a.rows, b.rows, a.rows[0].len(), 1);
        if let Some(i) = first_mismatch(a.rows, a.rows[0].len(), 1) {
            lemma_first_mismatch_bound(a.rows, a.rows[0].len(), 1);
            assert(a.rows[i as int].len() == b.rows[i as int].len());
        }
        lemma_md_rows_contents(a.rows, b.rows, 1);
        assert(md_cells(a.rows[0]) =~= md_cells(b.rows[0]));
        assert(md_marks(a.rows[0]) =~= md_marks(b.rows[0]));
    }
}

} // verus!
