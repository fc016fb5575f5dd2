use vstd::prelude::*;

use super::content::{widen, Content};
use super::settings::{Align, Overflow, Padding};
use super::text::{fill, spaces};
use vstd::string::StringExecFns;

verus! {

/// The abstract value of a [`Cell`]: every setting it carries.
pub struct CellModel {
    pub content: Content,
    pub overflow: Overflow,
    /// The width the cell asks of its column, if any.
    pub width: Option<usize>,
    pub align: Align,
    pub padding: Padding,
    /// The number of columns to its right that this cell also covers.
    pub merge: Option<usize>,
}

/// The settings of a fresh cell: no content, ellipsis, no width, left
/// alignment, no padding, no merge.
pub open spec fn default_model() -> CellModel {
    CellModel {
        content: Content::Empty,
        overflow: Overflow::Ellipsis,
        width: None,
        align: Align::Left,
        padding: Padding { left: 0, right: 0 },
        merge: None,
    }
}

/// `body` placed in `width` characters: left-aligned text is followed by
/// blanks, right-aligned text preceded by them, and centred text gets half
/// of the blanks on its left, rounded down, and the rest on its right.
pub open spec fn aligned(body: Seq<char>, width: nat, align: Align) -> Seq<char> {
    let diff = (width - body.len()) as nat;
    match align {
        Align::Left => body + fill(' ', diff),
        Align::Right => fill(' ', diff) + body,
        Align::Center => fill(' ', diff / 2) + body + fill(' ', (diff - diff / 2) as nat),
    }
}

/// A cell drawn into a column of `width` characters, margins included
/// (`width + 2` characters in all).
///
/// Text keeps one blank of margin on each side and its padding inside the
/// margins; the rest of the width holds the truncated, aligned text. Where
/// the padding alone is wider than `width`, the cell is blank. A splitter or
/// an empty cell fills the whole `width + 2` characters.
pub open spec fn render_model(m: CellModel, width: nat) -> Seq<char> {
    if m.content is Text {
        if m.padding.left + m.padding.right > width {
            fill(' ', width + 2)
        } else {
            let inner = (width - m.padding.left - m.padding.right) as nat;
            seq![' '] + fill(' ', m.padding.left as nat) + aligned(
                m.content.spec_render(inner, m.overflow),
                inner,
                m.align,
            ) + fill(' ', m.padding.right as nat) + seq![' ']
        }
    } else {
        m.content.spec_render(width + 2, m.overflow)
    }
}

/// A cell drawn into a column of `width` characters takes `width + 2`
/// characters, whatever its content, alignment and padding.
pub proof fn lemma_render_model_len(m: CellModel, width: nat)
    ensures
        render_model(m, width).len() == width + 2,
{
    if m.content is Text {
        if m.padding.left + m.padding.right <= width {
            let inner = (width - m.padding.left - m.padding.right) as nat;
            let body = m.content.spec_render(inner, m.overflow);
            assert(body.len() <= inner);
        }
    }
}

/// One position of the table grid.
#[derive(Clone)]
pub struct Cell {
    content: Content,
    overflow: Overflow,
    width: Option<usize>,
    align: Align,
    padding: Padding,
    merge: Option<usize>,
}

impl View for Cell {
    type V = CellModel;

    closed spec fn view(&self) -> CellModel {
        CellModel {
            content: self.content,
            overflow: self.overflow,
            width: self.width,
            align: self.align,
            padding: self.padding,
            merge: self.merge,
        }
    }
}

impl Default for Cell {
    fn default() -> (r: Self)
        ensures
            r@ == default_model(),
    {
        Cell {
            content: Content::Empty,
            overflow: Overflow::Ellipsis,
            width: None,
            align: Align::Left,
            padding: Padding { left: 0, right: 0 },
            merge: None,
        }
    }
}

impl Cell {
    /// The cell drawn into a column of `width` characters.
    pub open spec fn spec_render(&self, width: nat) -> Seq<char> {
        render_model(self@, width)
    }

    /// Sets the content, and the width to the content's natural width.
    pub fn with_content(self, content: Content) -> (r: Self)
        ensures
            r@ == (CellModel { content, width: r@.width, ..self@ }),
            widen(r@.width) == content.spec_width(),
    {
        let mut c = self;
        c.set_content(content);
        c
    }

    pub fn with_overflow(self, overflow: Overflow) -> (r: Self)
        ensures
            r@ == (CellModel { overflow, ..self@ }),
    {
        let mut c = self;
        c.set_overflow(overflow);
        c
    }

    pub fn with_width(self, width: Option<usize>) -> (r: Self)
        ensures
            r@ == (CellModel { width, ..self@ }),
    {
        let mut c = self;
        c.set_width(width);
        c
    }

    pub fn with_align(self, align: Align) -> (r: Self)
        ensures
            r@ == (CellModel { align, ..self@ }),
    {
        let mut c = self;
        c.set_align(align);
        c
    }

    pub fn with_padding(self, padding: Padding) -> (r: Self)
        ensures
            r@ == (CellModel { padding, ..self@ }),
    {
        let mut c = self;
        c.set_padding(padding);
        c
    }

    pub fn with_merge(self, merge: Option<usize>) -> (r: Self)
        ensures
            r@ == (CellModel { merge, ..self@ }),
    {
        let mut c = self;
        c.set_merge(merge);
        c
    }

    /// Sets the content, and the width to the content's natural width.
    pub fn set_content(&mut self, content: Content)
        ensures
            final(self)@ == (CellModel { content, width: final(self)@.width, ..old(self)@ }),
            widen(final(self)@.width) == content.spec_width(),
    {
        self.width = content.get_width();
        self.content = content;
    }

    pub fn set_overflow(&mut self, overflow: Overflow)
        ensures
            final(self)@ == (CellModel { overflow, ..old(self)@ }),
    {
        self.overflow = overflow;
    }

    pub fn set_width(&mut self, width: Option<usize>)
        ensures
            final(self)@ == (CellModel { width, ..old(self)@ }),
    {
        self.width = width;
    }

    pub fn set_align(&mut self, align: Align)
        ensures
            final(self)@ == (CellModel { align, ..old(self)@ }),
    {
        self.align = align;
    }

    pub fn set_padding(&mut self, padding: Padding)
        ensures
            final(self)@ == (CellModel { padding, ..old(self)@ }),
    {
        self.padding = padding;
    }

    pub fn set_merge(&mut self, merge: Option<usize>)
        ensures
            final(self)@ == (CellModel { merge, ..old(self)@ }),
    {
        self.merge = merge;
    }

    /// The cell spanning `span` more columns, followed by the `span` empty
    /// cells it covers; the spanning cell gives up its own width.
    pub fn with_span(self, span: usize) -> (r: Vec<Self>)
        requires
            span < usize::MAX,
        ensures
            r@.len() == span + 1,
            r@[0]@ == (CellModel { merge: Some(span), width: None, ..self@ }),
            forall|i: int| 1 <= i <= span ==> #[trigger] r@[i]@ == default_model(),
    {
        let mut c = self;
        c.set_merge(Some(span));
        c.set_width(None);
        let mut v: Vec<Cell> = Vec::new();
        v.push(c);
        let mut i: usize = 0;
        while i < span
            invariant
                i <= span,
                v@.len() == i + 1,
                v@[0]@ == (CellModel { merge: Some(span), width: None, ..self@ }),
                forall|k: int| 1 <= k <= i ==> #[trigger] v@[k]@ == default_model(),
            decreases span - i,
        {
            v.push(Cell::default());
            i = i + 1;
        }
        v
    }

    pub fn get_width(&self) -> (r: Option<usize>)
        ensures
            r == self@.width,
    {
        self.width
    }

    pub fn get_merge(&self) -> (r: Option<usize>)
        ensures
            r == self@.merge,
    {
        self.merge
    }

    pub fn get_content(&self) -> (r: &Content)
        ensures
            *r == self@.content,
    {
        &self.content
    }

    pub fn get_align(&self) -> (r: Align)
        ensures
            r == self@.align,
    {
        self.align
    }

    /// The cell drawn into a column of `width` characters, as plain text.
    pub fn render_with_width_raw(&self, width: usize) -> (r: String)
        requires
            width <= usize::MAX - 2,
        ensures
            r@ == self.spec_render(width as nat),
            r@.len() == width + 2,
    {
        if self.content.have_default_padding() {
            if self.padding.left > width || self.padding.right > width - self.padding.left {
                return spaces(width + 2);
            }
            let inner = width - self.padding.left - self.padding.right;
            let (body, w) = self.content.render_with_width(inner, self.overflow);
            let diff = inner - w;
            let mut s = spaces(1);
            s.append(spaces(self.padding.left).as_str());
            let ghost before = s@;
            match self.align {
                Align::Left => {
                    s.append(body.as_str());
                    s.append(spaces(diff).as_str());
                },
                Align::Right => {
                    s.append(spaces(diff).as_str());
                    s.append(body.as_str());
                },
                Align::Center => {
                    let left = diff / 2;
                    s.append(spaces(left).as_str());
                    s.append(body.as_str());
                    s.append(spaces(diff - left).as_str());
                },
            }
            assert(s@ =~= before + aligned(body@, inner as nat, self.align));
            s.append(spaces(self.padding.right).as_str());
            s.append(spaces(1).as_str());
            assert(s@ =~= self.spec_render(width as nat));
            s
        } else {
            let (body, _w) = self.content.render_with_width(width + 2, self.overflow);
            body
        }
    }
}

} // verus!
