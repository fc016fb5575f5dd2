use vstd::prelude::*;

verus! {

/// What a cell does with text wider than the space it is given.
///
/// `Overflow::Ellipsis`: "hello world" at width 5 becomes "he...".
///
/// `Overflow::Hidden`: "hello world" at width 5 becomes "hello".
#[derive(Debug, Clone, Copy, PartialEq, Eq, Structural)]
pub enum Overflow {
    Ellipsis,
    Hidden,
}

impl Default for Overflow {
    fn default() -> (r: Self)
        ensures
            r == Overflow::Ellipsis,
    {
        Overflow::Ellipsis
    }
}

/// Horizontal alignment of the text inside a cell.
#[derive(Debug, Clone, Copy, PartialEq, Eq, Structural)]
pub enum Align {
    Left,
    Center,
    Right,
}

impl Default for Align {
    fn default() -> (r: Self)
        ensures
            r == Align::Left,
    {
        Align::Left
    }
}

/// Blank characters inside the cell, around the content.
///
/// The string `"hello"` with `Padding { left: 1, right: 1 }` in a column of
/// width 5 shows as `" hel. "` within the cell margins: the padding is taken
/// from the width, not added to it.
#[derive(Debug, Clone, Copy, PartialEq, Eq, Structural)]
pub struct Padding {
    pub left: usize,
    pub right: usize,
}

impl Padding {
    /// No padding on either side.
    pub fn none() -> (r: Self)
        ensures
            r.left == 0,
            r.right == 0,
    {
        Padding { left: 0, right: 0 }
    }

    pub fn new(left: usize, right: usize) -> (r: Self)
        ensures
            r.left == left,
            r.right == right,
    {
        Padding { left, right }
    }
}

impl Default for Padding {
    fn default() -> (r: Self)
        ensures
            r.left == 0,
            r.right == 0,
    {
        Padding { left: 0, right: 0 }
    }
}

/// The border that draws no edge.
pub open spec fn no_border() -> Border {
    Border { left: false, right: false, top: false, bottom: false }
}

/// Which edges of the table are drawn.
#[derive(Debug, Clone, Copy, PartialEq, Eq, Structural)]
pub struct Border {
    pub left: bool,
    pub right: bool,
    pub top: bool,
    pub bottom: bool,
}

impl Border {
    /// No edge is drawn.
    pub fn none() -> (r: Self)
        ensures
            r.left == false,
            r.right == false,
            r.top == false,
            r.bottom == false,
    {
        Border { left: false, right: false, top: false, bottom: false }
    }

    /// Top and bottom rules only.
    pub fn horizontal() -> (r: Self)
        ensures
            r.left == false,
            r.right == false,
            r.top == true,
            r.bottom == true,
    {
        Border { left: false, right: false, top: true, bottom: true }
    }

    /// Left and right edges only.
    pub fn vertical() -> (r: Self)
        ensures
            r.left == true,
            r.right == true,
            r.top == false,
            r.bottom == false,
    {
        Border { left: true, right: true, top: false, bottom: false }
    }

    /// Every edge is drawn.
    pub fn all() -> (r: Self)
        ensures
            r.left == true,
            r.right == true,
            r.top == true,
            r.bottom == true,
    {
        Border { left: true, right: true, top: true, bottom: true }
    }

    pub fn new(left: bool, right: bool, top: bool, bottom: bool) -> (r: Self)
        ensures
            r.left == left,
            r.right == right,
            r.top == top,
            r.bottom == bottom,
    {
        Border { left, right, top, bottom }
    }
}

impl Default for Border {
    fn default() -> (r: Self)
        ensures
            r == no_border(),
    {
        Border::none()
    }
}

/// The output encodings of a table.
#[derive(Debug, Clone, Copy, PartialEq, Eq, Structural)]
pub enum Renderer {
    /// The grid with the cells' styling hooks applied and emphasised borders.
    Normal,
    /// The same grid as plain text.
    Raw,
    /// A markdown table. Its column alignment comes from the first row alone.
    Markdown,
}

} // verus!
