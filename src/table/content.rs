use vstd::prelude::*;
use vstd::string::{StrSliceExecFns, StringExecFns};

use super::settings::Overflow;
use super::text::{fill, repeat_glyph};

verus! {

/// What a cell holds.
///
/// - `Text`: text, measured in characters (Unicode scalar values).
/// - `Splitter`: a horizontal rule, drawn with `━`.
/// - `Empty`: nothing; drawn as blanks.
#[derive(Debug, Clone)]
pub enum Content {
    Text(String),
    Splitter,
    Empty,
}

/// An optional machine width read as a natural number.
pub open spec fn widen(o: Option<usize>) -> Option<nat> {
    match o {
        Some(w) => Some(w as nat),
        None => None,
    }
}

/// The marker that ends truncated text: one dot below width 3, else three.
pub open spec fn ellipsis_mark(width: nat) -> Seq<char> {
    if width < 3 {
        seq!['.']
    } else {
        seq!['.', '.', '.']
    }
}

/// `text` fitted into `width` characters under the given policy.
///
/// Text that fits is kept whole. Otherwise `Hidden` keeps the first `width`
/// characters, and `Ellipsis` keeps as many as leave room for the marker and
/// then appends the marker, filling `width` exactly. At width 0 nothing is
/// shown.
pub open spec fn truncated(text: Seq<char>, width: nat, overflow: Overflow) -> Seq<char> {
    if text.len() <= width {
        text
    } else {
        match overflow {
            Overflow::Hidden => text.take(width as int),
            Overflow::Ellipsis => if width == 0 {
                Seq::empty()
            } else {
                text.take(width - ellipsis_mark(width).len()) + ellipsis_mark(width)
            },
        }
    }
}

impl Content {
    /// The natural width: the character count of text, none otherwise.
    pub open spec fn spec_width(&self) -> Option<nat> {
        match self {
            Content::Text(s) => Some(s@.len()),
            _ => None,
        }
    }

    /// The content drawn into `width` characters (before alignment).
    pub open spec fn spec_render(&self, width: nat, overflow: Overflow) -> Seq<char> {
        match self {
            Content::Text(s) => truncated(s@, width, overflow),
            Content::Splitter => fill('━', width),
            Content::Empty => fill(' ', width),
        }
    }

    /// Text content holding `s`.
    pub fn new(s: &str) -> (r: Self)
        ensures
            r matches Content::Text(t) && t@ == s@,
    {
        Content::Text(String::from_str(s))
    }

    /// The number of characters of text; `None` for a splitter or nothing.
    pub fn get_width(&self) -> (r: Option<usize>)
        ensures
            widen(r) == self.spec_width(),
    {
        match self {
            Content::Text(v) => Some(v.as_str().unicode_len()),
            _ => None,
        }
    }

    /// Whether the content is laid out with the cell margins and padding
    /// (text is; a splitter or nothing fills the whole cell).
    pub fn have_default_padding(&self) -> (r: bool)
        ensures
            r == (self is Text),
    {
        matches!(self, Content::Text(_))
    }

    /// The text, if this is text.
    pub fn get_content(&self) -> (r: Option<&String>)
        ensures
            match self {
                Content::Text(t) => r == Some(t),
                _ => r is None,
            },
    {
        match self {
            Content::Text(t) => Some(t),
            _ => None,
        }
    }

    /// Draws the content into at most `width` characters and returns the
    /// drawing with its character count.
    pub fn render_with_width(&self, width: usize, overflow: Overflow) -> (r: (String, usize))
        ensures
            r.0@ == self.spec_render(width as nat, overflow),
            r.1 == r.0@.len(),
            r.1 <= width,
    {
        match self {
            Content::Text(v) => {
                let n = v.as_str().unicode_len();
                if n <= width {
                    (v.clone(), n)
                } else {
                    match overflow {
                        Overflow::Hidden => {
                            let s = String::from_str(v.as_str().substring_char(0, width));
                            (s, width)
                        },
                        Overflow::Ellipsis => {
                            if width == 0 {
                                (String::new(), 0)
                            } else if width < 3 {
                                let mut s = String::from_str(v.as_str().substring_char(0, width - 1));
                                proof {
                                    reveal_strlit(".");
                                }
                                s.append(".");
                                assert(s@ =~= truncated(v@, width as nat, overflow));
                                (s, width)
                            } else {
                                let mut s = String::from_str(v.as_str().substring_char(0, width - 3));
                                proof {
                                    reveal_strlit("...");
                                }
                                s.append("...");
                                assert(s@ =~= truncated(v@, width as nat, overflow));
                                (s, width)
                            }
                        },
                    }
                }
            },
            Content::Splitter => {
                proof {
                    reveal_strlit("━");
                }
                (repeat_glyph("━", width), width)
            },
            Content::Empty => {
                proof {
                    reveal_strlit(" ");
                }
                (repeat_glyph(" ", width), width)
            },
        }
    }
}

} // verus!
