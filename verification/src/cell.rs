//! The content of one grid position: a character and its optional style.

use vstd::prelude::*;

verus! {

/// A 24-bit colour.
#[derive(Clone, Copy, Debug, PartialEq, Eq)]
pub struct Color {
    pub red: u8,
    pub green: u8,
    pub blue: u8,
}

/// The style attributes shared by the characters of one span.
#[derive(Clone, Copy, Debug, PartialEq, Eq)]
pub struct Attrs {
    pub italic: bool,
    pub bold: bool,
    pub underline: bool,
    pub undercurl: bool,
    pub reverse: bool,
    pub foreground: Option<Color>,
    pub background: Option<Color>,
    pub special: Option<Color>,
}

impl Attrs {
    /// Attributes with nothing switched on and no colour set.
    pub fn new() -> (attrs: Attrs)
        ensures
            attrs == (Attrs {
                italic: false,
                bold: false,
                underline: false,
                undercurl: false,
                reverse: false,
                foreground: None,
                background: None,
                special: None,
            }),
    {
        Attrs {
            italic: false,
            bold: false,
            underline: false,
            undercurl: false,
            reverse: false,
            foreground: None,
            background: None,
            special: None,
        }
    }
}

/// One grid position.
#[derive(Clone, Copy, Debug, PartialEq, Eq)]
pub struct Cell {
    pub ch: char,
    pub attrs: Option<Attrs>,
    pub double_width: bool,
}

impl Cell {
    /// The blank cell: a space without style.
    pub open spec fn blank() -> Cell {
        Cell { ch: ' ', attrs: None, double_width: false }
    }

    /// The cell that a character of a span with attributes `attrs` occupies.
    pub open spec fn styled(ch: char, attrs: Option<Attrs>) -> Cell {
        Cell { ch, attrs, double_width: false }
    }

    /// A blank cell.
    pub fn new_empty() -> (cell: Cell)
        ensures
            cell == Cell::blank(),
    {
        Cell { ch: ' ', attrs: None, double_width: false }
    }

    /// Resets the cell to blank.
    pub fn clear(&mut self)
        ensures
            *final(self) == Cell::blank(),
    {
        self.ch = ' ';
        self.attrs = None;
        self.double_width = false;
    }
}

} // verus!
