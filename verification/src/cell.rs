//! The typed value that one field of a table holds.

use vstd::prelude::*;

verus! {

/// One value of a table: a number or a text.
///
/// A number is carried as the bit pattern of its binary64 value, together
/// with the decimal text that displays it. The library moves both along and
/// never computes with the bit pattern; whoever makes the cell decides what
/// a number is and how it is displayed.
#[derive(Debug, Clone, PartialEq, Eq)]
pub enum Cell {
    /// A number: the bit pattern of its value, and the text that displays it.
    Num { bits: u64, text: String },
    /// A text, as it is.
    Str(String),
}

/// How a cell is to be set apart when it is displayed.
#[derive(Debug, Clone, Copy, PartialEq, Eq, Structural)]
pub enum Style {
    Number,
    Text,
}

/// What a [`Cell`] holds, as a mathematical value.
pub enum CellModel {
    Num { bits: u64, text: Seq<char> },
    Str(Seq<char>),
}

impl CellModel {
    /// The characters that display the cell.
    pub open spec fn text(self) -> Seq<char> {
        match self {
            CellModel::Num { text, .. } => text,
            CellModel::Str(text) => text,
        }
    }

    /// The style that sets the cell apart.
    pub open spec fn style(self) -> Style {
        match self {
            CellModel::Num { .. } => Style::Number,
            CellModel::Str(_) => Style::Text,
        }
    }
}

impl View for Cell {
    type V = CellModel;

    open spec fn view(&self) -> CellModel {
        match self {
            Cell::Num { bits, text } => CellModel::Num { bits: *bits, text: text@ },
            Cell::Str(text) => CellModel::Str(text@),
        }
    }
}

impl DeepView for Cell {
    type V = CellModel;

    open spec fn deep_view(&self) -> CellModel {
        self@
    }
}

impl Cell {
    /// Whether the cell holds a number.
    pub fn is_numeric(&self) -> (r: bool)
        ensures
            r == (self@ is Num),
    {
        match self {
            Cell::Num { .. } => true,
            Cell::Str(_) => false,
        }
    }

    /// The characters that display the cell: a number's decimal text, a text
    /// as it is.
    pub fn text(&self) -> (r: &str)
        ensures
            r@ == self@.text(),
    {
        match self {
            Cell::Num { text, .. } => text.as_str(),
            Cell::Str(text) => text.as_str(),
        }
    }

    /// The style that sets the cell apart: one for numbers, one for texts.
    pub fn style(&self) -> (r: Style)
        ensures
            r == self@.style(),
    {
        match self {
            Cell::Num { .. } => Style::Number,
            Cell::Str(_) => Style::Text,
        }
    }
}

} // verus!
