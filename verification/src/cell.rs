//! The cells of a table: whole numbers, floating-point numbers and texts.

use vstd::prelude::*;
use crate::number::{int_text, fixed_text, fraction_len, int_to_string, to_fixed, fraction_digits};
use crate::unstyle::{StyledText, TextView};

verus! {

/// A floating-point number as the two decimal numerals that the layout reads of
/// it: `natural` is its shortest numeral that reads back as the same number,
/// `exact` the full decimal expansion of its binary value, from which it is
/// rounded to a fixed number of fraction digits.
pub struct FloatText {
    pub natural: String,
    pub exact: String,
}

impl FloatText {
    /// Holds the two numerals of one number.
    pub fn new(natural: &str, exact: &str) -> (f: Self)
        ensures
            f.natural@ == natural@,
            f.exact@ == exact@,
    {
        FloatText { natural: String::from_str(natural), exact: String::from_str(exact) }
    }
}

/// The content of one cell of the table.
pub enum Cell {
    /// A whole number.
    Int(i32),
    /// A floating-point number.
    Float(FloatText),
    /// A text, with or without styling.
    Text(StyledText),
}

/// What a cell holds, as mathematical values.
pub enum CellView {
    Int(int),
    Float { natural: Seq<char>, exact: Seq<char> },
    Text(TextView),
}

impl CellView {
    /// Whether the cell holds a number.
    pub open spec fn is_number(self) -> bool {
        !(self is Text)
    }

    /// The numeral of a number as it is written by default.
    pub open spec fn natural(self) -> Option<Seq<char>> {
        match self {
            CellView::Int(i) => Some(int_text(i)),
            CellView::Float { natural, exact } => Some(natural),
            CellView::Text(t) => None,
        }
    }

    /// The numeral of a number with `p` fraction digits.
    pub open spec fn fixed(self, p: nat) -> Option<Seq<char>> {
        match self {
            CellView::Int(i) => Some(fixed_text(int_text(i), p)),
            CellView::Float { natural, exact } => Some(fixed_text(exact, p)),
            CellView::Text(t) => None,
        }
    }

    /// The number of fraction digits of a floating-point number as it is
    /// written by default; 0 for every other cell.
    pub open spec fn fraction_digits(self) -> nat {
        match self {
            CellView::Float { natural, exact } => fraction_len(natural),
            _ => 0,
        }
    }
}

impl View for Cell {
    type V = CellView;

    open spec fn view(&self) -> CellView {
        match self {
            Cell::Int(i) => CellView::Int(*i as int),
            Cell::Float(f) => CellView::Float { natural: f.natural@, exact: f.exact@ },
            Cell::Text(t) => CellView::Text(t@),
        }
    }
}

impl DeepView for Cell {
    type V = CellView;

    open spec fn deep_view(&self) -> CellView {
        self@
    }
}

impl Cell {
    /// A text cell without styling.
    pub fn from(s: &str) -> (c: Self)
        ensures
            c@ == CellView::Text(TextView::of_plain(s@)),
    {
        Cell::Text(StyledText::from(s))
    }

    /// Whether the cell holds a number.
    pub fn is_a_number(&self) -> (b: bool)
        ensures
            b == self@.is_number(),
    {
        match self {
            Cell::Text(_) => false,
            _ => true,
        }
    }

    /// The styled text of a text cell, `None` for a number.
    pub fn to_unstylable(&self) -> (r: Option<&StyledText>)
        ensures
            match r {
                Some(t) => self@ == CellView::Text(t@),
                None => self@.is_number(),
            },
    {
        match self {
            Cell::Text(t) => Some(t),
            _ => None,
        }
    }

    /// The numeral of a number as it is written by default, `None` for a text.
    pub fn to_string(&self) -> (r: Option<String>)
        ensures
            r.deep_view() == self@.natural(),
    {
        match self {
            Cell::Int(i) => Some(int_to_string(*i)),
            Cell::Float(f) => Some(f.natural.clone()),
            Cell::Text(_) => None,
        }
    }

    /// The numeral of a number with `digits` fraction digits, `None` for a text.
    pub fn to_string_with_precision(&self, digits: usize) -> (r: Option<String>)
        ensures
            r.deep_view() == self@.fixed(digits as nat),
    {
        match self {
            Cell::Int(i) => {
                let s = int_to_string(*i);
                Some(to_fixed(s.as_str(), digits))
            },
            Cell::Float(f) => Some(to_fixed(f.exact.as_str(), digits)),
            Cell::Text(_) => None,
        }
    }

    /// The number of fraction digits of a floating-point number as it is
    /// written by default; 0 for every other cell.
    pub fn digits_len(&self) -> (n: usize)
        ensures
            n == self@.fraction_digits(),
    {
        match self {
            Cell::Float(f) => fraction_digits(f.natural.as_str()),
            _ => 0,
        }
    }
}

} // verus!
