//! Computed CSS values with a fixed set of keywords: text alignment, layout direction
//! and positioning, each with its CSS name.

use vstd::prelude::*;

verus! {

/// A `text-align` CSS value.
#[derive(Debug, Default, Clone, Copy, PartialEq, Eq, Structural)]
pub enum TextAlign {
    #[default]
    Start,
    End,
    Left,
    Right,
    Center,
    Justify,
}

/// The CSS keyword of a `text-align` value.
pub open spec fn text_align_name(v: TextAlign) -> Seq<char> {
    match v {
        TextAlign::Start => "start"@,
        TextAlign::End => "end"@,
        TextAlign::Left => "left"@,
        TextAlign::Right => "right"@,
        TextAlign::Center => "center"@,
        TextAlign::Justify => "justify"@,
    }
}

impl TextAlign {
    /// The CSS keyword of the value.
    pub fn css_name(&self) -> (r: &'static str)
        ensures
            r@ == text_align_name(*self),
    {
        match self {
            TextAlign::Start => "start",
            TextAlign::End => "end",
            TextAlign::Left => "left",
            TextAlign::Right => "right",
            TextAlign::Center => "center",
            TextAlign::Justify => "justify",
        }
    }
}

/// A CSS value that determines the direction that a node's children should be laid out.
#[derive(Debug, Clone, Copy, PartialEq, Eq, Structural)]
pub enum Direction {
    Row,
    RowReverse,
    Column,
    ColumnReverse,
}

/// The CSS keyword of a direction.
pub open spec fn direction_name(d: Direction) -> Seq<char> {
    match d {
        Direction::Row => "row"@,
        Direction::RowReverse => "row-reverse"@,
        Direction::Column => "column"@,
        Direction::ColumnReverse => "column-reverse"@,
    }
}

/// Whether children are laid out horizontally.
pub open spec fn direction_is_row(d: Direction) -> bool {
    d is Row || d is RowReverse
}

/// Whether children are laid out from the end.
pub open spec fn direction_is_reverse(d: Direction) -> bool {
    d is RowReverse || d is ColumnReverse
}

/// The direction along the other axis, reversed when `d` is.
pub open spec fn other_axis_of(d: Direction) -> Direction {
    match d {
        Direction::Row => Direction::Column,
        Direction::RowReverse => Direction::ColumnReverse,
        Direction::Column => Direction::Row,
        Direction::ColumnReverse => Direction::RowReverse,
    }
}

impl Direction {
    /// The CSS keyword of the value.
    pub fn css_name(&self) -> (r: &'static str)
        ensures
            r@ == direction_name(*self),
    {
        match self {
            Direction::Row => "row",
            Direction::RowReverse => "row-reverse",
            Direction::Column => "column",
            Direction::ColumnReverse => "column-reverse",
        }
    }

    /// Whether children are laid out horizontally.
    pub fn is_row(&self) -> (r: bool)
        ensures
            r == direction_is_row(*self),
    {
        match self {
            Direction::Row | Direction::RowReverse => true,
            Direction::Column | Direction::ColumnReverse => false,
        }
    }

    /// Whether children are laid out from the end.
    pub fn is_reverse(&self) -> (r: bool)
        ensures
            r == direction_is_reverse(*self),
    {
        match self {
            Direction::RowReverse | Direction::ColumnReverse => true,
            Direction::Column | Direction::Row => false,
        }
    }

    /// The direction along the other axis, reversed when this one is.
    pub fn other_axis(&self) -> (r: Self)
        ensures
            r == other_axis_of(*self),
    {
        match self {
            Direction::Row => Direction::Column,
            Direction::RowReverse => Direction::ColumnReverse,
            Direction::Column => Direction::Row,
            Direction::ColumnReverse => Direction::RowReverse,
        }
    }
}

/// Switching axes changes whether the direction is a row and keeps whether it is
/// reversed; switching twice gives the direction back.
pub proof fn law_other_axis_involution(d: Direction)
    ensures
        direction_is_row(other_axis_of(d)) != direction_is_row(d),
        direction_is_reverse(other_axis_of(d)) == direction_is_reverse(d),
        other_axis_of(other_axis_of(d)) == d,
{
}

/// A CSS value that determines how a node should be laid out.
#[derive(Debug, Clone, Copy, PartialEq, Eq, Structural, Default)]
pub enum Position {
    #[default]
    ParentDirected,
    SelfDirected,
    Fixed,
}

/// The CSS keyword of a position.
pub open spec fn position_name(p: Position) -> Seq<char> {
    match p {
        Position::ParentDirected => "parent-directed"@,
        Position::SelfDirected => "self-directed"@,
        Position::Fixed => "fixed"@,
    }
}

impl Position {
    /// The CSS keyword of the value.
    pub fn css_name(&self) -> (r: &'static str)
        ensures
            r@ == position_name(*self),
    {
        match self {
            Position::ParentDirected => "parent-directed",
            Position::SelfDirected => "self-directed",
            Position::Fixed => "fixed",
        }
    }
}

} // verus!
