//! Computed style values used by layout: flexbox alignment, direction and wrapping,
//! positioning, and the pointer cursor.

use vstd::prelude::*;

verus! {

/// How flex lines are distributed along the cross axis.
#[derive(Debug, Clone, Copy, PartialEq, Eq, Structural)]
pub enum AlignContent {
    Center,
    FlexEnd,
    FlexStart,
    SpaceAround,
    SpaceBetween,
    Stretch,
}

/// How items are aligned along the cross axis.
#[derive(Debug, Clone, Copy, PartialEq, Eq, Structural)]
pub enum AlignItems {
    Stretch,
    Center,
    FlexStart,
    FlexEnd,
}

/// The pointer cursor shown over a node.
#[allow(non_camel_case_types)]
#[derive(Debug, Clone, Copy, PartialEq, Eq, Structural)]
pub enum Cursor {
    Default,
    /// No cursor is shown.
    NoCursor,
    ContextMenu,
    Help,
    Pointer,
    Progress,
    Wait,
    Cell,
    Crosshair,
    Text,
    VerticalText,
    Alias,
    Copy,
    Move,
    NoDrop,
    NotAllowed,
    Grab,
    Grabbing,
    E_Resize,
    N_Resize,
    NE_Resize,
    NW_Resize,
    S_Resize,
    SE_Resize,
    SW_Resize,
    W_Resize,
    WE_Resize,
    NS_Resize,
    NESW_Resize,
    NWSE_Resize,
    ColResize,
    RowResize,
    AllScroll,
    ZoomIn,
    ZoomOut,
}

/// The main axis of a flex container and its direction.
#[derive(Debug, Clone, Copy, PartialEq, Eq, Structural)]
pub enum FlexDirection {
    Row,
    RowReverse,
    Column,
    ColumnReverse,
}

impl FlexDirection {
    /// Whether the main axis is horizontal.
    pub fn is_row(&self) -> (r: bool)
        ensures
            r == (*self is Row || *self is RowReverse),
    {
        match self {
            FlexDirection::Row | FlexDirection::RowReverse => true,
            FlexDirection::Column | FlexDirection::ColumnReverse => false,
        }
    }

    /// Whether items are laid out from the end of the main axis.
    pub fn is_reverse(&self) -> (r: bool)
        ensures
            r == (*self is RowReverse || *self is ColumnReverse),
    {
        match self {
            FlexDirection::RowReverse | FlexDirection::ColumnReverse => true,
            FlexDirection::Row | FlexDirection::Column => false,
        }
    }
}

/// Whether flex items wrap onto several lines.
#[derive(Debug, Clone, Copy, PartialEq, Eq, Structural)]
pub enum FlexWrap {
    NoWrap,
    Wrap,
    WrapReverse,
}

/// How items are distributed along the main axis.
#[derive(Debug, Clone, Copy, PartialEq, Eq, Structural)]
pub enum JustifyContent {
    FlexStart,
    FlexEnd,
    Center,
    SpaceBetween,
    SpaceAround,
    SpaceEvenly,
}

/// How a node is positioned.
#[derive(Debug, Clone, Copy, PartialEq, Eq, Structural)]
pub enum Position {
    Static,
    Relative,
    Fixed,
}

} // verus!
