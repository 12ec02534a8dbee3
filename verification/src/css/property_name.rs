//! The properties that a declaration can set, by name, and what a change of each one
//! affects.

use vstd::prelude::*;

use crate::parser::{lookup, table_lookup, table_view};

verus! {

/// A property that a declaration can set.
#[derive(Debug, Clone, Copy, PartialEq, Eq, Structural)]
pub enum PropertyName {
    BackgroundColor,
    BackgroundImage,
    Border,
    BorderBottom,
    BorderBottomColor,
    BorderBottomLeftRadius,
    BorderBottomRightRadius,
    BorderBottomWidth,
    BorderColor,
    BorderLeft,
    BorderLeftColor,
    BorderLeftWidth,
    BorderRadius,
    BorderRight,
    BorderRightColor,
    BorderRightWidth,
    BorderTop,
    BorderTopColor,
    BorderTopLeftRadius,
    BorderTopRightRadius,
    BorderTopWidth,
    BorderWidth,
    Bottom,
    BoxShadow,
    ChildBetween,
    ChildBottom,
    ChildLeft,
    ChildRight,
    ChildSpace,
    ChildTop,
    Color,
    Display,
    FlexBasis,
    Font,
    FontFamily,
    FontSize,
    FontStyle,
    FontWeight,
    FontWidth,
    Height,
    Left,
    LetterSpacing,
    LineHeight,
    MaxBottom,
    MaxChildBetween,
    MaxChildBottom,
    MaxChildLeft,
    MaxChildRight,
    MaxChildTop,
    MaxHeight,
    MaxLeft,
    MaxRight,
    MaxTop,
    MaxWidth,
    MinBottom,
    MinChildBetween,
    MinChildBottom,
    MinChildLeft,
    MinChildRight,
    MinChildTop,
    MinHeight,
    MinLeft,
    MinRight,
    MinTop,
    MinWidth,
    Opacity,
    Outline,
    OutlineColor,
    OutlineOffset,
    OutlineWidth,
    Position,
    Right,
    SelectionBackground,
    SelectionColor,
    Space,
    TextAlign,
    TextShadow,
    Top,
    Transform,
    Width,
    WordSpacing,
    ZIndex,
}

/// The properties by their CSS names, in the order they are looked up.
pub open spec fn property_table() -> Seq<(Seq<char>, PropertyName)> {
    seq![
        ("background-color"@, PropertyName::BackgroundColor),
        ("background-image"@, PropertyName::BackgroundImage),
        ("border-bottom-color"@, PropertyName::BorderBottomColor),
        ("border-bottom-left-radius"@, PropertyName::BorderBottomLeftRadius),
        ("border-bottom-right-radius"@, PropertyName::BorderBottomRightRadius),
        ("border-bottom-width"@, PropertyName::BorderBottomWidth),
        ("border-bottom"@, PropertyName::BorderBottom),
        ("border-color"@, PropertyName::BorderColor),
        ("border-left-color"@, PropertyName::BorderLeftColor),
        ("border-left-width"@, PropertyName::BorderLeftWidth),
        ("border-left"@, PropertyName::BorderLeft),
        ("border-radius"@, PropertyName::BorderRadius),
        ("border-right-color"@, PropertyName::BorderRightColor),
        ("border-right-width"@, PropertyName::BorderRightWidth),
        ("border-right"@, PropertyName::BorderRight),
        ("border-top-color"@, PropertyName::BorderTopColor),
        ("border-top-left-radius"@, PropertyName::BorderTopLeftRadius),
        ("border-top-right-radius"@, PropertyName::BorderTopRightRadius),
        ("border-top-width"@, PropertyName::BorderTopWidth),
        ("border-top"@, PropertyName::BorderTop),
        ("border-width"@, PropertyName::BorderWidth),
        ("border"@, PropertyName::Border),
        ("bottom"@, PropertyName::Bottom),
        ("left"@, PropertyName::Left),
        ("right"@, PropertyName::Right),
        ("top"@, PropertyName::Top),
        ("box-shadow"@, PropertyName::BoxShadow),
        ("child-between"@, PropertyName::ChildBetween),
        ("child-bottom"@, PropertyName::ChildBottom),
        ("child-left"@, PropertyName::ChildLeft),
        ("child-right"@, PropertyName::ChildRight),
        ("child-space"@, PropertyName::ChildSpace),
        ("child-top"@, PropertyName::ChildTop),
        ("color"@, PropertyName::Color),
        ("display"@, PropertyName::Display),
        ("flex-basis"@, PropertyName::FlexBasis),
        ("font-family"@, PropertyName::FontFamily),
        ("font-size"@, PropertyName::FontSize),
        ("font-width"@, PropertyName::FontWidth),
        ("font-style"@, PropertyName::FontStyle),
        ("font-weight"@, PropertyName::FontWeight),
        ("font"@, PropertyName::Font),
        ("height"@, PropertyName::Height),
        ("width"@, PropertyName::Width),
        ("letter-spacing"@, PropertyName::LetterSpacing),
        ("word-spacing"@, PropertyName::WordSpacing),
        ("line-height"@, PropertyName::LineHeight),
        ("max-bottom"@, PropertyName::MaxBottom),
        ("max-child-between"@, PropertyName::MaxChildBetween),
        ("max-child-bottom"@, PropertyName::MaxChildBottom),
        ("max-child-left"@, PropertyName::MaxChildLeft),
        ("max-child-right"@, PropertyName::MaxChildRight),
        ("max-child-top"@, PropertyName::MaxChildTop),
        ("max-height"@, PropertyName::MaxHeight),
        ("max-left"@, PropertyName::MaxLeft),
        ("max-right"@, PropertyName::MaxRight),
        ("max-top"@, PropertyName::MaxTop),
        ("max-width"@, PropertyName::MaxWidth),
        ("min-bottom"@, PropertyName::MinBottom),
        ("min-child-between"@, PropertyName::MinChildBetween),
        ("min-child-bottom"@, PropertyName::MinChildBottom),
        ("min-child-left"@, PropertyName::MinChildLeft),
        ("min-child-right"@, PropertyName::MinChildRight),
        ("min-child-top"@, PropertyName::MinChildTop),
        ("min-height"@, PropertyName::MinHeight),
        ("min-left"@, PropertyName::MinLeft),
        ("min-right"@, PropertyName::MinRight),
        ("min-top"@, PropertyName::MinTop),
        ("min-width"@, PropertyName::MinWidth),
        ("opacity"@, PropertyName::Opacity),
        ("outline-color"@, PropertyName::OutlineColor),
        ("outline-offset"@, PropertyName::OutlineOffset),
        ("outline-width"@, PropertyName::OutlineWidth),
        ("outline"@, PropertyName::Outline),
        ("position"@, PropertyName::Position),
        ("selection-background"@, PropertyName::SelectionBackground),
        ("selection-color"@, PropertyName::SelectionColor),
        ("space"@, PropertyName::Space),
        ("text-align"@, PropertyName::TextAlign),
        ("text-shadow"@, PropertyName::TextShadow),
        ("transform"@, PropertyName::Transform),
        ("z-index"@, PropertyName::ZIndex),
    ]
}

/// Whether a change of the property can change the layout of the tree.
pub open spec fn changes_layout(p: PropertyName) -> bool {
    !(
        p is BackgroundColor
        || p is BackgroundImage
        || p is BorderBottomColor
        || p is BorderColor
        || p is BorderLeftColor
        || p is BorderRightColor
        || p is BorderTopColor
        || p is BoxShadow
        || p is Color
        || p is Opacity
        || p is Outline
        || p is OutlineColor
        || p is OutlineOffset
        || p is OutlineWidth
        || p is SelectionBackground
        || p is SelectionColor
        || p is TextShadow
        || p is Transform
        || p is ZIndex
    )
}

/// Whether the property is a shorthand, which sets several other properties.
pub open spec fn shorthand(p: PropertyName) -> bool {
    p is BorderBottom
    || p is BorderColor
    || p is BorderLeft
    || p is BorderRadius
    || p is BorderRight
    || p is BorderTop
    || p is BorderWidth
    || p is Border
    || p is ChildSpace
    || p is Font
    || p is Outline
    || p is Space
}

impl PropertyName {
    /// The property with the given CSS name, ignoring ASCII case.
    pub fn from_css_name(name: &str) -> (r: Option<PropertyName>)
        ensures
            r == table_lookup(name@, property_table()),
    {
        let table = [
            ("background-color", PropertyName::BackgroundColor),
            ("background-image", PropertyName::BackgroundImage),
            ("border-bottom-color", PropertyName::BorderBottomColor),
            ("border-bottom-left-radius", PropertyName::BorderBottomLeftRadius),
            ("border-bottom-right-radius", PropertyName::BorderBottomRightRadius),
            ("border-bottom-width", PropertyName::BorderBottomWidth),
            ("border-bottom", PropertyName::BorderBottom),
            ("border-color", PropertyName::BorderColor),
            ("border-left-color", PropertyName::BorderLeftColor),
            ("border-left-width", PropertyName::BorderLeftWidth),
            ("border-left", PropertyName::BorderLeft),
            ("border-radius", PropertyName::BorderRadius),
            ("border-right-color", PropertyName::BorderRightColor),
            ("border-right-width", PropertyName::BorderRightWidth),
            ("border-right", PropertyName::BorderRight),
            ("border-top-color", PropertyName::BorderTopColor),
            ("border-top-left-radius", PropertyName::BorderTopLeftRadius),
            ("border-top-right-radius", PropertyName::BorderTopRightRadius),
            ("border-top-width", PropertyName::BorderTopWidth),
            ("border-top", PropertyName::BorderTop),
            ("border-width", PropertyName::BorderWidth),
            ("border", PropertyName::Border),
            ("bottom", PropertyName::Bottom),
            ("left", PropertyName::Left),
            ("right", PropertyName::Right),
            ("top", PropertyName::Top),
            ("box-shadow", PropertyName::BoxShadow),
            ("child-between", PropertyName::ChildBetween),
            ("child-bottom", PropertyName::ChildBottom),
            ("child-left", PropertyName::ChildLeft),
            ("child-right", PropertyName::ChildRight),
            ("child-space", PropertyName::ChildSpace),
            ("child-top", PropertyName::ChildTop),
            ("color", PropertyName::Color),
            ("display", PropertyName::Display),
            ("flex-basis", PropertyName::FlexBasis),
            ("font-family", PropertyName::FontFamily),
            ("font-size", PropertyName::FontSize),
            ("font-width", PropertyName::FontWidth),
            ("font-style", PropertyName::FontStyle),
            ("font-weight", PropertyName::FontWeight),
            ("font", PropertyName::Font),
            ("height", PropertyName::Height),
            ("width", PropertyName::Width),
            ("letter-spacing", PropertyName::LetterSpacing),
            ("word-spacing", PropertyName::WordSpacing),
            ("line-height", PropertyName::LineHeight),
            ("max-bottom", PropertyName::MaxBottom),
            ("max-child-between", PropertyName::MaxChildBetween),
            ("max-child-bottom", PropertyName::MaxChildBottom),
            ("max-child-left", PropertyName::MaxChildLeft),
            ("max-child-right", PropertyName::MaxChildRight),
            ("max-child-top", PropertyName::MaxChildTop),
            ("max-height", PropertyName::MaxHeight),
            ("max-left", PropertyName::MaxLeft),
            ("max-right", PropertyName::MaxRight),
            ("max-top", PropertyName::MaxTop),
            ("max-width", PropertyName::MaxWidth),
            ("min-bottom", PropertyName::MinBottom),
            ("min-child-between", PropertyName::MinChildBetween),
            ("min-child-bottom", PropertyName::MinChildBottom),
            ("min-child-left", PropertyName::MinChildLeft),
            ("min-child-right", PropertyName::MinChildRight),
            ("min-child-top", PropertyName::MinChildTop),
            ("min-height", PropertyName::MinHeight),
            ("min-left", PropertyName::MinLeft),
            ("min-right", PropertyName::MinRight),
            ("min-top", PropertyName::MinTop),
            ("min-width", PropertyName::MinWidth),
            ("opacity", PropertyName::Opacity),
            ("outline-color", PropertyName::OutlineColor),
            ("outline-offset", PropertyName::OutlineOffset),
            ("outline-width", PropertyName::OutlineWidth),
            ("outline", PropertyName::Outline),
            ("position", PropertyName::Position),
            ("selection-background", PropertyName::SelectionBackground),
            ("selection-color", PropertyName::SelectionColor),
            ("space", PropertyName::Space),
            ("text-align", PropertyName::TextAlign),
            ("text-shadow", PropertyName::TextShadow),
            ("transform", PropertyName::Transform),
            ("z-index", PropertyName::ZIndex),
        ];
        proof {
            assert(table_view(table@) =~= property_table());
        }
        lookup(name, &table)
    }

    /// Whether a change of the property can change the layout of the tree.
    pub fn affects_layout(&self) -> (r: bool)
        ensures
            r == changes_layout(*self),
    {
        match self {
            PropertyName::BackgroundColor => false,
            PropertyName::BackgroundImage => false,
            PropertyName::Border => true,
            PropertyName::BorderBottom => true,
            PropertyName::BorderBottomColor => false,
            PropertyName::BorderBottomLeftRadius => true,
            PropertyName::BorderBottomRightRadius => true,
            PropertyName::BorderBottomWidth => true,
            PropertyName::BorderColor => false,
            PropertyName::BorderLeft => true,
            PropertyName::BorderLeftColor => false,
            PropertyName::BorderLeftWidth => true,
            PropertyName::BorderRadius => true,
            PropertyName::BorderRight => true,
            PropertyName::BorderRightColor => false,
            PropertyName::BorderRightWidth => true,
            PropertyName::BorderTop => true,
            PropertyName::BorderTopColor => false,
            PropertyName::BorderTopLeftRadius => true,
            PropertyName::BorderTopRightRadius => true,
            PropertyName::BorderTopWidth => true,
            PropertyName::BorderWidth => true,
            PropertyName::Bottom => true,
            PropertyName::BoxShadow => false,
            PropertyName::ChildBetween => true,
            PropertyName::ChildBottom => true,
            PropertyName::ChildLeft => true,
            PropertyName::ChildRight => true,
            PropertyName::ChildSpace => true,
            PropertyName::ChildTop => true,
            PropertyName::Color => false,
            PropertyName::Display => true,
            PropertyName::FlexBasis => true,
            PropertyName::Font => true,
            PropertyName::FontFamily => true,
            PropertyName::FontSize => true,
            PropertyName::FontStyle => true,
            PropertyName::FontWeight => true,
            PropertyName::FontWidth => true,
            PropertyName::Height => true,
            PropertyName::Left => true,
            PropertyName::LetterSpacing => true,
            PropertyName::LineHeight => true,
            PropertyName::MaxBottom => true,
            PropertyName::MaxChildBetween => true,
            PropertyName::MaxChildBottom => true,
            PropertyName::MaxChildLeft => true,
            PropertyName::MaxChildRight => true,
            PropertyName::MaxChildTop => true,
            PropertyName::MaxHeight => true,
            PropertyName::MaxLeft => true,
            PropertyName::MaxRight => true,
            PropertyName::MaxTop => true,
            PropertyName::MaxWidth => true,
            PropertyName::MinBottom => true,
            PropertyName::MinChildBetween => true,
            PropertyName::MinChildBottom => true,
            PropertyName::MinChildLeft => true,
            PropertyName::MinChildRight => true,
            PropertyName::MinChildTop => true,
            PropertyName::MinHeight => true,
            PropertyName::MinLeft => true,
            PropertyName::MinRight => true,
            PropertyName::MinTop => true,
            PropertyName::MinWidth => true,
            PropertyName::Opacity => false,
            PropertyName::Outline => false,
            PropertyName::OutlineColor => false,
            PropertyName::OutlineOffset => false,
            PropertyName::OutlineWidth => false,
            PropertyName::Position => true,
            PropertyName::Right => true,
            PropertyName::SelectionBackground => false,
            PropertyName::SelectionColor => false,
            PropertyName::Space => true,
            PropertyName::TextAlign => true,
            PropertyName::TextShadow => false,
            PropertyName::Top => true,
            PropertyName::Transform => false,
            PropertyName::Width => true,
            PropertyName::WordSpacing => true,
            PropertyName::ZIndex => false,
        }
    }

    /// Whether the property is a shorthand, which sets several other properties.
    pub fn is_shorthand(&self) -> (r: bool)
        ensures
            r == shorthand(*self),
    {
        match self {
            PropertyName::BorderBottom => true,
            PropertyName::BorderColor => true,
            PropertyName::BorderLeft => true,
            PropertyName::BorderRadius => true,
            PropertyName::BorderRight => true,
            PropertyName::BorderTop => true,
            PropertyName::BorderWidth => true,
            PropertyName::Border => true,
            PropertyName::ChildSpace => true,
            PropertyName::Font => true,
            PropertyName::Outline => true,
            PropertyName::Space => true,
            _ => false,
        }
    }
}

} // verus!
