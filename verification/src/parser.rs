//! Keyword values of the first stylesheet format's properties.

use vstd::prelude::*;

use crate::css::selector::{eq_ignore_ascii_case, matches_name};
use crate::style::{AlignContent, AlignItems, Cursor, FlexDirection, FlexWrap, JustifyContent, Position};

verus! {

/// A property value: one of the CSS-wide keywords or an exact value.
#[derive(Debug, Clone, Copy, PartialEq, Eq, Structural)]
pub enum PropertyValue<T> {
    Auto,
    Initial,
    Inherit,
    Exact(T),
}

/// The value of the first entry of `table` whose keyword is `name`, ignoring ASCII case.
pub open spec fn table_lookup<T>(name: Seq<char>, table: Seq<(Seq<char>, T)>) -> Option<T>
    decreases table.len(),
{
    if table.len() == 0 {
        Option::None
    } else if eq_ignore_ascii_case(name, table[0].0) {
        Some(table[0].1)
    } else {
        table_lookup(name, table.drop_first())
    }
}

/// The keyword table as text views.
pub open spec fn table_view<T>(table: Seq<(&str, T)>) -> Seq<(Seq<char>, T)> {
    table.map_values(|p: (&str, T)| (p.0@, p.1))
}

/// Looks `name` up in a keyword table, ignoring ASCII case.
pub(crate) fn lookup<T: Copy>(name: &str, table: &[(&str, T)]) -> (r: Option<T>)
    ensures
        r == table_lookup(name@, table_view(table@)),
{
    let n = table.len();
    let mut i: usize = 0;
    proof {
        assert(table@.skip(0) =~= table@);
    }
    while i < n
        invariant
            n == table@.len(),
            0 <= i <= n,
            table_lookup(name@, table_view(table@)) == table_lookup(name@, table_view(table@.skip(i as int))),
        decreases n - i,
    {
        proof {
            assert(table_view(table@.skip(i as int)).drop_first() =~= table_view(table@.skip(i + 1)));
            assert(table_view(table@.skip(i as int))[0] == (table@[i as int].0@, table@[i as int].1));
        }
        if matches_name(name, table[i].0) {
            return Some(table[i].1);
        }
        i += 1;
    }
    proof {
        assert(table_view(table@.skip(n as int)) =~= Seq::<(Seq<char>, T)>::empty());
    }
    Option::None
}

/// The value of a property keyword: the CSS-wide keywords `auto`, `initial` and `inherit`
/// first, then the first entry of the property's table, ignoring ASCII case.
pub open spec fn keyword_value<T>(name: Seq<char>, table: Seq<(Seq<char>, T)>) -> Option<PropertyValue<T>> {
    if eq_ignore_ascii_case(name, "auto"@) {
        Some(PropertyValue::Auto)
    } else if eq_ignore_ascii_case(name, "initial"@) {
        Some(PropertyValue::Initial)
    } else if eq_ignore_ascii_case(name, "inherit"@) {
        Some(PropertyValue::Inherit)
    } else {
        match table_lookup(name, table) {
            Some(v) => Some(PropertyValue::Exact(v)),
            Option::None => Option::None,
        }
    }
}

/// Parses a property keyword against the CSS-wide keywords and the property's table.
fn parse_keyword<T: Copy>(name: &str, table: &[(&str, T)]) -> (r: Option<PropertyValue<T>>)
    ensures
        r == keyword_value(name@, table_view(table@)),
{
    if matches_name(name, "auto") {
        Some(PropertyValue::Auto)
    } else if matches_name(name, "initial") {
        Some(PropertyValue::Initial)
    } else if matches_name(name, "inherit") {
        Some(PropertyValue::Inherit)
    } else {
        match lookup(name, table) {
            Some(v) => Some(PropertyValue::Exact(v)),
            Option::None => Option::None,
        }
    }
}

/// The keywords of `align-content`.
pub open spec fn align_content_table() -> Seq<(Seq<char>, AlignContent)> {
    seq![
        ("stretch"@, AlignContent::Stretch),
        ("center"@, AlignContent::Center),
        ("flex-start"@, AlignContent::FlexStart),
        ("flex-end"@, AlignContent::FlexEnd),
        ("space-between"@, AlignContent::SpaceBetween),
        ("space-around"@, AlignContent::SpaceAround),
    ]
}

/// Parses a `align-content` keyword.
pub fn parse_align_content(name: &str) -> (r: Option<PropertyValue<AlignContent>>)
    ensures
        r == keyword_value(name@, align_content_table()),
{
    let table = [
        ("stretch", AlignContent::Stretch),
        ("center", AlignContent::Center),
        ("flex-start", AlignContent::FlexStart),
        ("flex-end", AlignContent::FlexEnd),
        ("space-between", AlignContent::SpaceBetween),
        ("space-around", AlignContent::SpaceAround),
    ];
    proof {
        assert(table_view(table@) =~= align_content_table());
    }
    parse_keyword(name, &table)
}

/// The keywords of `align-items` and `align-self`.
pub open spec fn align_items_table() -> Seq<(Seq<char>, AlignItems)> {
    seq![
        ("stretch"@, AlignItems::Stretch),
        ("center"@, AlignItems::Center),
        ("flex-start"@, AlignItems::FlexStart),
        ("flex-end"@, AlignItems::FlexEnd),
    ]
}

/// Parses a `align-items` keyword.
pub fn parse_align_items(name: &str) -> (r: Option<PropertyValue<AlignItems>>)
    ensures
        r == keyword_value(name@, align_items_table()),
{
    let table = [
        ("stretch", AlignItems::Stretch),
        ("center", AlignItems::Center),
        ("flex-start", AlignItems::FlexStart),
        ("flex-end", AlignItems::FlexEnd),
    ];
    proof {
        assert(table_view(table@) =~= align_items_table());
    }
    parse_keyword(name, &table)
}

/// Parses a `align-self` keyword.
pub fn parse_align_self(name: &str) -> (r: Option<PropertyValue<AlignItems>>)
    ensures
        r == keyword_value(name@, align_items_table()),
{
    let table = [
        ("stretch", AlignItems::Stretch),
        ("center", AlignItems::Center),
        ("flex-start", AlignItems::FlexStart),
        ("flex-end", AlignItems::FlexEnd),
    ];
    proof {
        assert(table_view(table@) =~= align_items_table());
    }
    parse_keyword(name, &table)
}

/// The keywords of `cursor`.
pub open spec fn cursor_table() -> Seq<(Seq<char>, Cursor)> {
    seq![
        ("default"@, Cursor::Default),
        ("none"@, Cursor::NoCursor),
        ("context-menu"@, Cursor::ContextMenu),
        ("help"@, Cursor::Help),
        ("pointer"@, Cursor::Pointer),
        ("progress"@, Cursor::Progress),
        ("wait"@, Cursor::Wait),
        ("cell"@, Cursor::Cell),
        ("crosshair"@, Cursor::Crosshair),
        ("text"@, Cursor::Text),
        ("vertical-text"@, Cursor::VerticalText),
        ("alias"@, Cursor::Alias),
        ("copy"@, Cursor::Copy),
        ("move"@, Cursor::Move),
        ("no-drop"@, Cursor::NoDrop),
        ("not-allowed"@, Cursor::NotAllowed),
        ("grab"@, Cursor::Grab),
        ("grabbing"@, Cursor::Grabbing),
        ("e-resize"@, Cursor::E_Resize),
        ("n-resize"@, Cursor::N_Resize),
        ("ne-resize"@, Cursor::NE_Resize),
        ("nw-resize"@, Cursor::NW_Resize),
        ("s-resize"@, Cursor::S_Resize),
        ("se-resize"@, Cursor::SE_Resize),
        ("sw-resize"@, Cursor::SW_Resize),
        ("w-resize"@, Cursor::W_Resize),
        ("we-resize"@, Cursor::WE_Resize),
        ("ns-resize"@, Cursor::NS_Resize),
        ("nesw-resize"@, Cursor::NESW_Resize),
        ("nwse-resize"@, Cursor::NWSE_Resize),
        ("col-resize"@, Cursor::ColResize),
        ("row-resize"@, Cursor::RowResize),
        ("all-scroll"@, Cursor::AllScroll),
        ("zoom-in"@, Cursor::ZoomIn),
        ("zoom-out"@, Cursor::ZoomOut),
    ]
}

/// Parses a `cursor` keyword.
pub fn parse_cursor(name: &str) -> (r: Option<PropertyValue<Cursor>>)
    ensures
        r == keyword_value(name@, cursor_table()),
{
    let table = [
        ("default", Cursor::Default),
        ("none", Cursor::NoCursor),
        ("context-menu", Cursor::ContextMenu),
        ("help", Cursor::Help),
        ("pointer", Cursor::Pointer),
        ("progress", Cursor::Progress),
        ("wait", Cursor::Wait),
        ("cell", Cursor::Cell),
        ("crosshair", Cursor::Crosshair),
        ("text", Cursor::Text),
        ("vertical-text", Cursor::VerticalText),
        ("alias", Cursor::Alias),
        ("copy", Cursor::Copy),
        ("move", Cursor::Move),
        ("no-drop", Cursor::NoDrop),
        ("not-allowed", Cursor::NotAllowed),
        ("grab", Cursor::Grab),
        ("grabbing", Cursor::Grabbing),
        ("e-resize", Cursor::E_Resize),
        ("n-resize", Cursor::N_Resize),
        ("ne-resize", Cursor::NE_Resize),
        ("nw-resize", Cursor::NW_Resize),
        ("s-resize", Cursor::S_Resize),
        ("se-resize", Cursor::SE_Resize),
        ("sw-resize", Cursor::SW_Resize),
        ("w-resize", Cursor::W_Resize),
        ("we-resize", Cursor::WE_Resize),
        ("ns-resize", Cursor::NS_Resize),
        ("nesw-resize", Cursor::NESW_Resize),
        ("nwse-resize", Cursor::NWSE_Resize),
        ("col-resize", Cursor::ColResize),
        ("row-resize", Cursor::RowResize),
        ("all-scroll", Cursor::AllScroll),
        ("zoom-in", Cursor::ZoomIn),
        ("zoom-out", Cursor::ZoomOut),
    ];
    proof {
        assert(table_view(table@) =~= cursor_table());
    }
    parse_keyword(name, &table)
}

/// The keywords of `flex-direction`.
pub open spec fn flex_direction_table() -> Seq<(Seq<char>, FlexDirection)> {
    seq![
        ("row"@, FlexDirection::Row),
        ("row-reverse"@, FlexDirection::RowReverse),
        ("column"@, FlexDirection::Column),
        ("column-reverse"@, FlexDirection::ColumnReverse),
    ]
}

/// Parses a `flex-direction` keyword.
pub fn parse_flex_direction(name: &str) -> (r: Option<PropertyValue<FlexDirection>>)
    ensures
        r == keyword_value(name@, flex_direction_table()),
{
    let table = [
        ("row", FlexDirection::Row),
        ("row-reverse", FlexDirection::RowReverse),
        ("column", FlexDirection::Column),
        ("column-reverse", FlexDirection::ColumnReverse),
    ];
    proof {
        assert(table_view(table@) =~= flex_direction_table());
    }
    parse_keyword(name, &table)
}

/// The keywords of `flex-wrap`.
pub open spec fn flex_wrap_table() -> Seq<(Seq<char>, FlexWrap)> {
    seq![
        ("no-wrap"@, FlexWrap::NoWrap),
        ("wrap"@, FlexWrap::Wrap),
        ("wrap-reverse"@, FlexWrap::WrapReverse),
    ]
}

/// Parses a `flex-wrap` keyword.
pub fn parse_flex_wrap(name: &str) -> (r: Option<PropertyValue<FlexWrap>>)
    ensures
        r == keyword_value(name@, flex_wrap_table()),
{
    let table = [
        ("no-wrap", FlexWrap::NoWrap),
        ("wrap", FlexWrap::Wrap),
        ("wrap-reverse", FlexWrap::WrapReverse),
    ];
    proof {
        assert(table_view(table@) =~= flex_wrap_table());
    }
    parse_keyword(name, &table)
}

/// The keywords of `justify-content`.
pub open spec fn justify_content_table() -> Seq<(Seq<char>, JustifyContent)> {
    seq![
        ("flex-start"@, JustifyContent::FlexStart),
        ("flex-end"@, JustifyContent::FlexEnd),
        ("center"@, JustifyContent::Center),
        ("space-between"@, JustifyContent::SpaceBetween),
        ("space-around"@, JustifyContent::SpaceAround),
        ("space-evenly"@, JustifyContent::SpaceEvenly),
    ]
}

/// Parses a `justify-content` keyword.
pub fn parse_justify_content(name: &str) -> (r: Option<PropertyValue<JustifyContent>>)
    ensures
        r == keyword_value(name@, justify_content_table()),
{
    let table = [
        ("flex-start", JustifyContent::FlexStart),
        ("flex-end", JustifyContent::FlexEnd),
        ("center", JustifyContent::Center),
        ("space-between", JustifyContent::SpaceBetween),
        ("space-around", JustifyContent::SpaceAround),
        ("space-evenly", JustifyContent::SpaceEvenly),
    ];
    proof {
        assert(table_view(table@) =~= justify_content_table());
    }
    parse_keyword(name, &table)
}

/// The keywords of `position`.
pub open spec fn position_table() -> Seq<(Seq<char>, Position)> {
    seq![
        ("static"@, Position::Static),
        ("relative"@, Position::Relative),
        ("fixed"@, Position::Fixed),
    ]
}

/// Parses a `position` keyword.
pub fn parse_position(name: &str) -> (r: Option<PropertyValue<Position>>)
    ensures
        r == keyword_value(name@, position_table()),
{
    let table = [
        ("static", Position::Static),
        ("relative", Position::Relative),
        ("fixed", Position::Fixed),
    ];
    proof {
        assert(table_view(table@) =~= position_table());
    }
    parse_keyword(name, &table)
}

/// A component value of a declaration, as the CSS tokenizer delivers it.
#[derive(Debug, Clone, PartialEq, Eq)]
pub enum ValueToken {
    /// An identifier.
    Ident(String),
    /// The start of a function, with its name.
    Function(String),
    /// A number without a fraction or exponent, as an integer (saturated to `i32`).
    Integer(i32),
    /// A quoted string.
    QuotedString,
    /// A `,`.
    Comma,
    /// Any other token.
    Other,
}

/// A property that the `flex-flow` shorthand sets.
#[derive(Debug, Clone, Copy, PartialEq, Eq, Structural)]
pub enum FlexFlowProperty {
    FlexDirection(PropertyValue<FlexDirection>),
    FlexWrap(PropertyValue<FlexWrap>),
}

/// The properties that one token of a `flex-flow` value sets, if it is valid there.
pub open spec fn flex_flow_item(tok: ValueToken) -> Option<Seq<FlexFlowProperty>> {
    match tok {
        ValueToken::Ident(name) => if eq_ignore_ascii_case(name@, "initial"@) {
            Some(seq![FlexFlowProperty::FlexDirection(PropertyValue::Initial), FlexFlowProperty::FlexWrap(PropertyValue::Initial)])
        } else if eq_ignore_ascii_case(name@, "inherit"@) {
            Some(seq![FlexFlowProperty::FlexDirection(PropertyValue::Inherit), FlexFlowProperty::FlexWrap(PropertyValue::Inherit)])
        } else {
            match table_lookup(name@, flex_direction_table()) {
                Some(d) => Some(seq![FlexFlowProperty::FlexDirection(PropertyValue::Exact(d))]),
                Option::None => match table_lookup(name@, flex_wrap_table()) {
                    Some(w) => Some(seq![FlexFlowProperty::FlexWrap(PropertyValue::Exact(w))]),
                    Option::None => Option::None,
                },
            }
        },
        _ => Option::None,
    }
}

/// The properties that a `flex-flow` value sets, in order, if every token is valid.
pub open spec fn flex_flow_value(toks: Seq<ValueToken>) -> Option<Seq<FlexFlowProperty>>
    decreases toks.len(),
{
    if toks.len() == 0 {
        Some(Seq::empty())
    } else {
        match (flex_flow_value(toks.drop_last()), flex_flow_item(toks.last())) {
            (Some(a), Some(b)) => Some(a + b),
            _ => Option::None,
        }
    }
}

/// Parses the value of the `flex-flow` shorthand: each token sets the flex direction,
/// the flex wrap, or both (`initial` and `inherit`).
pub fn parse_flex_flow(tokens: &[ValueToken]) -> (r: Option<Vec<FlexFlowProperty>>)
    ensures
        match flex_flow_value(tokens@) {
            Some(props) => r is Some && r.unwrap()@ == props,
            Option::None => r is None,
        },
{
    let mut result: Vec<FlexFlowProperty> = Vec::new();
    let n = tokens.len();
    let mut i: usize = 0;
    proof {
        assert(tokens@.take(0) =~= Seq::<ValueToken>::empty());
    }
    while i < n
        invariant
            n == tokens@.len(),
            0 <= i <= n,
            flex_flow_value(tokens@.take(i as int)) == Some(result@),
        decreases n - i,
    {
        proof {
            assert(tokens@.take(i + 1).drop_last() =~= tokens@.take(i as int));
            assert(tokens@.take(i + 1).last() == tokens@[i as int]);
        }
        let ghost before = result@;
        match &tokens[i] {
            ValueToken::Ident(name) => {
                let name = name.as_str();
                if matches_name(name, "initial") {
                    result.push(FlexFlowProperty::FlexDirection(PropertyValue::Initial));
                    result.push(FlexFlowProperty::FlexWrap(PropertyValue::Initial));
                } else if matches_name(name, "inherit") {
                    result.push(FlexFlowProperty::FlexDirection(PropertyValue::Inherit));
                    result.push(FlexFlowProperty::FlexWrap(PropertyValue::Inherit));
                } else {
                    let directions = [
                        ("row", FlexDirection::Row),
                        ("row-reverse", FlexDirection::RowReverse),
                        ("column", FlexDirection::Column),
                        ("column-reverse", FlexDirection::ColumnReverse),
                    ];
                    let wraps = [
                        ("no-wrap", FlexWrap::NoWrap),
                        ("wrap", FlexWrap::Wrap),
                        ("wrap-reverse", FlexWrap::WrapReverse),
                    ];
                    proof {
                        assert(table_view(directions@) =~= flex_direction_table());
                        assert(table_view(wraps@) =~= flex_wrap_table());
                    }
                    match lookup(name, &directions) {
                        Some(d) => result.push(FlexFlowProperty::FlexDirection(PropertyValue::Exact(d))),
                        Option::None => match lookup(name, &wraps) {
                            Some(w) => result.push(FlexFlowProperty::FlexWrap(PropertyValue::Exact(w))),
                            Option::None => {
                                proof {
                                    lemma_flex_flow_none(tokens@, i as int);
                                }
                                return Option::None;
                            },
                        },
                    }
                }
            },
            _ => {
                proof {
                    lemma_flex_flow_none(tokens@, i as int);
                }
                return Option::None;
            },
        }
        proof {
            let item = flex_flow_item(tokens@[i as int]).unwrap();
            assert(result@ =~= before + item);
        }
        i += 1;
    }
    proof {
        assert(tokens@.take(n as int) =~= tokens@);
    }
    Some(result)
}

/// One invalid token makes the whole `flex-flow` value invalid.
proof fn lemma_flex_flow_none(toks: Seq<ValueToken>, i: int)
    requires
        0 <= i < toks.len(),
        flex_flow_item(toks[i]) is None,
    ensures
        flex_flow_value(toks) is None,
    decreases toks.len(),
{
    if i < toks.len() - 1 {
        assert(toks.drop_last()[i] == toks[i]);
        lemma_flex_flow_none(toks.drop_last(), i);
    }
}

/// The value of an integer property given as one token: `auto`, `initial`, `inherit`
/// (ignoring ASCII case) or an integer.
pub open spec fn integer_value(tok: ValueToken) -> Option<PropertyValue<i32>> {
    match tok {
        ValueToken::Integer(v) => Some(PropertyValue::Exact(v)),
        ValueToken::Ident(name) => if eq_ignore_ascii_case(name@, "auto"@) {
            Some(PropertyValue::Auto)
        } else if eq_ignore_ascii_case(name@, "initial"@) {
            Some(PropertyValue::Initial)
        } else if eq_ignore_ascii_case(name@, "inherit"@) {
            Some(PropertyValue::Inherit)
        } else {
            Option::None
        },
        _ => Option::None,
    }
}

/// Parses the value of an integer property.
pub fn parse_i32(tok: &ValueToken) -> (r: Option<PropertyValue<i32>>)
    ensures
        r == integer_value(*tok),
{
    match tok {
        ValueToken::Integer(v) => Some(PropertyValue::Exact(*v)),
        ValueToken::Ident(name) => {
            let name = name.as_str();
            if matches_name(name, "auto") {
                Some(PropertyValue::Auto)
            } else if matches_name(name, "initial") {
                Some(PropertyValue::Initial)
            } else if matches_name(name, "inherit") {
                Some(PropertyValue::Inherit)
            } else {
                Option::None
            }
        },
        _ => Option::None,
    }
}

/// Parses the value of an unsigned integer property: as [`parse_i32`], with the
/// integer's bits read as unsigned (a negative integer wraps around).
pub fn parse_u32(tok: &ValueToken) -> (r: Option<PropertyValue<u32>>)
    ensures
        r == match integer_value(*tok) {
            Some(PropertyValue::Exact(v)) => Some(PropertyValue::Exact(v as u32)),
            Some(PropertyValue::Auto) => Some(PropertyValue::Auto),
            Some(PropertyValue::Initial) => Some(PropertyValue::Initial),
            Some(PropertyValue::Inherit) => Some(PropertyValue::Inherit),
            Option::None => Option::<PropertyValue<u32>>::None,
        },
{
    match parse_i32(tok) {
        Some(PropertyValue::Exact(v)) => Some(PropertyValue::Exact(v as u32)),
        Some(PropertyValue::Auto) => Some(PropertyValue::Auto),
        Some(PropertyValue::Initial) => Some(PropertyValue::Initial),
        Some(PropertyValue::Inherit) => Some(PropertyValue::Inherit),
        Option::None => Option::None,
    }
}

} // verus!
