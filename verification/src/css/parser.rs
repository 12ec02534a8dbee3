//! Keyword values of CSS properties: the value of a declaration given as one token.

use vstd::prelude::*;

use crate::css::selector::{ascii_lower, eq_ignore_ascii_case, matches_name};
use crate::css::style::{direction_name, position_name, text_align_name, Direction, Position, TextAlign};
use crate::parser::{table_lookup, table_view, ValueToken};
use crate::css::tokens::{copy_text, outer_tokens, read_outer_tokens, views, CssToken, KindView, TokenKind, TokenView};

verus! {

/// Why a keyword value was refused.
#[derive(Debug, Clone, Copy, PartialEq, Eq, Structural)]
pub enum KeywordError {
    /// The value is a `var()` reference, to be resolved once variables are known.
    VarFunction,
    /// The token is not a keyword of the property.
    UnexpectedToken,
}

/// The value of a property given as one token: a keyword of `table` (ignoring ASCII
/// case), a `var()` reference, or an unexpected token.
pub open spec fn keyword_token<T>(tok: ValueToken, table: Seq<(Seq<char>, T)>) -> Result<T, KeywordError> {
    match tok {
        ValueToken::Function(name) => if eq_ignore_ascii_case(name@, "var"@) {
            Err(KeywordError::VarFunction)
        } else {
            Err(KeywordError::UnexpectedToken)
        },
        ValueToken::Ident(name) => match table_lookup(name@, table) {
            Some(v) => Ok(v),
            Option::None => Err(KeywordError::UnexpectedToken),
        },
        ValueToken::Integer(_) | ValueToken::QuotedString | ValueToken::Comma | ValueToken::Other => Err(
            KeywordError::UnexpectedToken,
        ),
    }
}

fn keyword<T: Copy>(tok: &ValueToken, table: &[(&str, T)]) -> (r: Result<T, KeywordError>)
    ensures
        r == keyword_token(*tok, table_view(table@)),
{
    match tok {
        ValueToken::Function(name) => {
            if matches_name(name.as_str(), "var") {
                Err(KeywordError::VarFunction)
            } else {
                Err(KeywordError::UnexpectedToken)
            }
        },
        ValueToken::Ident(name) => match crate::parser::lookup(name.as_str(), table) {
            Some(v) => Ok(v),
            Option::None => Err(KeywordError::UnexpectedToken),
        },
        ValueToken::Integer(_) | ValueToken::QuotedString | ValueToken::Comma | ValueToken::Other => Err(
            KeywordError::UnexpectedToken,
        ),
    }
}

/// The keywords of `text-align`.
pub open spec fn text_align_table() -> Seq<(Seq<char>, TextAlign)> {
    seq![
        ("start"@, TextAlign::Start),
        ("end"@, TextAlign::End),
        ("left"@, TextAlign::Left),
        ("right"@, TextAlign::Right),
        ("center"@, TextAlign::Center),
        ("justify"@, TextAlign::Justify),
    ]
}

/// The keywords of `position`.
pub open spec fn position_table() -> Seq<(Seq<char>, Position)> {
    seq![
        ("parent-directed"@, Position::ParentDirected),
        ("self-directed"@, Position::SelfDirected),
        ("fixed"@, Position::Fixed),
    ]
}

/// The keywords of `display`: a layout direction, or `none`.
pub open spec fn display_table() -> Seq<(Seq<char>, Option<Direction>)> {
    seq![
        ("row"@, Some(Direction::Row)),
        ("row-reverse"@, Some(Direction::RowReverse)),
        ("column"@, Some(Direction::Column)),
        ("column-reverse"@, Some(Direction::ColumnReverse)),
        ("none"@, Option::None),
    ]
}

/// Parses the value of `text-align`.
pub fn parse_text_align(tok: &ValueToken) -> (r: Result<TextAlign, KeywordError>)
    ensures
        r == keyword_token(*tok, text_align_table()),
{
    let table = [
        ("start", TextAlign::Start),
        ("end", TextAlign::End),
        ("left", TextAlign::Left),
        ("right", TextAlign::Right),
        ("center", TextAlign::Center),
        ("justify", TextAlign::Justify),
    ];
    proof {
        assert(table_view(table@) =~= text_align_table());
    }
    keyword(tok, &table)
}

/// Parses the value of `position`.
pub fn parse_position(tok: &ValueToken) -> (r: Result<Position, KeywordError>)
    ensures
        r == keyword_token(*tok, position_table()),
{
    let table = [
        ("parent-directed", Position::ParentDirected),
        ("self-directed", Position::SelfDirected),
        ("fixed", Position::Fixed),
    ];
    proof {
        assert(table_view(table@) =~= position_table());
    }
    keyword(tok, &table)
}

/// Parses the value of `display`: a layout direction, or `None` for `none`.
pub fn parse_display(tok: &ValueToken) -> (r: Result<Option<Direction>, KeywordError>)
    ensures
        r == keyword_token(*tok, display_table()),
{
    let table = [
        ("row", Some(Direction::Row)),
        ("row-reverse", Some(Direction::RowReverse)),
        ("column", Some(Direction::Column)),
        ("column-reverse", Some(Direction::ColumnReverse)),
        ("none", Option::None),
    ];
    proof {
        assert(table_view(table@) =~= display_table());
    }
    keyword(tok, &table)
}

/// Parsing the CSS name of a `text-align` value gives the value back.
pub proof fn law_text_align_name_parses(v: TextAlign)
    ensures
        table_lookup(text_align_name(v), text_align_table()) == Some(v),
{
    reveal_strlit("start");
    reveal_strlit("end");
    reveal_strlit("left");
    reveal_strlit("right");
    reveal_strlit("center");
    reveal_strlit("justify");
    reveal_with_fuel(table_lookup, 7);
    assert(ascii_lower("right"@[0]) != ascii_lower("start"@[0]));
    assert(ascii_lower("start"@[0]) != ascii_lower("right"@[0]));
}

/// Parsing the CSS name of a position gives the position back.
pub proof fn law_position_name_parses(p: Position)
    ensures
        table_lookup(position_name(p), position_table()) == Some(p),
{
    reveal_strlit("parent-directed");
    reveal_strlit("self-directed");
    reveal_strlit("fixed");
    reveal_with_fuel(table_lookup, 4);
}

/// Parsing the CSS name of a direction as a `display` value gives the direction back.
pub proof fn law_direction_name_parses(d: Direction)
    ensures
        table_lookup(direction_name(d), display_table()) == Some(Some(d)),
{
    reveal_strlit("row");
    reveal_strlit("row-reverse");
    reveal_strlit("column");
    reveal_strlit("column-reverse");
    reveal_strlit("none");
    reveal_with_fuel(table_lookup, 6);
}

/// The value that a declaration of a keyword property gives.
#[derive(Debug, Clone, Copy, PartialEq, Eq)]
pub enum DeclaredValue<T> {
    /// `initial`: the property's initial value.
    Initial,
    /// `inherit`: the parent's value.
    Inherit,
    /// A keyword of the property.
    Exact(T),
    /// A `var()` reference: the value is read once variables are known.
    Deferred,
}

/// Whether the tokens are exactly the keyword `kw`, ignoring ASCII case.
pub open spec fn is_keyword(toks: Seq<ValueToken>, kw: Seq<char>) -> bool {
    &&& toks.len() == 1
    &&& (toks[0] matches ValueToken::Ident(name) && eq_ignore_ascii_case(name@, kw))
}

/// The value of a declaration whose tokens are `toks`, where `first` is what the
/// property's parser makes of the first token: `initial` or `inherit` alone, a value
/// that the first token gives and nothing follows, or a deferred `var()` reference.
/// `None` when the declaration is invalid.
pub open spec fn declared_value<T>(toks: Seq<ValueToken>, first: Result<T, KeywordError>) -> Option<DeclaredValue<T>> {
    if is_keyword(toks, "initial"@) {
        Some(DeclaredValue::Initial)
    } else if is_keyword(toks, "inherit"@) {
        Some(DeclaredValue::Inherit)
    } else if toks.len() == 0 {
        Option::None
    } else {
        match first {
            Ok(v) => if toks.len() == 1 {
                Some(DeclaredValue::Exact(v))
            } else {
                Option::None
            },
            Err(KeywordError::VarFunction) => Some(DeclaredValue::Deferred),
            Err(KeywordError::UnexpectedToken) => Option::None,
        }
    }
}

fn is_keyword_exec(toks: &[ValueToken], kw: &str) -> (r: bool)
    ensures
        r == is_keyword(toks@, kw@),
{
    if toks.len() != 1 {
        return false;
    }
    match &toks[0] {
        ValueToken::Ident(name) => matches_name(name.as_str(), kw),
        _ => false,
    }
}

fn declared<T: Copy>(toks: &[ValueToken], first: Result<T, KeywordError>) -> (r: Option<DeclaredValue<T>>)
    ensures
        r == declared_value(toks@, first),
{
    if is_keyword_exec(toks, "initial") {
        Some(DeclaredValue::Initial)
    } else if is_keyword_exec(toks, "inherit") {
        Some(DeclaredValue::Inherit)
    } else if toks.len() == 0 {
        Option::None
    } else {
        match first {
            Ok(v) => if toks.len() == 1 {
                Some(DeclaredValue::Exact(v))
            } else {
                Option::None
            },
            Err(KeywordError::VarFunction) => Some(DeclaredValue::Deferred),
            Err(KeywordError::UnexpectedToken) => Option::None,
        }
    }
}

/// The value of a `text-align` declaration with the value tokens `toks`; see
/// [`declared_value`].
pub fn text_align_declaration(toks: &[ValueToken]) -> (r: Option<DeclaredValue<TextAlign>>)
    ensures
        r == declared_value(toks@, keyword_token(toks@[0], text_align_table())),
{
    if toks.len() == 0 {
        return declared(toks, Err(KeywordError::UnexpectedToken));
    }
    declared(toks, parse_text_align(&toks[0]))
}

/// The value of a `position` declaration with the value tokens `toks`; see
/// [`declared_value`].
pub fn position_declaration(toks: &[ValueToken]) -> (r: Option<DeclaredValue<Position>>)
    ensures
        r == declared_value(toks@, keyword_token(toks@[0], position_table())),
{
    if toks.len() == 0 {
        return declared(toks, Err(KeywordError::UnexpectedToken));
    }
    declared(toks, parse_position(&toks[0]))
}

/// The value of a `display` declaration with the value tokens `toks` (a layout
/// direction, or `None` for `none`); see [`declared_value`].
pub fn display_declaration(toks: &[ValueToken]) -> (r: Option<DeclaredValue<Option<Direction>>>)
    ensures
        r == declared_value(toks@, keyword_token(toks@[0], display_table())),
{
    if toks.len() == 0 {
        return declared(toks, Err(KeywordError::UnexpectedToken));
    }
    declared(toks, parse_display(&toks[0]))
}

/// The value of an integer property given as one token: an integer, or a `var()`
/// reference.
pub open spec fn integer_token(tok: ValueToken) -> Result<i32, KeywordError> {
    match tok {
        ValueToken::Integer(v) => Ok(v),
        ValueToken::Function(name) => if eq_ignore_ascii_case(name@, "var"@) {
            Err(KeywordError::VarFunction)
        } else {
            Err(KeywordError::UnexpectedToken)
        },
        _ => Err(KeywordError::UnexpectedToken),
    }
}

/// Parses the value of an integer property.
pub fn parse_i32(tok: &ValueToken) -> (r: Result<i32, KeywordError>)
    ensures
        r == integer_token(*tok),
{
    match tok {
        ValueToken::Integer(v) => Ok(*v),
        ValueToken::Function(name) => {
            if matches_name(name.as_str(), "var") {
                Err(KeywordError::VarFunction)
            } else {
                Err(KeywordError::UnexpectedToken)
            }
        },
        _ => Err(KeywordError::UnexpectedToken),
    }
}

/// The value of a `z-index` declaration with the value tokens `toks`; see
/// [`declared_value`].
pub fn z_index_declaration(toks: &[ValueToken]) -> (r: Option<DeclaredValue<i32>>)
    ensures
        r == declared_value(toks@, integer_token(toks@[0])),
{
    if toks.len() == 0 {
        return declared(toks, Err(KeywordError::UnexpectedToken));
    }
    declared(toks, parse_i32(&toks[0]))
}

/// Where a check of a `font-family` list stands.
pub enum FamilyState {
    /// A family name must come next.
    Start,
    /// Inside a family name made of identifiers.
    Words,
    /// After a quoted family name.
    Quoted,
}

/// Checks `toks[i..]` against the `font-family` grammar: family names separated by
/// commas, each a quoted string or one or more identifiers. A `var()` reference where a
/// family name or another identifier may stand defers the value.
pub open spec fn font_family_from(toks: Seq<ValueToken>, i: int, state: FamilyState) -> Result<(), KeywordError>
    decreases toks.len() - i,
{
    if i < 0 || i >= toks.len() {
        match state {
            FamilyState::Start => Err(KeywordError::UnexpectedToken),
            _ => Ok(()),
        }
    } else {
        let t = toks[i];
        match state {
            FamilyState::Start => match t {
                ValueToken::Function(name) => if eq_ignore_ascii_case(name@, "var"@) {
                    Err(KeywordError::VarFunction)
                } else {
                    Err(KeywordError::UnexpectedToken)
                },
                ValueToken::QuotedString => font_family_from(toks, i + 1, FamilyState::Quoted),
                ValueToken::Ident(_) => font_family_from(toks, i + 1, FamilyState::Words),
                _ => Err(KeywordError::UnexpectedToken),
            },
            FamilyState::Words => match t {
                ValueToken::Ident(_) => font_family_from(toks, i + 1, FamilyState::Words),
                ValueToken::Function(name) => if eq_ignore_ascii_case(name@, "var"@) {
                    Err(KeywordError::VarFunction)
                } else {
                    Err(KeywordError::UnexpectedToken)
                },
                ValueToken::Comma => font_family_from(toks, i + 1, FamilyState::Start),
                _ => Err(KeywordError::UnexpectedToken),
            },
            FamilyState::Quoted => match t {
                ValueToken::Comma => font_family_from(toks, i + 1, FamilyState::Start),
                _ => Err(KeywordError::UnexpectedToken),
            },
        }
    }
}

/// Checks a `font-family` value; see [`font_family_from`].
pub fn parse_font_family(toks: &[ValueToken]) -> (r: Result<(), KeywordError>)
    ensures
        r == font_family_from(toks@, 0, FamilyState::Start),
{
    let n = toks.len();
    let mut i: usize = 0;
    let mut state = FamilyState::Start;
    while i < n
        invariant
            n == toks@.len(),
            i <= n,
            font_family_from(toks@, 0, FamilyState::Start) == font_family_from(toks@, i as int, state),
        decreases n - i,
    {
        let var_fn = match &toks[i] {
            ValueToken::Function(name) => matches_name(name.as_str(), "var"),
            _ => false,
        };
        state = match (&state, &toks[i]) {
            (FamilyState::Start, ValueToken::QuotedString) => FamilyState::Quoted,
            (FamilyState::Start, ValueToken::Ident(_)) | (FamilyState::Words, ValueToken::Ident(_)) => FamilyState::Words,
            (FamilyState::Words, ValueToken::Comma) | (FamilyState::Quoted, ValueToken::Comma) => FamilyState::Start,
            (FamilyState::Start, ValueToken::Function(_)) | (FamilyState::Words, ValueToken::Function(_)) => {
                return if var_fn {
                    Err(KeywordError::VarFunction)
                } else {
                    Err(KeywordError::UnexpectedToken)
                };
            },
            _ => {
                return Err(KeywordError::UnexpectedToken);
            },
        };
        i += 1;
    }
    match state {
        FamilyState::Start => Err(KeywordError::UnexpectedToken),
        _ => Ok(()),
    }
}

/// The value of a `font-family` declaration with the value tokens `toks`: `initial` or
/// `inherit` alone, a valid family list, or a deferred `var()` reference (see
/// [`font_family_from`]); `None` when the declaration is invalid. The list itself is the
/// declaration's text.
pub fn font_family_declaration(toks: &[ValueToken]) -> (r: Option<DeclaredValue<()>>)
    ensures
        r == if is_keyword(toks@, "initial"@) {
            Some(DeclaredValue::Initial)
        } else if is_keyword(toks@, "inherit"@) {
            Some(DeclaredValue::Inherit)
        } else {
            match font_family_from(toks@, 0, FamilyState::Start) {
                Ok(()) => Some(DeclaredValue::Exact(())),
                Err(KeywordError::VarFunction) => Some(DeclaredValue::Deferred),
                Err(KeywordError::UnexpectedToken) => Option::None,
            }
        },
{
    if is_keyword_exec(toks, "initial") {
        Some(DeclaredValue::Initial)
    } else if is_keyword_exec(toks, "inherit") {
        Some(DeclaredValue::Inherit)
    } else {
        match parse_font_family(toks) {
            Ok(()) => Some(DeclaredValue::Exact(())),
            Err(KeywordError::VarFunction) => Some(DeclaredValue::Deferred),
            Err(KeywordError::UnexpectedToken) => Option::None,
        }
    }
}

/// Whether `v` is what the top-level token `t` is to a declaration's value: a number
/// counts as an integer when it has an integer value, and the kinds that values do not
/// use are `Other`.
pub open spec fn value_token_of(t: TokenView, v: ValueToken) -> bool {
    match t.kind {
        KindView::Ident(n) => v matches ValueToken::Ident(m) && m@ == n,
        KindView::Function(n) => v matches ValueToken::Function(m) && m@ == n,
        KindView::Number(Some(x)) => v == ValueToken::Integer(x),
        KindView::QuotedString => v is QuotedString,
        KindView::Comma => v is Comma,
        _ => v is Other,
    }
}

/// What a token is to a declaration's value; see [`value_token_of`].
pub fn value_token(t: &CssToken) -> (r: ValueToken)
    ensures
        value_token_of(t@, r),
{
    match &t.kind {
        TokenKind::Ident(n) => ValueToken::Ident(copy_text(n)),
        TokenKind::Function(n) => ValueToken::Function(copy_text(n)),
        TokenKind::Number(v) => match v {
            Some(x) => ValueToken::Integer(*x),
            Option::None => ValueToken::Other,
        },
        TokenKind::QuotedString => ValueToken::QuotedString,
        TokenKind::Comma => ValueToken::Comma,
        _ => ValueToken::Other,
    }
}

/// The component tokens of a declaration's value: its top-level tokens, whitespace and
/// comments left out (see [`outer_tokens`]), each as [`value_token_of`] says.
pub fn read_value_tokens(text: &str) -> (r: Vec<ValueToken>)
    ensures
        r@.len() == outer_tokens(text@, true).len(),
        forall|i: int| 0 <= i < r@.len() ==> value_token_of(#[trigger] outer_tokens(text@, true)[i], r@[i]),
{
    let toks = read_outer_tokens(text, true);
    let mut out: Vec<ValueToken> = Vec::new();
    let mut i: usize = 0;
    while i < toks.len()
        invariant
            i <= toks@.len(),
            views(toks@) == outer_tokens(text@, true),
            out@.len() == i,
            forall|j: int| 0 <= j < i ==> value_token_of(#[trigger] views(toks@)[j], out@[j]),
        decreases toks@.len() - i,
    {
        let v = value_token(&toks[i]);
        out.push(v);
        i = i + 1;
    }
    proof {
        assert(views(toks@).len() == toks@.len());
    }
    out
}

} // verus!
