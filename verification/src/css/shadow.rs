//! The structure of a shadow list (`box-shadow`, `text-shadow`): comma-separated items,
//! each of two to four lengths (offsets, then blur and spread), at most one colour
//! anywhere in it and, where allowed, at most one `inset`. The caller reads the colours
//! and lengths themselves and hands over what each component is; the items come back as
//! positions of those components.

use vstd::prelude::*;

use crate::css::selector::{eq_ignore_ascii_case, matches_name};
use crate::parser::PropertyValue;

verus! {

/// A component of a shadow list, as the caller classified it.
#[derive(Debug, Clone, PartialEq, Eq)]
pub enum ShadowPart {
    /// A colour: `None` for `currentColor`, else the position of its value.
    Color(Option<usize>),
    /// A length: the position of its value, and whether it is negative.
    Length(usize, bool),
    /// An identifier that is neither a colour nor a length, such as `inset` or `none`.
    Ident(String),
    /// A `,`, which ends an item.
    Comma,
    /// A `var()` reference: the list is to be read once variables are known.
    Var,
    /// Anything else.
    Other,
}

/// One shadow: its colour (`None` for `currentColor` or no colour), whether it is inset,
/// and the positions of its lengths.
#[derive(Debug, Clone, Copy, PartialEq, Eq, Structural)]
pub struct ShadowItem {
    pub color: Option<usize>,
    pub inset: bool,
    pub offset_x: usize,
    pub offset_y: usize,
    pub blur: Option<usize>,
    pub spread: Option<usize>,
}

/// Why a shadow list was refused.
#[derive(Debug, Clone, Copy, PartialEq, Eq, Structural)]
pub enum ShadowError {
    /// A component where none can stand: a fifth length, a second colour or `inset`,
    /// an `inset` where none is allowed, another identifier or token, or an item with
    /// fewer than two lengths.
    Unexpected,
    /// A negative blur radius.
    NegativeBlur,
    /// A `var()` reference.
    VarFunction,
}

/// What has been read of the current item.
pub struct ItemState {
    pub lengths: Seq<(usize, bool)>,
    pub color: Option<usize>,
    pub inset: bool,
    pub seen_color: bool,
    pub seen_inset: bool,
}

/// An item with nothing read yet.
pub open spec fn fresh_item() -> ItemState {
    ItemState { lengths: Seq::empty(), color: None, inset: false, seen_color: false, seen_inset: false }
}

/// The item that ends with the state `st`.
pub open spec fn finish_item(st: ItemState) -> Result<ShadowItem, ShadowError> {
    let n = st.lengths.len();
    if n < 2 || n > 4 {
        Err(ShadowError::Unexpected)
    } else if n >= 3 && st.lengths[2].1 {
        Err(ShadowError::NegativeBlur)
    } else {
        Ok(
            ShadowItem {
                color: st.color,
                inset: st.inset,
                offset_x: st.lengths[0].0,
                offset_y: st.lengths[1].0,
                blur: if n >= 3 {
                    Some(st.lengths[2].0)
                } else {
                    None
                },
                spread: if n == 4 {
                    Some(st.lengths[3].0)
                } else {
                    None
                },
            },
        )
    }
}

/// The items of `parts[i..]`, the current item being in state `st`.
pub open spec fn scan_items(parts: Seq<ShadowPart>, i: int, st: ItemState, allow_inset: bool) -> Result<Seq<ShadowItem>, ShadowError>
    decreases parts.len() - i,
{
    if i < 0 || i >= parts.len() {
        match finish_item(st) {
            Ok(it) => Ok(seq![it]),
            Err(e) => Err(e),
        }
    } else {
        match parts[i] {
            ShadowPart::Color(c) => if st.seen_color {
                Err(ShadowError::Unexpected)
            } else {
                scan_items(parts, i + 1, ItemState { color: c, seen_color: true, ..st }, allow_inset)
            },
            ShadowPart::Length(l, negative) => if st.lengths.len() >= 4 {
                Err(ShadowError::Unexpected)
            } else {
                scan_items(parts, i + 1, ItemState { lengths: st.lengths.push((l, negative)), ..st }, allow_inset)
            },
            ShadowPart::Ident(n) => if !allow_inset || !eq_ignore_ascii_case(n@, "inset"@) || st.seen_inset {
                Err(ShadowError::Unexpected)
            } else {
                scan_items(parts, i + 1, ItemState { inset: true, seen_inset: true, ..st }, allow_inset)
            },
            ShadowPart::Comma => match finish_item(st) {
                Err(e) => Err(e),
                Ok(it) => match scan_items(parts, i + 1, fresh_item(), allow_inset) {
                    Err(e) => Err(e),
                    Ok(rest) => Ok(seq![it] + rest),
                },
            },
            ShadowPart::Var => Err(ShadowError::VarFunction),
            ShadowPart::Other => Err(ShadowError::Unexpected),
        }
    }
}

/// `items` in front of a result.
pub open spec fn after_items(items: Seq<ShadowItem>, r: Result<Seq<ShadowItem>, ShadowError>) -> Result<Seq<ShadowItem>, ShadowError> {
    match r {
        Ok(rest) => Ok(items + rest),
        Err(e) => Err(e),
    }
}

fn finish_exec(lengths: &Vec<(usize, bool)>, color: Option<usize>, inset: bool) -> (r: Result<ShadowItem, ShadowError>)
    ensures
        r == finish_item(ItemState { lengths: lengths@, color, inset, seen_color: false, seen_inset: false }),
{
    let n = lengths.len();
    if n < 2 || n > 4 {
        Err(ShadowError::Unexpected)
    } else if n >= 3 && lengths[2].1 {
        Err(ShadowError::NegativeBlur)
    } else {
        Ok(
            ShadowItem {
                color,
                inset,
                offset_x: lengths[0].0,
                offset_y: lengths[1].0,
                blur: if n >= 3 {
                    Some(lengths[2].0)
                } else {
                    None
                },
                spread: if n == 4 {
                    Some(lengths[3].0)
                } else {
                    None
                },
            },
        )
    }
}

/// The items of a shadow list given as its components: exactly [`scan_items`] from the
/// start. Items are separated by commas; each takes its colour and `inset` (allowed
/// only where `allow_inset` is set) wherever they stand in it, and its lengths in order.
pub fn shadow_items(parts: &[ShadowPart], allow_inset: bool) -> (r: Result<Vec<ShadowItem>, ShadowError>)
    ensures
        match r {
            Ok(items) => scan_items(parts@, 0, fresh_item(), allow_inset) == Ok::<Seq<ShadowItem>, ShadowError>(items@),
            Err(e) => scan_items(parts@, 0, fresh_item(), allow_inset) == Err::<Seq<ShadowItem>, ShadowError>(e),
        },
{
    let mut items: Vec<ShadowItem> = Vec::new();
    let mut lengths: Vec<(usize, bool)> = Vec::new();
    let mut color: Option<usize> = None;
    let mut inset = false;
    let mut seen_color = false;
    let mut seen_inset = false;
    let mut i: usize = 0;
    proof {
        assert(lengths@ =~= Seq::<(usize, bool)>::empty());
        match scan_items(parts@, 0, fresh_item(), allow_inset) {
            Ok(rest) => {
                assert(items@ + rest =~= rest);
            },
            Err(_) => {},
        }
    }
    while i < parts.len()
        invariant
            i <= parts@.len(),
            scan_items(parts@, 0, fresh_item(), allow_inset) == after_items(
                items@,
                scan_items(parts@, i as int, ItemState { lengths: lengths@, color, inset, seen_color, seen_inset }, allow_inset),
            ),
        decreases parts@.len() - i,
    {
        let ghost st = ItemState { lengths: lengths@, color, inset, seen_color, seen_inset };
        match &parts[i] {
            ShadowPart::Color(c) => {
                let c = *c;
                if seen_color {
                    return Err(ShadowError::Unexpected);
                }
                color = c;
                seen_color = true;
            },
            ShadowPart::Length(l, negative) => {
                if lengths.len() >= 4 {
                    return Err(ShadowError::Unexpected);
                }
                lengths.push((*l, *negative));
            },
            ShadowPart::Ident(n) => {
                if !allow_inset || !matches_name(n.as_str(), "inset") || seen_inset {
                    return Err(ShadowError::Unexpected);
                }
                inset = true;
                seen_inset = true;
            },
            ShadowPart::Comma => {
                match finish_exec(&lengths, color, inset) {
                    Err(e) => {
                        return Err(e);
                    },
                    Ok(it) => {
                        let ghost before = items@;
                        items.push(it);
                        lengths = Vec::new();
                        color = None;
                        inset = false;
                        seen_color = false;
                        seen_inset = false;
                        proof {
                            assert(lengths@ =~= Seq::<(usize, bool)>::empty());
                            assert(finish_item(st) == Ok::<ShadowItem, ShadowError>(it));
                            match scan_items(parts@, i + 1, fresh_item(), allow_inset) {
                                Ok(rest) => {
                                    assert(before + (seq![it] + rest) =~= items@ + rest);
                                },
                                Err(_) => {},
                            }
                        }
                    },
                }
            },
            ShadowPart::Var => {
                return Err(ShadowError::VarFunction);
            },
            ShadowPart::Other => {
                return Err(ShadowError::Unexpected);
            },
        }
        i += 1;
    }
    match finish_exec(&lengths, color, inset) {
        Err(e) => Err(e),
        Ok(it) => {
            let ghost before = items@;
            items.push(it);
            proof {
                assert(before + seq![it] =~= items@);
            }
            Ok(items)
        },
    }
}

/// Whether a shadow list is the single keyword `none` (ignoring ASCII case).
pub open spec fn is_none_list(parts: Seq<ShadowPart>) -> bool {
    parts.len() == 1 && (parts[0] matches ShadowPart::Ident(n) && eq_ignore_ascii_case(n@, "none"@))
}

/// The value of a shadow list given as its components: the initial value (no shadow)
/// for the single keyword `none`, else the items that [`shadow_items`] reads.
pub fn shadow_list(parts: &[ShadowPart], allow_inset: bool) -> (r: Result<PropertyValue<Vec<ShadowItem>>, ShadowError>)
    ensures
        is_none_list(parts@) ==> r == Ok::<PropertyValue<Vec<ShadowItem>>, ShadowError>(PropertyValue::Initial),
        !is_none_list(parts@) ==> match r {
            Ok(v) => v matches PropertyValue::Exact(items) && scan_items(parts@, 0, fresh_item(), allow_inset) == Ok::<
                Seq<ShadowItem>,
                ShadowError,
            >(items@),
            Err(e) => scan_items(parts@, 0, fresh_item(), allow_inset) == Err::<Seq<ShadowItem>, ShadowError>(e),
        },
{
    if parts.len() == 1 {
        if let ShadowPart::Ident(n) = &parts[0] {
            if matches_name(n.as_str(), "none") {
                return Ok(PropertyValue::Initial);
            }
        }
    }
    match shadow_items(parts, allow_inset) {
        Ok(items) => Ok(PropertyValue::Exact(items)),
        Err(e) => Err(e),
    }
}

} // verus!
