//! Types related to styling the UI tree: selector parsing and matching,
//! rule indexes, CSS variable scopes and computed style enums.

pub mod declarations;
pub mod filter;
pub mod matching;
pub mod parser;
pub mod passes;
pub mod prelude;
pub mod properties;
pub mod property_name;
pub mod rules;
pub mod selector;
pub mod shadow;
pub mod style;
pub mod tokens;
pub mod traversal;
pub mod tree;
pub mod variables;
pub mod walk;

use vstd::prelude::*;

verus! {

/// Style flag: the node's style depends on `:hover`.
pub const HOVER_DIRTY: u8 = 1;

/// Style flag: the node's style depends on `:focus`.
pub const FOCUS_DIRTY: u8 = 2;

/// Style flag: the node's style depends on `:active`.
pub const ACTIVE_DIRTY: u8 = 4;

/// Style flag: the node's style depends on `:enabled` or `:disabled`.
pub const ENABLED_DIRTY: u8 = 8;

} // verus!
