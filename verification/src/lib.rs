//! Core logic of the Rosin UI toolkit: pointer input sets, node identifiers,
//! string interning, generational handles and CSS selector machinery.

pub mod callbacks;
pub mod css;
pub mod events;
pub mod grc;
pub mod hasher;
pub mod interner;
pub mod key;
pub mod localization;
pub mod nodeid;
pub mod number;
pub mod parser;
pub mod pointer;
pub mod reactive;
pub mod scope;
pub mod sheet;
pub mod style;
pub mod stylesheet;
