//! A typed, heterogeneous attribute store for building styling systems.
//!
//! The crate provides an interning scheme for identifier text, qualified
//! [`Name`]s built from interned identifiers, a uniform wrapper for style
//! component values ([`AnyComponent`]), and a sorted store with two
//! composition operators: an unconditional override merge and a selective
//! inheritance merge.

pub mod component;
pub mod components;
pub mod ident;
pub mod interner;
pub mod names;
pub mod object;
pub mod style;
pub mod style_sheet;
pub mod text;

pub use component::{AnyComponent, ComponentValue, MergeRule, Padding};
pub use components::{
    font_size, not_inheritable, padding, text_color, Alignment, FontFamily, FontStyle,
    SystemTheme, VerticalAlignment, Weight,
};
pub use ident::{pascal_case_to_snake_case, validate_identifier, InvalidIdentifier};
pub use interner::{Identifier, Interner};
pub use names::Name;
pub use object::{MergeFilter, Object};
pub use style::Style;
pub use style_sheet::{
    check_one_state, classes, element_id, Classes, Id, Rule, Selector, State, StyleSheet,
};
