//! Concrete style component types and canonical component builders.
//!
//! The enums here are plain attribute values; the builder functions wrap
//! them (or raw integers) into [`AnyComponent`]s under their canonical
//! names, inheritance flags and merge rules.

use vstd::prelude::*;

use crate::component::{AnyComponent, ComponentValue, MergeRule, Padding, ValueModel};
use crate::ident::is_valid_ident;
use crate::interner::Interner;
use crate::names::{name_model_valid, Name};

verus! {

/// Horizontal alignment of content.
#[derive(Clone, Copy, Debug, PartialEq, Eq)]
pub enum Alignment {
    /// Align to the left edge.
    Left,
    /// Center horizontally.
    Center,
    /// Align to the right edge.
    Right,
}

impl Default for Alignment {
    /// The default alignment is left.
    fn default() -> (r: Self)
        ensures
            r == Alignment::Left,
    {
        Alignment::Left
    }
}

/// Vertical alignment of content.
#[derive(Clone, Copy, Debug, PartialEq, Eq)]
pub enum VerticalAlignment {
    /// Align to the top edge.
    Top,
    /// Center vertically.
    Center,
    /// Align to the bottom edge.
    Bottom,
}

impl Default for VerticalAlignment {
    /// The default vertical alignment is top.
    fn default() -> (r: Self)
        ensures
            r == VerticalAlignment::Top,
    {
        VerticalAlignment::Top
    }
}

/// The slant of a font face.
#[derive(Clone, Copy, Debug, PartialEq, Eq)]
pub enum FontStyle {
    /// An upright face.
    Regular,
    /// An italic face.
    Italic,
    /// An obliqued face.
    Oblique,
}

impl Default for FontStyle {
    /// The default font style is regular.
    fn default() -> (r: Self)
        ensures
            r == FontStyle::Regular,
    {
        FontStyle::Regular
    }
}

/// The theme variant for the system.
#[derive(Clone, Copy, Debug, PartialEq, Eq)]
pub enum SystemTheme {
    /// A light theme.
    Light,
    /// A dark theme.
    Dark,
}

impl Default for SystemTheme {
    /// The default theme is light.
    fn default() -> (r: Self)
        ensures
            r == SystemTheme::Light,
    {
        SystemTheme::Light
    }
}

/// A font family name.
#[derive(Debug, PartialEq, Eq)]
pub struct FontFamily(pub String);

impl Default for FontFamily {
    /// The default font family is Roboto.
    fn default() -> (r: Self)
        ensures
            r.0@ == "Roboto"@,
    {
        FontFamily(String::from_str("Roboto"))
    }
}

impl Clone for FontFamily {
    /// Cloning preserves the family name.
    fn clone(&self) -> (r: Self)
        ensures
            r == *self,
    {
        FontFamily(self.0.clone())
    }
}

/// The weight, or boldness, of a font face.
#[derive(Clone, Copy, Debug, PartialEq)]
pub enum Weight {
    /// Thin, the lightest standard weight class.
    Thin,
    /// Extra light.
    ExtraLight,
    /// Light.
    Light,
    /// Normal, the regular weight class.
    Normal,
    /// Medium.
    Medium,
    /// Semi bold.
    SemiBold,
    /// Bold.
    Bold,
    /// Extra bold.
    ExtraBold,
    /// Black, the heaviest standard weight class.
    Black,
    /// A custom weight class.
    Other(u16),
}

impl Default for Weight {
    /// The default weight is normal.
    fn default() -> (r: Self)
        ensures
            r == Weight::Normal,
    {
        Weight::Normal
    }
}

impl Weight {
    /// The numeric weight class this weight stands for.
    pub open spec fn spec_number(self) -> u16 {
        match self {
            Weight::Thin => 100,
            Weight::ExtraLight => 200,
            Weight::Light => 300,
            Weight::Normal => 400,
            Weight::Medium => 500,
            Weight::SemiBold => 600,
            Weight::Bold => 700,
            Weight::ExtraBold => 800,
            Weight::Black => 900,
            Weight::Other(n) => n,
        }
    }

    /// Returns the numeric weight class: 100 for thin up to 900 for
    /// black, or the custom value.
    pub fn to_number(self) -> (r: u16)
        ensures
            r == self.spec_number(),
    {
        match self {
            Weight::Thin => 100,
            Weight::ExtraLight => 200,
            Weight::Light => 300,
            Weight::Normal => 400,
            Weight::Medium => 500,
            Weight::SemiBold => 600,
            Weight::Bold => 700,
            Weight::ExtraBold => 800,
            Weight::Black => 900,
            Weight::Other(n) => n,
        }
    }
}

/// Returns a font size component: a private `font_size` name, the
/// inheritance flag set, the keep-self merge rule.
pub fn font_size(interner: &mut Interner, value: i64) -> (r: AnyComponent)
    requires
        old(interner).wf(),
    ensures
        final(interner).wf(),
        old(interner)@.is_prefix_of(final(interner)@),
        r@.name.authority.text == seq!['_'],
        r@.name.name.text == "font_size"@,
        name_model_valid(r@.name, final(interner)@),
        r@.inherited == true,
        r@.rule == MergeRule::KeepSelf,
        r@.value == ValueModel::Int(value),
{
    proof {
        reveal_strlit("font_size");
        assert(is_valid_ident("font_size"@));
    }
    let name = match Name::private(interner, "font_size") {
        Ok(n) => n,
        Err(_) => unreached(),
    };
    AnyComponent::new(name, true, MergeRule::KeepSelf, ComponentValue::Int(value))
}

/// Returns a text color component holding a packed color value: a private
/// `text_color` name, the inheritance flag set, the keep-self merge rule.
pub fn text_color(interner: &mut Interner, value: i64) -> (r: AnyComponent)
    requires
        old(interner).wf(),
    ensures
        final(interner).wf(),
        old(interner)@.is_prefix_of(final(interner)@),
        r@.name.authority.text == seq!['_'],
        r@.name.name.text == "text_color"@,
        name_model_valid(r@.name, final(interner)@),
        r@.inherited == true,
        r@.rule == MergeRule::KeepSelf,
        r@.value == ValueModel::Int(value),
{
    proof {
        reveal_strlit("text_color");
        assert(is_valid_ident("text_color"@));
    }
    let name = match Name::private(interner, "text_color") {
        Ok(n) => n,
        Err(_) => unreached(),
    };
    AnyComponent::new(name, true, MergeRule::KeepSelf, ComponentValue::Int(value))
}

/// Returns a padding component: a `padding` name under the `gooey`
/// authority, not inherited, with the fill-unset merge rule, so merging
/// only fills sides the component leaves unset.
pub fn padding(interner: &mut Interner, sides: Padding) -> (r: AnyComponent)
    requires
        old(interner).wf(),
    ensures
        final(interner).wf(),
        old(interner)@.is_prefix_of(final(interner)@),
        r@.name.authority.text == "gooey"@,
        r@.name.name.text == "padding"@,
        name_model_valid(r@.name, final(interner)@),
        r@.inherited == false,
        r@.rule == MergeRule::FillUnset,
        r@.value == ValueModel::Sides(sides),
{
    proof {
        reveal_strlit("gooey");
        reveal_strlit("padding");
        assert(is_valid_ident("gooey"@));
        assert(is_valid_ident("padding"@));
    }
    let name = match Name::new(interner, "gooey", "padding") {
        Ok(n) => n,
        Err(_) => unreached(),
    };
    AnyComponent::new(name, false, MergeRule::FillUnset, ComponentValue::Sides(sides))
}

/// Returns a marker component that takes no part in inheritance merges: a
/// private `not_inheritable` name, no data, the keep-self merge rule.
pub fn not_inheritable(interner: &mut Interner) -> (r: AnyComponent)
    requires
        old(interner).wf(),
    ensures
        final(interner).wf(),
        old(interner)@.is_prefix_of(final(interner)@),
        r@.name.authority.text == seq!['_'],
        r@.name.name.text == "not_inheritable"@,
        name_model_valid(r@.name, final(interner)@),
        r@.inherited == false,
        r@.rule == MergeRule::KeepSelf,
        r@.value == ValueModel::Unit,
{
    proof {
        reveal_strlit("not_inheritable");
        assert(is_valid_ident("not_inheritable"@));
    }
    let name = match Name::private(interner, "not_inheritable") {
        Ok(n) => n,
        Err(_) => unreached(),
    };
    AnyComponent::new(name, false, MergeRule::KeepSelf, ComponentValue::Unit)
}

} // verus!
