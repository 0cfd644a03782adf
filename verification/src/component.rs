//! Style component values.
//!
//! An [`AnyComponent`] wraps one component value behind a uniform contract:
//! it reports its qualified [`Name`], its inheritance flag, and merges with
//! a peer according to its merge rule. The value is a tagged union, so a
//! merge between peers is an ordinary match and no runtime downcast exists;
//! a merge between values of different shapes keeps `self` unchanged.

use vstd::prelude::*;

use crate::names::{Name, NameModel};
use crate::text::{strictly_sorted, union_sorted};

verus! {

/// Optional measurements for the four sides of a rectangle; an unset side
/// means the surrounding context decides.
#[derive(Debug, Clone, Copy, PartialEq, Eq)]
pub struct Padding {
    /// The left side measurement, if set.
    pub left: Option<i64>,
    /// The right side measurement, if set.
    pub right: Option<i64>,
    /// The top side measurement, if set.
    pub top: Option<i64>,
    /// The bottom side measurement, if set.
    pub bottom: Option<i64>,
}

impl Padding {
    /// A padding with no side set.
    pub fn unset() -> (r: Padding)
        ensures
            r == (Padding { left: None, right: None, top: None, bottom: None }),
    {
        Padding { left: None, right: None, top: None, bottom: None }
    }
}

/// `a` with every unset side filled from `b`; sides already set in `a`
/// win.
pub open spec fn fill_unset(a: Padding, b: Padding) -> Padding {
    Padding {
        left: if a.left is Some {
            a.left
        } else {
            b.left
        },
        right: if a.right is Some {
            a.right
        } else {
            b.right
        },
        top: if a.top is Some {
            a.top
        } else {
            b.top
        },
        bottom: if a.bottom is Some {
            a.bottom
        } else {
            b.bottom
        },
    }
}

/// How a component combines with a same-shaped peer during a merge, with
/// `self` the store's own value and the peer the incoming one.
#[derive(Debug, Clone, Copy, PartialEq, Eq, Structural)]
pub enum MergeRule {
    /// Keep `self` unchanged; the incoming value is discarded.
    KeepSelf,
    /// Fill the sides that `self` leaves unset from the incoming padding.
    FillUnset,
    /// Replace the text list by the sorted, duplicate-free union of both
    /// lists.
    Union,
}

/// The payload of a component: one of a closed set of value shapes.
#[derive(Debug, PartialEq, Eq)]
pub enum ComponentValue {
    /// An integer value, such as a font size or a packed color.
    Int(i64),
    /// A single text value.
    Text(String),
    /// A list of text values.
    TextList(Vec<String>),
    /// Four optional side measurements.
    Sides(Padding),
    /// A marker value carrying no data.
    Unit,
}

/// The mathematical value of a [`ComponentValue`].
pub enum ValueModel {
    /// An integer value.
    Int(i64),
    /// A single text value.
    Text(Seq<char>),
    /// A list of text values.
    TextList(Seq<Seq<char>>),
    /// Four optional side measurements.
    Sides(Padding),
    /// A marker value carrying no data.
    Unit,
}

impl View for ComponentValue {
    type V = ValueModel;

    open spec fn view(&self) -> ValueModel {
        match self {
            ComponentValue::Int(x) => ValueModel::Int(*x),
            ComponentValue::Text(s) => ValueModel::Text(s@),
            ComponentValue::TextList(v) => ValueModel::TextList(v.deep_view()),
            ComponentValue::Sides(p) => ValueModel::Sides(*p),
            ComponentValue::Unit => ValueModel::Unit,
        }
    }
}

impl Clone for ComponentValue {
    /// Cloning preserves the mathematical value.
    fn clone(&self) -> (r: Self)
        ensures
            r@ == self@,
    {
        match self {
            ComponentValue::Int(x) => ComponentValue::Int(*x),
            ComponentValue::Text(s) => ComponentValue::Text(s.clone()),
            ComponentValue::TextList(v) => {
                let mut copy: Vec<String> = Vec::new();
                let mut i: usize = 0;
                while i < v.len()
                    invariant
                        0 <= i <= v.len(),
                        copy@.len() == i,
                        forall|j: int| 0 <= j < i ==> #[trigger] copy@[j]@ == v@[j]@,
                    decreases v.len() - i,
                {
                    copy.push(v[i].clone());
                    i = i + 1;
                }
                proof {
                    assert(copy.deep_view() =~= v.deep_view());
                }
                ComponentValue::TextList(copy)
            },
            ComponentValue::Sides(p) => ComponentValue::Sides(*p),
            ComponentValue::Unit => ComponentValue::Unit,
        }
    }
}

/// What merging `b` into `a` under `rule` yields. A rule that expects a
/// particular shape keeps `a` unchanged when either side has another
/// shape.
pub open spec fn merge_value(rule: MergeRule, a: ValueModel, b: ValueModel) -> ValueModel {
    match rule {
        MergeRule::KeepSelf => a,
        MergeRule::FillUnset => match (a, b) {
            (ValueModel::Sides(x), ValueModel::Sides(y)) => ValueModel::Sides(fill_unset(x, y)),
            _ => a,
        },
        MergeRule::Union => match (a, b) {
            (ValueModel::TextList(x), ValueModel::TextList(y)) => ValueModel::TextList(
                union_sorted(x, y),
            ),
            _ => a,
        },
    }
}

/// A merge of a value with itself returns the value, provided a `Union`
/// list is already sorted and duplicate-free. This is the sense in which
/// every rule is identity-preserving.
pub open spec fn self_merge_stable(rule: MergeRule, v: ValueModel) -> bool {
    match (rule, v) {
        (MergeRule::Union, ValueModel::TextList(x)) => strictly_sorted(x),
        _ => true,
    }
}

/// Merging a value with itself under its own rule yields the value back,
/// for every value that [`self_merge_stable`] admits.
pub proof fn lemma_merge_value_self(rule: MergeRule, v: ValueModel)
    requires
        self_merge_stable(rule, v),
    ensures
        merge_value(rule, v, v) == v,
{
    if rule is Union && v is TextList {
        crate::text::lemma_union_sorted_self(v->TextList_0);
    }
}

/// The mathematical value of an [`AnyComponent`].
pub struct ComponentModel {
    /// The component's qualified name.
    pub name: NameModel,
    /// Whether the component takes part in inheritance merges.
    pub inherited: bool,
    /// The component's merge rule.
    pub rule: MergeRule,
    /// The component's value.
    pub value: ValueModel,
}

/// One style component value behind the uniform capability contract:
/// report a [`Name`], report an inheritance flag, merge with a peer.
///
/// The name is fixed at construction; within a correctly built store equal
/// names imply equal shapes, so the store only ever merges same-shaped
/// peers.
#[derive(Debug)]
pub struct AnyComponent {
    name: Name,
    inherited: bool,
    rule: MergeRule,
    value: ComponentValue,
}

impl View for AnyComponent {
    type V = ComponentModel;

    closed spec fn view(&self) -> ComponentModel {
        ComponentModel {
            name: self.name@,
            inherited: self.inherited,
            rule: self.rule,
            value: self.value@,
        }
    }
}

impl AnyComponent {
    /// Returns a new component wrapping `value`, keyed by `name`.
    pub fn new(name: Name, inherited: bool, rule: MergeRule, value: ComponentValue) -> (r: Self)
        ensures
            r@ == (ComponentModel { name: name@, inherited, rule, value: value@ }),
    {
        AnyComponent { name, inherited, rule, value }
    }

    /// Returns the name of the component.
    pub fn name(&self) -> (r: &Name)
        ensures
            r@ == self@.name,
    {
        &self.name
    }

    /// Returns whether the component takes part in inheritance merges.
    pub fn inherited(&self) -> (r: bool)
        ensures
            r == self@.inherited,
    {
        self.inherited
    }

    /// Returns the component's merge rule.
    pub fn rule(&self) -> (r: MergeRule)
        ensures
            r == self@.rule,
    {
        self.rule
    }

    /// Returns the wrapped value.
    pub fn value(&self) -> (r: &ComponentValue)
        ensures
            r@ == self@.value,
    {
        &self.value
    }

    /// Returns a mutable reference to the wrapped value; the component's
    /// final state carries whatever value the caller leaves behind.
    pub fn value_mut(&mut self) -> (r: &mut ComponentValue)
        ensures
            (*r)@ == old(self)@.value,
            final(self)@ == (ComponentModel { value: (*final(r))@, ..old(self)@ }),
    {
        &mut self.value
    }

    /// Returns the integer value, or `None` when the component holds
    /// another shape.
    pub fn as_int(&self) -> (r: Option<i64>)
        ensures
            match self@.value {
                ValueModel::Int(x) => r == Some(x),
                _ => r is None,
            },
    {
        match &self.value {
            ComponentValue::Int(x) => Some(*x),
            _ => None,
        }
    }

    /// Returns the text value, or `None` when the component holds another
    /// shape.
    pub fn as_text(&self) -> (r: Option<&String>)
        ensures
            match self@.value {
                ValueModel::Text(s) => r is Some && r->0@ == s,
                _ => r is None,
            },
    {
        match &self.value {
            ComponentValue::Text(s) => Some(s),
            _ => None,
        }
    }

    /// Returns the text list, or `None` when the component holds another
    /// shape.
    pub fn as_text_list(&self) -> (r: Option<&Vec<String>>)
        ensures
            match self@.value {
                ValueModel::TextList(v) => r is Some && r->0.deep_view() == v,
                _ => r is None,
            },
    {
        match &self.value {
            ComponentValue::TextList(v) => Some(v),
            _ => None,
        }
    }

    /// Returns the padding value, or `None` when the component holds
    /// another shape.
    pub fn as_sides(&self) -> (r: Option<Padding>)
        ensures
            match self@.value {
                ValueModel::Sides(p) => r == Some(p),
                _ => r is None,
            },
    {
        match &self.value {
            ComponentValue::Sides(p) => Some(*p),
            _ => None,
        }
    }

    /// Merges `other` into `self` in place, following `self`'s merge rule.
    /// The name, the inheritance flag and the rule are unchanged; a peer of
    /// another shape leaves the value unchanged.
    pub fn merge_with(&mut self, other: &AnyComponent)
        ensures
            final(self)@ == (ComponentModel {
                value: merge_value(old(self)@.rule, old(self)@.value, other@.value),
                ..old(self)@
            }),
    {
        match self.rule {
            MergeRule::KeepSelf => {},
            MergeRule::FillUnset => {
                if let (ComponentValue::Sides(mine), ComponentValue::Sides(theirs)) = (
                    &self.value,
                    &other.value,
                ) {
                    let merged = Padding {
                        left: if mine.left.is_some() {
                            mine.left
                        } else {
                            theirs.left
                        },
                        right: if mine.right.is_some() {
                            mine.right
                        } else {
                            theirs.right
                        },
                        top: if mine.top.is_some() {
                            mine.top
                        } else {
                            theirs.top
                        },
                        bottom: if mine.bottom.is_some() {
                            mine.bottom
                        } else {
                            theirs.bottom
                        },
                    };
                    self.value = ComponentValue::Sides(merged);
                }
            },
            MergeRule::Union => {
                if let (ComponentValue::TextList(mine), ComponentValue::TextList(theirs)) = (
                    &self.value,
                    &other.value,
                ) {
                    let merged = crate::text::union_text_lists(mine, theirs);
                    self.value = ComponentValue::TextList(merged);
                }
            },
        }
    }

    /// Merges `other` into `self` and returns the result.
    pub fn merged_with(self, other: &AnyComponent) -> (r: Self)
        ensures
            r@ == (ComponentModel {
                value: merge_value(self@.rule, self@.value, other@.value),
                ..self@
            }),
    {
        let mut merged = self;
        merged.merge_with(other);
        merged
    }
}

impl Clone for AnyComponent {
    /// Cloning yields an independent component with the same mathematical
    /// value.
    fn clone(&self) -> (r: Self)
        ensures
            r@ == self@,
    {
        AnyComponent {
            name: self.name.clone(),
            inherited: self.inherited,
            rule: self.rule,
            value: self.value.clone(),
        }
    }
}

} // verus!
