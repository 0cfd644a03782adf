//! Selector data for style rules.
//!
//! A [`Rule`] carries a [`Selector`] (an id or a list of classes), three
//! optional interaction-state conditions and a [`Style`] to apply. Whether
//! a rule applies to a [`State`] is decided by the first condition that is
//! present.

use vstd::prelude::*;

use crate::component::{AnyComponent, ComponentValue, MergeRule, ValueModel};
use crate::ident::is_valid_ident;
use crate::interner::Interner;
use crate::names::{name_model_valid, storage_key, Name, NameModel};
use crate::object::{lookup, spec_merge, EntryModel, MergeFilter};
use crate::style::Style;
use crate::text::{str_eq, union_sorted, union_text_lists};

verus! {

/// A unique element id.
#[derive(Debug, PartialEq, Eq, Hash)]
pub struct Id(pub String);

impl Clone for Id {
    /// Cloning preserves the id text.
    fn clone(&self) -> (r: Self)
        ensures
            r == *self,
    {
        Id(self.0.clone())
    }
}

/// A list of class names.
#[derive(Debug, PartialEq, Eq)]
pub struct Classes(pub Vec<String>);

impl Classes {
    /// Returns the classes of `self` combined with those of `other`: the
    /// sorted, duplicate-free union of the two lists.
    pub fn merge(&self, other: &Classes) -> (r: Classes)
        ensures
            r.0.deep_view() == union_sorted(self.0.deep_view(), other.0.deep_view()),
    {
        Classes(union_text_lists(&self.0, &other.0))
    }
}

impl Clone for Classes {
    /// Cloning preserves the class names.
    fn clone(&self) -> (r: Self)
        ensures
            r.0.deep_view() == self.0.deep_view(),
    {
        let mut copy: Vec<String> = Vec::new();
        let mut i: usize = 0;
        while i < self.0.len()
            invariant
                0 <= i <= self.0.len(),
                copy@.len() == i,
                forall|j: int| 0 <= j < i ==> (#[trigger] copy@[j])@ == self.0@[j]@,
            decreases self.0.len() - i,
        {
            copy.push(self.0[i].clone());
            i = i + 1;
        }
        proof {
            assert(copy.deep_view() =~= self.0.deep_view());
        }
        Classes(copy)
    }
}

/// A filter deciding which elements a rule applies to.
#[derive(Debug)]
pub enum Selector {
    /// Matches an element whose id equals the contained value.
    Id(Id),
    /// Matches an element whose class list shares at least one name with
    /// the contained value.
    Classes(Classes),
}

impl Clone for Selector {
    /// Cloning preserves the selector's contents.
    fn clone(&self) -> (r: Self)
        ensures
            match (self, &r) {
                (Selector::Id(a), Selector::Id(b)) => a == b,
                (Selector::Classes(a), Selector::Classes(b)) => a.0.deep_view()
                    == b.0.deep_view(),
                _ => false,
            },
    {
        match self {
            Selector::Id(id) => Selector::Id(id.clone()),
            Selector::Classes(classes) => Selector::Classes(classes.clone()),
        }
    }
}

/// An element's interaction state.
#[derive(Debug, Clone, Copy, PartialEq, Eq, Structural, Default)]
pub struct State {
    /// Whether the element is hovered.
    pub hovered: bool,
    /// Whether the element is focused.
    pub focused: bool,
    /// Whether the element is active, such as a button being pressed.
    pub active: bool,
}

/// What one optional condition says about one state flag: nothing when
/// the condition is absent, otherwise whether the flag matches it.
pub open spec fn spec_check_one(condition: Option<bool>, state: bool) -> Option<bool> {
    match condition {
        Some(c) => Some(c == state),
        None => None,
    }
}

/// Checks one optional condition against one state flag.
pub fn check_one_state(condition: Option<bool>, state: bool) -> (r: Option<bool>)
    ensures
        r == spec_check_one(condition, state),
{
    match condition {
        Some(c) => Some(c == state),
        None => None,
    }
}

/// Whether a rule with the given conditions applies to `state`: the first
/// condition present decides; a rule with no conditions always applies.
pub open spec fn rule_applies(
    hovered: Option<bool>,
    focused: Option<bool>,
    active: Option<bool>,
    state: State,
) -> bool {
    match spec_check_one(hovered, state.hovered) {
        Some(b) => b,
        None => match spec_check_one(focused, state.focused) {
            Some(b) => b,
            None => match spec_check_one(active, state.active) {
                Some(b) => b,
                None => true,
            },
        },
    }
}

/// A style rule: a selector, optional interaction-state conditions, and
/// the style applied when they are met.
#[derive(Debug)]
pub struct Rule {
    /// Selects elements by id or classes.
    pub selector: Selector,
    /// If present, the rule applies only when the element's hovered flag
    /// matches.
    pub hovered: Option<bool>,
    /// If present, the rule applies only when the element's focused flag
    /// matches.
    pub focused: Option<bool>,
    /// If present, the rule applies only when the element's active flag
    /// matches.
    pub active: Option<bool>,
    /// The style to apply when the conditions are met.
    pub style: Style,
}

impl Rule {
    /// Returns a rule with no conditions and an empty style that selects
    /// elements by `id`.
    pub fn for_id(id: Id) -> (r: Self)
        ensures
            r.selector == Selector::Id(id),
            r.hovered is None,
            r.focused is None,
            r.active is None,
            r.style.inv(),
            r.style.entries().len() == 0,
    {
        Rule {
            selector: Selector::Id(id),
            hovered: None,
            focused: None,
            active: None,
            style: Style::new(),
        }
    }

    /// Returns a rule with no conditions and an empty style that selects
    /// elements by `classes`.
    pub fn for_classes(classes: Classes) -> (r: Self)
        ensures
            r.selector == Selector::Classes(classes),
            r.hovered is None,
            r.focused is None,
            r.active is None,
            r.style.inv(),
            r.style.entries().len() == 0,
    {
        Rule {
            selector: Selector::Classes(classes),
            hovered: None,
            focused: None,
            active: None,
            style: Style::new(),
        }
    }

    /// Returns the rule restricted to hovered elements.
    pub fn when_hovered(self) -> (r: Self)
        ensures
            r == (Rule { hovered: Some(true), ..self }),
    {
        Rule { hovered: Some(true), ..self }
    }

    /// Returns the rule restricted to elements not hovered.
    pub fn when_not_hovered(self) -> (r: Self)
        ensures
            r == (Rule { hovered: Some(false), ..self }),
    {
        Rule { hovered: Some(false), ..self }
    }

    /// Returns the rule restricted to focused elements.
    pub fn when_focused(self) -> (r: Self)
        ensures
            r == (Rule { focused: Some(true), ..self }),
    {
        Rule { focused: Some(true), ..self }
    }

    /// Returns the rule restricted to elements not focused.
    pub fn when_not_focused(self) -> (r: Self)
        ensures
            r == (Rule { focused: Some(false), ..self }),
    {
        Rule { focused: Some(false), ..self }
    }

    /// Returns the rule restricted to active elements.
    pub fn when_active(self) -> (r: Self)
        ensures
            r == (Rule { active: Some(true), ..self }),
    {
        Rule { active: Some(true), ..self }
    }

    /// Returns the rule restricted to elements not active.
    pub fn when_not_active(self) -> (r: Self)
        ensures
            r == (Rule { active: Some(false), ..self }),
    {
        Rule { active: Some(false), ..self }
    }

    /// Returns the rule with its style replaced by `style`.
    pub fn with_style(self, style: Style) -> (r: Self)
        ensures
            r == (Rule { style, ..self }),
    {
        Rule { style, ..self }
    }

    /// Returns whether the rule applies to `state`: the first condition
    /// present decides; a rule without conditions always applies.
    pub fn applies(&self, state: &State) -> (r: bool)
        ensures
            r == rule_applies(self.hovered, self.focused, self.active, *state),
    {
        match check_one_state(self.hovered, state.hovered) {
            Some(b) => b,
            None => match check_one_state(self.focused, state.focused) {
                Some(b) => b,
                None => match check_one_state(self.active, state.active) {
                    Some(b) => b,
                    None => true,
                },
            },
        }
    }
}

/// The mathematical value of a [`Selector`]: the id text or the class
/// texts it matches on.
pub enum SelectorModel {
    /// Matches by id text.
    Id(Seq<char>),
    /// Matches by class texts.
    Classes(Seq<Seq<char>>),
}

impl View for Selector {
    type V = SelectorModel;

    open spec fn view(&self) -> SelectorModel {
        match self {
            Selector::Id(id) => SelectorModel::Id(id.0@),
            Selector::Classes(classes) => SelectorModel::Classes(classes.0.deep_view()),
        }
    }
}

/// The mathematical value of a [`Rule`]: its selector, its conditions and
/// the entries of its style.
pub struct RuleModel {
    /// The selector.
    pub selector: SelectorModel,
    /// The hovered condition, if present.
    pub hovered: Option<bool>,
    /// The focused condition, if present.
    pub focused: Option<bool>,
    /// The active condition, if present.
    pub active: Option<bool>,
    /// The entries of the style the rule applies.
    pub style: Seq<crate::object::EntryModel>,
}

impl View for Rule {
    type V = RuleModel;

    open spec fn view(&self) -> RuleModel {
        RuleModel {
            selector: self.selector@,
            hovered: self.hovered,
            focused: self.focused,
            active: self.active,
            style: self.style.entries(),
        }
    }
}

impl Clone for Rule {
    /// Cloning preserves the rule's mathematical value; the style inside
    /// is deep-copied.
    fn clone(&self) -> (r: Self)
        ensures
            self.style.inv() ==> r@ == self@ && r.style.inv(),
    {
        Rule {
            selector: self.selector.clone(),
            hovered: self.hovered,
            focused: self.focused,
            active: self.active,
            style: self.style.clone(),
        }
    }
}

/// The id text an element presents, read from the component stored under
/// the id name: present only when that component holds a single text.
pub open spec fn style_id_text(es: Seq<EntryModel>, id_key: (int, int)) -> Option<Seq<char>> {
    match lookup(es, id_key) {
        Some(c) => match c.value {
            ValueModel::Text(t) => Some(t),
            _ => None,
        },
        None => None,
    }
}

/// The class texts an element presents, read from the component stored
/// under the classes name: present only when that component holds a text
/// list.
pub open spec fn style_class_texts(es: Seq<EntryModel>, classes_key: (int, int)) -> Option<
    Seq<Seq<char>>,
> {
    match lookup(es, classes_key) {
        Some(c) => match c.value {
            ValueModel::TextList(l) => Some(l),
            _ => None,
        },
        None => None,
    }
}

/// Whether a selector matches an element with entries `es`: an id
/// selector matches the element's exact id text; a classes selector
/// matches when the element's class list shares at least one text with
/// the selector's.
pub open spec fn selector_matches(
    sel: SelectorModel,
    es: Seq<EntryModel>,
    id_key: (int, int),
    classes_key: (int, int),
) -> bool {
    match sel {
        SelectorModel::Id(t) => style_id_text(es, id_key) == Some(t),
        SelectorModel::Classes(cs) => match style_class_texts(es, classes_key) {
            Some(have) => exists|i: int, j: int|
                0 <= i < cs.len() && 0 <= j < have.len() && cs[i] == have[j],
            None => false,
        },
    }
}

/// Whether a rule takes effect for an element: its selector matches the
/// element's original entries and its conditions accept the state.
pub open spec fn rule_takes_effect(
    r: RuleModel,
    orig: Seq<EntryModel>,
    state: State,
    id_key: (int, int),
    classes_key: (int, int),
) -> bool {
    selector_matches(r.selector, orig, id_key, classes_key) && rule_applies(
        r.hovered,
        r.focused,
        r.active,
        state,
    )
}

/// The entries after applying the first `i` rules to `acc`, in
/// descending order, so that rules pushed later take effect first and
/// their values prevail. Matching always reads the element's original
/// entries `orig`.
pub open spec fn apply_rules(
    orig: Seq<EntryModel>,
    acc: Seq<EntryModel>,
    rules: Seq<RuleModel>,
    i: int,
    state: State,
    id_key: (int, int),
    classes_key: (int, int),
) -> Seq<EntryModel>
    decreases i,
{
    if i <= 0 {
        acc
    } else {
        let stepped = if rule_takes_effect(rules[i - 1], orig, state, id_key, classes_key) {
            spec_merge(acc, rules[i - 1].style, MergeFilter::All)
        } else {
            acc
        };
        apply_rules(orig, stepped, rules, i - 1, state, id_key, classes_key)
    }
}

/// Returns whether the two lists share at least one text.
fn share_text(a: &Vec<String>, b: &Vec<String>) -> (r: bool)
    ensures
        r == exists|i: int, j: int|
            0 <= i < a.deep_view().len() && 0 <= j < b.deep_view().len() && a.deep_view()[i]
                == b.deep_view()[j],
{
    let mut i: usize = 0;
    while i < a.len()
        invariant
            0 <= i <= a@.len(),
            forall|x: int, y: int|
                0 <= x < i && 0 <= y < b.deep_view().len() ==> a.deep_view()[x] != b.deep_view()[y],
        decreases a@.len() - i,
    {
        let mut j: usize = 0;
        while j < b.len()
            invariant
                0 <= i < a@.len(),
                0 <= j <= b@.len(),
                forall|y: int| 0 <= y < j ==> a.deep_view()[i as int] != b.deep_view()[y],
        decreases b@.len() - j,
        {
            if str_eq(a[i].as_str(), b[j].as_str()) {
                proof {
                    assert(a.deep_view()[i as int] == b.deep_view()[j as int]);
                }
                return true;
            }
            j = j + 1;
        }
        i = i + 1;
    }
    false
}

/// A set of style rules, together with the component names it reads an
/// element's id and classes from.
#[derive(Debug)]
pub struct StyleSheet {
    rules: Vec<Rule>,
    id_name: Name,
    classes_name: Name,
}

impl StyleSheet {
    /// The rules in the order they were pushed.
    pub closed spec fn rules_model(&self) -> Seq<RuleModel> {
        Seq::new(self.rules.len() as nat, |i: int| self.rules[i]@)
    }

    /// The name the sheet reads an element's id from.
    pub closed spec fn id_name_model(&self) -> NameModel {
        self.id_name@
    }

    /// The name the sheet reads an element's classes from.
    pub closed spec fn classes_name_model(&self) -> NameModel {
        self.classes_name@
    }

    /// The storage key of the id name.
    pub open spec fn id_key(&self) -> (int, int) {
        storage_key(self.id_name_model())
    }

    /// The storage key of the classes name.
    pub open spec fn classes_key(&self) -> (int, int) {
        storage_key(self.classes_name_model())
    }

    /// Every rule's style is well formed.
    pub closed spec fn inv(&self) -> bool {
        forall|i: int| 0 <= i < self.rules.len() ==> (#[trigger] self.rules[i]).style.inv()
    }

    /// Returns an empty sheet that matches elements on the private `id`
    /// and `classes` component names.
    pub fn new(interner: &mut Interner) -> (r: StyleSheet)
        requires
            old(interner).wf(),
        ensures
            final(interner).wf(),
            old(interner)@.is_prefix_of(final(interner)@),
            r.inv(),
            r.rules_model() == Seq::<RuleModel>::empty(),
            r.id_name_model().authority.text == seq!['_'],
            r.id_name_model().name.text == "id"@,
            name_model_valid(r.id_name_model(), final(interner)@),
            r.classes_name_model().authority.text == seq!['_'],
            r.classes_name_model().name.text == "classes"@,
            name_model_valid(r.classes_name_model(), final(interner)@),
    {
        proof {
            reveal_strlit("id");
            reveal_strlit("classes");
            assert(is_valid_ident("id"@));
            assert(is_valid_ident("classes"@));
        }
        let id_name = match Name::private(interner, "id") {
            Ok(n) => n,
            Err(_) => unreached(),
        };
        let classes_name = match Name::private(interner, "classes") {
            Ok(n) => n,
            Err(_) => unreached(),
        };
        let r = StyleSheet { rules: Vec::new(), id_name, classes_name };
        proof {
            assert(r.rules_model() =~= Seq::<RuleModel>::empty());
        }
        r
    }

    /// Pushes `rule` into the sheet. Rules pushed later take effect
    /// before rules pushed earlier, so their values prevail.
    pub fn push(&mut self, rule: Rule)
        requires
            old(self).inv(),
            rule.style.inv(),
        ensures
            final(self).inv(),
            final(self).rules_model() == old(self).rules_model().push(rule@),
            final(self).id_name_model() == old(self).id_name_model(),
            final(self).classes_name_model() == old(self).classes_name_model(),
    {
        self.rules.push(rule);
        proof {
            assert(self.rules_model() =~= old(self).rules_model().push(rule@));
        }
    }

    /// Pushes `rule` and returns the sheet.
    pub fn with(self, rule: Rule) -> (r: Self)
        requires
            self.inv(),
            rule.style.inv(),
        ensures
            r.inv(),
            r.rules_model() == self.rules_model().push(rule@),
            r.id_name_model() == self.id_name_model(),
            r.classes_name_model() == self.classes_name_model(),
    {
        let mut sheet = self;
        sheet.push(rule);
        sheet
    }

    /// Returns a sheet holding `other`'s rules followed by `self`'s, so
    /// that `self`'s rules are preferred to `other`'s. The combined sheet
    /// matches on `self`'s id and classes names.
    pub fn merge_with(&self, other: &StyleSheet) -> (r: StyleSheet)
        requires
            self.inv(),
            other.inv(),
        ensures
            r.inv(),
            r.rules_model() == other.rules_model() + self.rules_model(),
            r.id_name_model() == self.id_name_model(),
            r.classes_name_model() == self.classes_name_model(),
    {
        let mut rules: Vec<Rule> = Vec::new();
        let mut i: usize = 0;
        while i < other.rules.len()
            invariant
                other.inv(),
                0 <= i <= other.rules@.len(),
                rules@.len() == i,
                forall|j: int|
                    0 <= j < i ==> (#[trigger] rules@[j])@ == other.rules_model()[j]
                        && rules@[j].style.inv(),
            decreases other.rules@.len() - i,
        {
            proof {
                assert(other.rules_model()[i as int] == other.rules@[i as int]@);
            }
            rules.push(other.rules[i].clone());
            i = i + 1;
        }
        let mut i: usize = 0;
        while i < self.rules.len()
            invariant
                self.inv(),
                other.inv(),
                0 <= i <= self.rules@.len(),
                rules@.len() == other.rules@.len() + i,
                forall|j: int|
                    0 <= j < other.rules@.len() ==> (#[trigger] rules@[j])@
                        == other.rules_model()[j] && rules@[j].style.inv(),
                forall|j: int|
                    other.rules@.len() <= j < rules@.len() ==> (#[trigger] rules@[j])@
                        == self.rules_model()[j - other.rules@.len()] && rules@[j].style.inv(),
            decreases self.rules@.len() - i,
        {
            proof {
                assert(self.rules_model()[i as int] == self.rules@[i as int]@);
            }
            rules.push(self.rules[i].clone());
            i = i + 1;
        }
        let r = StyleSheet {
            rules,
            id_name: self.id_name.clone(),
            classes_name: self.classes_name.clone(),
        };
        proof {
            assert(r.rules_model() =~= other.rules_model() + self.rules_model());
        }
        r
    }

    /// Applies the sheet to `style`: every rule whose selector matches
    /// the style's own id or classes components and whose conditions
    /// accept `state` merges its style in, later-pushed rules first, so
    /// the components given in `style` itself always prevail.
    pub fn effective_style_for(&self, style: Style, state: &State) -> (r: Style)
        requires
            self.inv(),
            style.inv(),
        ensures
            r.inv(),
            r.entries() == apply_rules(
                style.entries(),
                style.entries(),
                self.rules_model(),
                self.rules_model().len() as int,
                *state,
                self.id_key(),
                self.classes_key(),
            ),
    {
        let ghost orig = style.entries();
        let id_text: Option<String> = match style.get_by_name(&self.id_name) {
            Some(c) => match c.as_text() {
                Some(s) => Some(s.clone()),
                None => None,
            },
            None => None,
        };
        let class_texts: Option<Vec<String>> = match style.get_by_name(&self.classes_name) {
            Some(c) => match c.as_text_list() {
                Some(l) => {
                    let mut copy: Vec<String> = Vec::new();
                    let mut i: usize = 0;
                    while i < l.len()
                        invariant
                            0 <= i <= l@.len(),
                            copy@.len() == i,
                            forall|j: int| 0 <= j < i ==> (#[trigger] copy@[j])@ == l@[j]@,
                        decreases l@.len() - i,
                    {
                        copy.push(l[i].clone());
                        i = i + 1;
                    }
                    proof {
                        assert(copy.deep_view() =~= l.deep_view());
                    }
                    Some(copy)
                },
                None => None,
            },
            None => None,
        };
        proof {
            match style_id_text(orig, self.id_key()) {
                Some(t) => {
                    assert(id_text is Some && id_text->0@ == t);
                },
                None => {
                    assert(id_text is None);
                },
            }
            match style_class_texts(orig, self.classes_key()) {
                Some(l) => {
                    assert(class_texts is Some && class_texts->0.deep_view() == l);
                },
                None => {
                    assert(class_texts is None);
                },
            }
        }
        let mut acc = style;
        let mut i = self.rules.len();
        while i > 0
            invariant
                self.inv(),
                acc.inv(),
                0 <= i <= self.rules@.len(),
                match style_id_text(orig, self.id_key()) {
                    Some(t) => id_text is Some && id_text->0@ == t,
                    None => id_text is None,
                },
                match style_class_texts(orig, self.classes_key()) {
                    Some(l) => class_texts is Some && class_texts->0.deep_view() == l,
                    None => class_texts is None,
                },
                apply_rules(
                    orig,
                    orig,
                    self.rules_model(),
                    self.rules_model().len() as int,
                    *state,
                    self.id_key(),
                    self.classes_key(),
                ) == apply_rules(
                    orig,
                    acc.entries(),
                    self.rules_model(),
                    i as int,
                    *state,
                    self.id_key(),
                    self.classes_key(),
                ),
            decreases i,
        {
            i = i - 1;
            let ghost prev = acc.entries();
            let rule = &self.rules[i];
            proof {
                assert(self.rules_model()[i as int] == rule@);
            }
            let matched = match &rule.selector {
                Selector::Id(id) => match &id_text {
                    Some(t) => str_eq(id.0.as_str(), t.as_str()),
                    None => false,
                },
                Selector::Classes(cs) => match &class_texts {
                    Some(have) => share_text(&cs.0, have),
                    None => false,
                },
            };
            proof {
                assert(matched == selector_matches(
                    rule@.selector,
                    orig,
                    self.id_key(),
                    self.classes_key(),
                ));
            }
            if matched && rule.applies(state) {
                acc = acc.merged_with(&rule.style);
            }
            proof {
                assert(apply_rules(
                    orig,
                    prev,
                    self.rules_model(),
                    i + 1,
                    *state,
                    self.id_key(),
                    self.classes_key(),
                ) == apply_rules(
                    orig,
                    acc.entries(),
                    self.rules_model(),
                    i as int,
                    *state,
                    self.id_key(),
                    self.classes_key(),
                ));
            }
        }
        acc
    }
}

/// Returns an element id component: a private `id` name, not inherited,
/// the keep-self merge rule, holding the id text.
pub fn element_id(interner: &mut Interner, value: String) -> (r: AnyComponent)
    requires
        old(interner).wf(),
    ensures
        final(interner).wf(),
        old(interner)@.is_prefix_of(final(interner)@),
        r@.name.authority.text == seq!['_'],
        r@.name.name.text == "id"@,
        name_model_valid(r@.name, final(interner)@),
        r@.inherited == false,
        r@.rule == MergeRule::KeepSelf,
        r@.value == ValueModel::Text(value@),
{
    proof {
        reveal_strlit("id");
        assert(is_valid_ident("id"@));
    }
    let name = match Name::private(interner, "id") {
        Ok(n) => n,
        Err(_) => unreached(),
    };
    AnyComponent::new(name, false, MergeRule::KeepSelf, ComponentValue::Text(value))
}

/// Returns a class-list component: a private `classes` name, not
/// inherited, with the union merge rule, so merging combines the two
/// lists into their sorted, duplicate-free union.
pub fn classes(interner: &mut Interner, values: Vec<String>) -> (r: AnyComponent)
    requires
        old(interner).wf(),
    ensures
        final(interner).wf(),
        old(interner)@.is_prefix_of(final(interner)@),
        r@.name.authority.text == seq!['_'],
        r@.name.name.text == "classes"@,
        name_model_valid(r@.name, final(interner)@),
        r@.inherited == false,
        r@.rule == MergeRule::Union,
        r@.value == ValueModel::TextList(values.deep_view()),
{
    proof {
        reveal_strlit("classes");
        assert(is_valid_ident("classes"@));
    }
    let name = match Name::private(interner, "classes") {
        Ok(n) => n,
        Err(_) => unreached(),
    };
    AnyComponent::new(name, false, MergeRule::Union, ComponentValue::TextList(values))
}

} // verus!
