//! The style facade.
//!
//! A [`Style`] is a set of components keyed by their [`Name`]s, layered
//! over the sorted store. It offers insertion, lookup, default-fallback
//! retrieval and the two composition operators: the unconditional override
//! merge [`Style::merged_with`] and the selective inheritance merge
//! [`Style::inherited_from`]. Styles are value-semantic: composition
//! consumes the left side and returns a new style.

use vstd::prelude::*;

use crate::component::{
    merge_value, self_merge_stable, AnyComponent, ComponentModel, MergeRule,
};
use crate::names::{storage_key, Name, NameModel};
use crate::object::{
    entries_sorted, lemma_spec_merge_lookup, lookup, merged_entry, spec_insert,
    spec_merge, EntryModel, MergeFilter, Object,
};

verus! {

/// The first component found under a chain of fallback names: each name
/// is tried in order and the first present one wins.
pub open spec fn first_fallback(es: Seq<EntryModel>, names: Seq<NameModel>) -> Option<
    ComponentModel,
>
    decreases names.len(),
{
    if names.len() == 0 {
        None
    } else {
        match lookup(es, storage_key(names[0])) {
            Some(c) => Some(c),
            None => first_fallback(es, names.drop_first()),
        }
    }
}

/// A set of style components, one per qualified name.
#[derive(Debug)]
pub struct Style {
    components: Object,
}

impl Style {
    /// The entries of the style in storage order.
    pub closed spec fn entries(&self) -> Seq<EntryModel> {
        self.components.entries()
    }

    /// The style's invariant: the underlying store is well formed; in
    /// particular the keys are strictly increasing in storage order.
    pub closed spec fn inv(&self) -> bool {
        self.components.inv()
    }

    /// The sorted invariant, stated for callers: however a well-formed
    /// style was built, its entries are strictly increasing in storage
    /// order, so each name holds at most one component and iteration
    /// follows the storage order.
    pub proof fn lemma_entries_sorted(&self)
        requires
            self.inv(),
        ensures
            entries_sorted(self.entries()),
    {
        self.components.lemma_inv_sorted();
    }

    /// Returns a new style with no components.
    pub fn new() -> (r: Self)
        ensures
            r.inv(),
            r.entries() == Seq::<EntryModel>::empty(),
    {
        Style { components: Object::new() }
    }

    /// Returns a new style with enough capacity to hold `capacity`
    /// components without reallocating.
    pub fn with_capacity(capacity: usize) -> (r: Self)
        ensures
            r.inv(),
            r.entries() == Seq::<EntryModel>::empty(),
    {
        Style { components: Object::with_capacity(capacity) }
    }

    /// Adds a component to this style, keyed by the component's own name.
    /// Any existing component of the same name is replaced.
    pub fn push(&mut self, component: AnyComponent)
        requires
            old(self).inv(),
        ensures
            final(self).inv(),
            final(self).entries() == spec_insert(old(self).entries(), component@.name, component@),
    {
        let name = component.name().clone();
        let _ = self.components.insert(name, component);
    }

    /// Adds a component to the style and returns the style. Any existing
    /// component of the same name is replaced.
    pub fn with(self, component: AnyComponent) -> (r: Self)
        requires
            self.inv(),
        ensures
            r.inv(),
            r.entries() == spec_insert(self.entries(), component@.name, component@),
    {
        let mut s = self;
        s.push(component);
        s
    }

    /// Returns the component stored under `name`, if present.
    pub fn get_by_name(&self, name: &Name) -> (r: Option<&AnyComponent>)
        requires
            self.inv(),
        ensures
            match r {
                Some(c) => Some(c@) == lookup(self.entries(), storage_key(name@)),
                None => lookup(self.entries(), storage_key(name@)) is None,
            },
    {
        self.components.get(name)
    }

    /// Returns the first component found among `names`, trying each name
    /// in order. A name chain lets one component type fall back to a more
    /// general one, such as a text color falling back to the foreground
    /// color.
    pub fn get_with_fallback(&self, names: &Vec<Name>) -> (r: Option<&AnyComponent>)
        requires
            self.inv(),
        ensures
            ({
                let models = names@.map_values(|n: Name| n@);
                match r {
                    Some(c) => Some(c@) == first_fallback(self.entries(), models),
                    None => first_fallback(self.entries(), models) is None,
                }
            }),
    {
        let ghost models = names@.map_values(|n: Name| n@);
        proof {
            assert(models.skip(0) =~= models);
        }
        let mut i: usize = 0;
        while i < names.len()
            invariant
                self.inv(),
                0 <= i <= names@.len(),
                models == names@.map_values(|n: Name| n@),
                first_fallback(self.entries(), models) == first_fallback(
                    self.entries(),
                    models.skip(i as int),
                ),
            decreases names@.len() - i,
        {
            proof {
                assert(models.skip(i as int)[0] == models[i as int]);
                assert(models[i as int] == names@[i as int]@);
                assert(models.skip(i as int).drop_first() =~= models.skip(i + 1));
            }
            match self.components.get(&names[i]) {
                Some(c) => {
                    return Some(c);
                },
                None => {
                    i = i + 1;
                },
            }
        }
        proof {
            assert(models.skip(names@.len() as int).len() == 0);
        }
        None
    }

    /// Returns a copy of the component stored under `fallback`'s name, or
    /// `fallback` itself if that name is absent.
    pub fn get_or_default(&self, fallback: AnyComponent) -> (r: AnyComponent)
        requires
            self.inv(),
        ensures
            r@ == match lookup(self.entries(), storage_key(fallback@.name)) {
                Some(c) => c,
                None => fallback@,
            },
    {
        match self.components.get(fallback.name()) {
            Some(c) => c.clone(),
            None => fallback,
        }
    }

    /// Returns a new style merging the components of `self` with `other`.
    /// A name held by both keeps `self`'s component, with `other`'s merged
    /// in under `self`'s rule; a name held only by `other` is copied in.
    pub fn merged_with(self, other: &Style) -> (r: Style)
        requires
            self.inv(),
            other.inv(),
        ensures
            r.inv(),
            r.entries() == spec_merge(self.entries(), other.entries(), MergeFilter::All),
    {
        let mut merged = self;
        merged.components.merge_with_filter(&other.components, MergeFilter::All);
        merged
    }

    /// Returns a new style inheriting from `parent`: only components whose
    /// inheritance flag is set are considered. A name absent from `self`
    /// is pulled from `parent` when inheritable; a name present in both is
    /// merged only when `parent`'s copy is inheritable, and left
    /// completely untouched otherwise.
    pub fn inherited_from(self, parent: &Style) -> (r: Style)
        requires
            self.inv(),
            parent.inv(),
        ensures
            r.inv(),
            r.entries() == spec_merge(
                self.entries(),
                parent.entries(),
                MergeFilter::InheritedOnly,
            ),
    {
        let mut merged = self;
        merged.components.merge_with_filter(&parent.components, MergeFilter::InheritedOnly);
        merged
    }

    /// Returns the number of components in this style.
    pub fn len(&self) -> (r: usize)
        ensures
            r == self.entries().len(),
    {
        self.components.len()
    }

    /// Returns true if this style has no components.
    pub fn is_empty(&self) -> (r: bool)
        ensures
            r == (self.entries().len() == 0),
    {
        self.components.is_empty()
    }

    /// Returns the name and component at position `index` in storage
    /// order.
    pub fn component_at(&self, index: usize) -> (r: (&Name, &AnyComponent))
        requires
            self.inv(),
            index < self.entries().len(),
        ensures
            r.0@ == self.entries()[index as int].name,
            r.1@ == self.entries()[index as int].value,
    {
        self.components.entry_at(index)
    }
}

impl Clone for Style {
    /// Cloning deep-copies every component; later changes to either style
    /// leave the other untouched.
    fn clone(&self) -> (r: Self)
        ensures
            self.inv() ==> r.entries() == self.entries() && r.inv(),
    {
        Style { components: self.components.clone() }
    }
}

/// The override merge is left-biased and total: every key of either side
/// appears in the result; a key held by `a` keeps `a`'s component, with
/// `b`'s merged in under `a`'s own rule — in particular, a component with
/// the keep-self rule is exactly `a`'s; a key held only by `b` is copied
/// in unchanged.
pub proof fn lemma_override_merge(a: Seq<EntryModel>, b: Seq<EntryModel>)
    requires
        entries_sorted(a),
        entries_sorted(b),
    ensures
        entries_sorted(spec_merge(a, b, MergeFilter::All)),
        forall|k: (int, int)| #[trigger]
            lookup(spec_merge(a, b, MergeFilter::All), k) == (match (lookup(a, k), lookup(b, k)) {
                (Some(x), Some(y)) => Some(
                    ComponentModel { value: merge_value(x.rule, x.value, y.value), ..x },
                ),
                (Some(x), None) => Some(x),
                (None, Some(y)) => Some(y),
                (None, None) => None,
            }),
        forall|k: (int, int)|
            (match lookup(a, k) {
                Some(x) => x.rule == MergeRule::KeepSelf,
                None => false,
            }) ==> #[trigger] lookup(spec_merge(a, b, MergeFilter::All), k) == lookup(a, k),
{
    lemma_spec_merge_lookup(a, b, MergeFilter::All);
}

/// The inheritance merge is selective: a key absent from `a` is pulled
/// from `b` exactly when `b`'s component is inheritable; a key present in
/// `a` whose `b` copy is absent or not inheritable is left completely
/// untouched; a key present in both with an inheritable `b` copy is
/// merged under `a`'s own rule.
pub proof fn lemma_inherit_merge(a: Seq<EntryModel>, b: Seq<EntryModel>)
    requires
        entries_sorted(a),
        entries_sorted(b),
    ensures
        entries_sorted(spec_merge(a, b, MergeFilter::InheritedOnly)),
        forall|k: (int, int)|
            lookup(a, k) is None ==> #[trigger] lookup(
                spec_merge(a, b, MergeFilter::InheritedOnly),
                k,
            ) == (match lookup(b, k) {
                Some(y) => if y.inherited {
                    Some(y)
                } else {
                    None
                },
                None => None,
            }),
        forall|k: (int, int)|
            (lookup(a, k) is Some && (match lookup(b, k) {
                Some(y) => !y.inherited,
                None => true,
            })) ==> #[trigger] lookup(spec_merge(a, b, MergeFilter::InheritedOnly), k) == lookup(
                a,
                k,
            ),
        forall|k: (int, int)|
            (match (lookup(a, k), lookup(b, k)) {
                (Some(x), Some(y)) => y.inherited,
                _ => false,
            }) ==> #[trigger] lookup(spec_merge(a, b, MergeFilter::InheritedOnly), k) == (match (
                lookup(a, k),
                lookup(b, k),
            ) {
                (Some(x), Some(y)) => Some(
                    ComponentModel { value: merge_value(x.rule, x.value, y.value), ..x },
                ),
                _ => None,
            }),
{
    lemma_spec_merge_lookup(a, b, MergeFilter::InheritedOnly);
}

/// Self-merge idempotence: merging a style's entries with themselves
/// changes nothing, provided each component's value is stable under its
/// own merge rule — which holds for every rule except a union over a list
/// that is not yet sorted and duplicate-free.
pub proof fn lemma_self_merge_idempotent(a: Seq<EntryModel>)
    requires
        forall|i: int|
            0 <= i < a.len() ==> self_merge_stable(
                (#[trigger] a[i]).value.rule,
                a[i].value.value,
            ),
    ensures
        spec_merge(a, a, MergeFilter::All) == a,
    decreases a.len(),
{
    if a.len() > 0 {
        assert(!crate::names::storage_lt(a[0].name, a[0].name));
        crate::component::lemma_merge_value_self(a[0].value.rule, a[0].value.value);
        assert(merged_entry(a[0], a[0]) == a[0]);
        let ta = a.drop_first();
        assert(forall|i: int|
            0 <= i < ta.len() ==> self_merge_stable(
                (#[trigger] ta[i]).value.rule,
                ta[i].value.value,
            )) by {
            assert(forall|i: int| 0 <= i < ta.len() ==> (#[trigger] ta[i]) == a[i + 1]);
        }
        lemma_self_merge_idempotent(ta);
        assert(spec_merge(a, a, MergeFilter::All) == seq![a[0]] + spec_merge(
            ta,
            ta,
            MergeFilter::All,
        ));
        assert(seq![a[0]] + ta =~= a);
    }
}

} // verus!
