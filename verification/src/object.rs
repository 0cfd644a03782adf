//! The sorted component store.
//!
//! An [`Object`] maps [`Name`]s to [`AnyComponent`]s. The keys are kept in
//! an array sorted by storage order, so that comparisons reduce to token-id
//! comparisons and never touch the text; the values live in a separate
//! arena addressed by slot id, so that key splices move only the key array.
//! Lookup uses a hybrid search: binary halving down to a small window, then
//! a linear scan. The two composition operators of the style facade are
//! driven by one two-way sorted merge over the key arrays.

use vstd::prelude::*;

use crate::component::{merge_value, AnyComponent, ComponentModel};
use crate::names::{key_lt, storage_key, storage_lt, Name, NameModel};

verus! {

/// The mathematical value of one store entry: its key and its component.
pub struct EntryModel {
    /// The key under which the component is stored.
    pub name: NameModel,
    /// The stored component.
    pub value: ComponentModel,
}

/// Entry keys are strictly increasing in storage order; in particular no
/// key occurs twice.
pub open spec fn entries_sorted(es: Seq<EntryModel>) -> bool {
    forall|i: int, j: int|
        0 <= i < j < es.len() ==> storage_lt(#[trigger] es[i].name, #[trigger] es[j].name)
}

/// The component stored under storage key `k`, if any; entries are
/// searched front to back.
pub open spec fn lookup(es: Seq<EntryModel>, k: (int, int)) -> Option<ComponentModel>
    decreases es.len(),
{
    if es.len() == 0 {
        None
    } else if storage_key(es[0].name) == k {
        Some(es[0].value)
    } else {
        lookup(es.drop_first(), k)
    }
}

/// A key occurs in the entries exactly when [`lookup`] finds it.
pub proof fn lemma_lookup_mem(es: Seq<EntryModel>, k: (int, int))
    ensures
        lookup(es, k) is Some <==> exists|i: int|
            0 <= i < es.len() && storage_key(#[trigger] es[i].name) == k,
    decreases es.len(),
{
    if es.len() > 0 {
        lemma_lookup_mem(es.drop_first(), k);
        if storage_key(es[0].name) == k {
        } else if lookup(es.drop_first(), k) is Some {
            let i = choose|i: int|
                0 <= i < es.drop_first().len() && storage_key(es.drop_first()[i].name) == k;
            assert(storage_key(es[i + 1].name) == k);
        } else {
            if exists|i: int| 0 <= i < es.len() && storage_key(#[trigger] es[i].name) == k {
                let i = choose|i: int| 0 <= i < es.len() && storage_key(#[trigger] es[i].name) == k;
                assert(i > 0);
                assert(storage_key(es.drop_first()[i - 1].name) == k);
            }
        }
    }
}

/// In sorted entries, the entry at index `i` is what [`lookup`] finds for
/// its key.
pub proof fn lemma_lookup_at(es: Seq<EntryModel>, i: int)
    requires
        entries_sorted(es),
        0 <= i < es.len(),
    ensures
        lookup(es, storage_key(es[i].name)) == Some(es[i].value),
    decreases i,
{
    if i > 0 {
        assert(storage_lt(es[0].name, es[i].name));
        let tail = es.drop_first();
        assert(entries_sorted(tail)) by {
            assert(forall|x: int, y: int|
                0 <= x < y < tail.len() ==> tail[x] == es[x + 1] && tail[y] == es[y + 1]);
        }
        assert(tail[i - 1] == es[i]);
        lemma_lookup_at(tail, i - 1);
    }
}

/// `es` with `value` stored under `name`: an existing entry of the same
/// storage key keeps its place (and its stored key) with the value
/// replaced; otherwise a new entry is spliced in at its sorted position.
pub open spec fn spec_insert(es: Seq<EntryModel>, name: NameModel, value: ComponentModel) -> Seq<
    EntryModel,
>
    decreases es.len(),
{
    if es.len() == 0 {
        seq![EntryModel { name, value }]
    } else if storage_key(name) == storage_key(es[0].name) {
        seq![EntryModel { name: es[0].name, value }] + es.drop_first()
    } else if storage_lt(name, es[0].name) {
        seq![EntryModel { name, value }] + es
    } else {
        seq![es[0]] + spec_insert(es.drop_first(), name, value)
    }
}

/// A key with its slot id into the value arena.
#[derive(Debug)]
struct Key {
    key: Name,
    value_id: usize,
}

/// A map of [`Name`] to [`AnyComponent`], sorted by storage order.
#[derive(Debug)]
pub struct Object {
    values: Vec<AnyComponent>,
    ordered_keys: Vec<Key>,
}

impl Object {
    /// The entries in storage order: each sorted key paired with the
    /// component its slot resolves to.
    pub closed spec fn entries(&self) -> Seq<EntryModel> {
        Seq::new(
            self.ordered_keys.len() as nat,
            |i: int|
                EntryModel {
                    name: self.ordered_keys[i].key@,
                    value: self.values[self.ordered_keys[i].value_id as int]@,
                },
        )
    }

    /// The store invariant: every slot id resolves into the arena, no two
    /// keys share a slot, and the keys are strictly increasing in storage
    /// order.
    pub closed spec fn inv(&self) -> bool {
        &&& forall|i: int|
            0 <= i < self.ordered_keys.len() ==> (#[trigger] self.ordered_keys[i].value_id)
                < self.values.len()
        &&& forall|i: int, j: int|
            0 <= i < j < self.ordered_keys.len() ==> (#[trigger] self.ordered_keys[i].value_id) != (
            #[trigger] self.ordered_keys[j].value_id)
        &&& entries_sorted(self.entries())
    }

    /// The sorted invariant, stated for callers: however a well-formed
    /// store was built, its entries are strictly increasing in storage
    /// order, so no key occurs twice.
    pub proof fn lemma_inv_sorted(&self)
        requires
            self.inv(),
        ensures
            entries_sorted(self.entries()),
    {
    }

    /// Returns a new, empty store.
    pub fn new() -> (r: Self)
        ensures
            r.inv(),
            r.entries() == Seq::<EntryModel>::empty(),
    {
        let r = Object { values: Vec::new(), ordered_keys: Vec::new() };
        proof {
            assert(r.entries() =~= Seq::<EntryModel>::empty());
        }
        r
    }

    /// Returns a new, empty store with room for `capacity` components.
    pub fn with_capacity(capacity: usize) -> (r: Self)
        ensures
            r.inv(),
            r.entries() == Seq::<EntryModel>::empty(),
    {
        let r = Object {
            values: Vec::with_capacity(capacity),
            ordered_keys: Vec::with_capacity(capacity),
        };
        proof {
            assert(r.entries() =~= Seq::<EntryModel>::empty());
        }
        r
    }

    /// Returns the number of entries.
    pub fn len(&self) -> (r: usize)
        ensures
            r == self.entries().len(),
    {
        self.ordered_keys.len()
    }

    /// Returns whether the store holds no entries.
    pub fn is_empty(&self) -> (r: bool)
        ensures
            r == (self.entries().len() == 0),
    {
        self.ordered_keys.is_empty()
    }

    /// Returns the entry at position `index` in storage order.
    pub fn entry_at(&self, index: usize) -> (r: (&Name, &AnyComponent))
        requires
            self.inv(),
            index < self.entries().len(),
        ensures
            r.0@ == self.entries()[index as int].name,
            r.1@ == self.entries()[index as int].value,
    {
        let key = &self.ordered_keys[index];
        (&key.key, &self.values[key.value_id])
    }

    /// Finds the position holding `needle`'s storage key, or the position
    /// where it would be spliced in to preserve the sort order.
    ///
    /// While the candidate window holds more than sixteen entries, it is
    /// halved by a binary probe; the remaining window is scanned linearly,
    /// which favors small stores and tight windows.
    fn find_key(&self, needle: &Name) -> (r: Result<usize, usize>)
        requires
            self.inv(),
        ensures
            match r {
                Ok(i) => {
                    &&& i < self.entries().len()
                    &&& storage_key(self.entries()[i as int].name) == storage_key(needle@)
                },
                Err(j) => {
                    &&& j <= self.entries().len()
                    &&& forall|i: int|
                        0 <= i < j ==> storage_lt(self.entries()[i].name, needle@)
                    &&& forall|i: int|
                        j <= i < self.entries().len() ==> storage_lt(
                            needle@,
                            self.entries()[i].name,
                        )
                },
            },
    {
        let ghost es = self.entries();
        let mut min: usize = 0;
        let mut max: usize = self.ordered_keys.len();
        loop
            invariant
                self.inv(),
                es == self.entries(),
                0 <= min <= max <= self.ordered_keys.len(),
                self.ordered_keys.len() == es.len(),
                forall|i: int| 0 <= i < min ==> storage_lt(es[i].name, needle@),
                forall|i: int| max <= i < es.len() ==> storage_lt(needle@, es[i].name),
            decreases max - min,
        {
            let delta = max - min;
            if delta <= 16 {
                let mut i = min;
                while i < max
                    invariant
                        self.inv(),
                        es == self.entries(),
                        min <= i <= max <= self.ordered_keys.len(),
                        self.ordered_keys.len() == es.len(),
                        forall|j: int| 0 <= j < i ==> storage_lt(es[j].name, needle@),
                        forall|j: int| max <= j < es.len() ==> storage_lt(needle@, es[j].name),
                    decreases max - i,
                {
                    let key = &self.ordered_keys[i];
                    proof {
                        assert(es[i as int].name == key.key@);
                    }
                    if key.key.sorts_before(needle) {
                        i = i + 1;
                    } else if key.key.same_key(needle) {
                        return Ok(i);
                    } else {
                        return Err(i);
                    }
                }
                return Err(max);
            }
            let midpoint = min + delta / 2;
            let key = &self.ordered_keys[midpoint];
            proof {
                assert(es[midpoint as int].name == key.key@);
            }
            if key.key.sorts_before(needle) {
                min = midpoint + 1;
            } else if key.key.same_key(needle) {
                return Ok(midpoint);
            } else {
                max = midpoint;
            }
        }
    }

    /// Stores `value` under `key`. An existing component of the same
    /// storage key is replaced in place and returned; otherwise the entry
    /// is spliced into the key array at its sorted position.
    pub fn insert(&mut self, key: Name, value: AnyComponent) -> (r: Option<AnyComponent>)
        requires
            old(self).inv(),
        ensures
            final(self).inv(),
            final(self).entries() == spec_insert(old(self).entries(), key@, value@),
            r is Some <==> lookup(old(self).entries(), storage_key(key@)) is Some,
            r is Some ==> Some(r->0@) == lookup(old(self).entries(), storage_key(key@)),
    {
        let ghost es = old(self).entries();
        let ghost value_model = value@;
        match self.find_key(&key) {
            Ok(existing) => {
                let value_id = self.ordered_keys[existing].value_id;
                self.values.push(value);
                let displaced = self.values.swap_remove(value_id);
                proof {
                    lemma_lookup_at(es, existing as int);
                    lemma_spec_insert_found(es, key@, value_model, existing as int);
                    assert(displaced@ == es[existing as int].value);
                    assert(self.entries() =~= es.update(
                        existing as int,
                        EntryModel { name: es[existing as int].name, value: value_model },
                    )) by {
                        assert(self.values@.len() == old(self).values@.len());
                        assert(self.values@[value_id as int]@ == value_model);
                        assert(forall|v: int|
                            0 <= v < self.values@.len() && v != value_id as int
                                ==> self.values@[v] == old(self).values@[v]);
                        assert(forall|i: int|
                            0 <= i < self.ordered_keys@.len() && i != existing as int ==> (
                            #[trigger] self.ordered_keys@[i]).value_id != value_id);
                    }
                    assert(entries_sorted(self.entries())) by {
                        assert(forall|i: int|
                            0 <= i < self.entries().len() ==> (#[trigger] self.entries()[i]).name
                                == es[i].name);
                    }
                }
                Some(displaced)
            },
            Err(insert_at) => {
                let value_id = self.values.len();
                self.values.push(value);
                self.ordered_keys.insert(insert_at, Key { key, value_id });
                proof {
                    let target = EntryModel { name: key@, value: value_model };
                    lemma_lookup_none(es, key@, insert_at as int);
                    lemma_spec_insert_at(es, key@, value_model, insert_at as int);
                    let merged = es.take(insert_at as int) + seq![target] + es.skip(
                        insert_at as int,
                    );
                    assert(self.entries() =~= merged) by {
                        assert(self.ordered_keys@.len() == es.len() + 1);
                        assert(forall|i: int|
                            0 <= i < insert_at as int ==> self.ordered_keys@[i] == old(
                                self,
                            ).ordered_keys@[i]);
                        assert(forall|i: int|
                            (insert_at as int) < i < self.ordered_keys@.len()
                                ==> self.ordered_keys@[i] == old(self).ordered_keys@[i - 1]);
                        assert(forall|v: int|
                            0 <= v < old(self).values@.len() ==> self.values@[v] == old(
                                self,
                            ).values@[v]);
                        assert(self.values@[value_id as int]@ == value_model);
                        assert(forall|i: int|
                            0 <= i < old(self).ordered_keys@.len() ==> (#[trigger] old(
                                self,
                            ).ordered_keys@[i]).value_id < old(self).values@.len());
                    }
                    assert(entries_sorted(self.entries())) by {
                        assert forall|x: int, y: int|
                            0 <= x < y < merged.len() implies storage_lt(
                            merged[x].name,
                            merged[y].name,
                        ) by {
                            let j = insert_at as int;
                            if x < j {
                                assert(merged[x] == es[x]);
                            } else if x == j {
                                assert(merged[x] == target);
                            } else {
                                assert(merged[x] == es[x - 1]);
                            }
                            if y < j {
                                assert(merged[y] == es[y]);
                            } else if y == j {
                                assert(merged[y] == target);
                            } else {
                                assert(merged[y] == es[y - 1]);
                            }
                        }
                    }
                }
                None
            },
        }
    }

    /// Merges `other` into `self` with a two-way sorted merge over the key
    /// arrays. A key only in `self` keeps its component; a key on both
    /// sides has `other`'s component merged into `self`'s when the filter
    /// accepts it, and is left completely untouched otherwise; a key only
    /// in `other` is deep-copied in when the filter accepts it and dropped
    /// otherwise.
    #[verifier::rlimit(100)]
    pub fn merge_with_filter(&mut self, other: &Object, filter: MergeFilter)
        requires
            old(self).inv(),
            other.inv(),
        ensures
            final(self).inv(),
            final(self).entries() == spec_merge(old(self).entries(), other.entries(), filter),
    {
        let ghost a = old(self).entries();
        let ghost b = other.entries();
        let ghost mut ai: int = 0;
        let mut self_index: usize = 0;
        let mut other_index: usize = 0;
        proof {
            assert(self.entries().take(0) =~= Seq::<EntryModel>::empty());
            assert(a.skip(0) =~= a);
            assert(b.skip(0) =~= b);
            assert(self.entries().take(0) + spec_merge(a.skip(0), b.skip(0), filter) =~= spec_merge(
                a,
                b,
                filter,
            ));
        }
        while self_index < self.ordered_keys.len() && other_index < other.ordered_keys.len()
            invariant
                self.inv(),
                other.inv(),
                a == old(self).entries(),
                b == other.entries(),
                entries_sorted(a),
                entries_sorted(b),
                0 <= ai <= a.len(),
                0 <= other_index <= b.len(),
                self_index <= self.ordered_keys.len(),
                b.len() == other.ordered_keys.len(),
                self.ordered_keys.len() - self_index == a.len() - ai,
                self.entries().skip(self_index as int) == a.skip(ai),
                spec_merge(a, b, filter) == self.entries().take(self_index as int) + spec_merge(
                    a.skip(ai),
                    b.skip(other_index as int),
                    filter,
                ),
                (other_index as int) < b.len() ==> forall|t: int|
                    0 <= t < self_index ==> storage_lt(
                        (#[trigger] self.entries()[t]).name,
                        b[other_index as int].name,
                    ),
            decreases (self.ordered_keys.len() - self_index) + (other.ordered_keys.len()
                - other_index),
        {
            let ghost prev = self.entries();
            let ghost prev_keys = self.ordered_keys@;
            let ghost prev_values = self.values@;
            let ghost sa = a.skip(ai);
            let ghost sb = b.skip(other_index as int);
            let ghost oj = other_index as int;
            let other_value_id = other.ordered_keys[other_index].value_id;
            let other_component = &other.values[other_value_id];
            proof {
                assert(prev.skip(self_index as int)[0] == prev[self_index as int]);
                assert(a.skip(ai)[0] == a[ai]);
                assert(prev[self_index as int] == a[ai]);
                assert(sa[0] == a[ai]);
                assert(sb[0] == b[oj]);
                assert(other_component@ == b[oj].value);
                assert(prev[self_index as int].name == prev_keys[self_index as int].key@);
                assert(b[oj].name == other.ordered_keys[oj].key@);
            }
            if self.ordered_keys[self_index].key.sorts_before(&other.ordered_keys[other_index].key) {
                proof {
                    assert(storage_lt(sa[0].name, sb[0].name));
                    assert(spec_merge(sa, sb, filter) == seq![sa[0]] + spec_merge(
                        sa.drop_first(),
                        sb,
                        filter,
                    ));
                    assert(sa.drop_first() =~= a.skip(ai + 1));
                    assert(prev.take(self_index + 1) =~= prev.take(self_index as int) + seq![a[ai]]);
                    assert(prev.take(self_index as int) + (seq![sa[0]] + spec_merge(
                        a.skip(ai + 1),
                        sb,
                        filter,
                    )) =~= prev.take(self_index + 1) + spec_merge(a.skip(ai + 1), sb, filter));
                    assert(prev.skip(self_index + 1) =~= a.skip(ai + 1));
                    ai = ai + 1;
                }
                self_index = self_index + 1;
            } else if self.ordered_keys[self_index].key.same_key(
                &other.ordered_keys[other_index].key,
            ) {
                let value_id = self.ordered_keys[self_index].value_id;
                let accepted = filter.accepts(other_component);
                if accepted {
                    let slot = &mut self.values[value_id];
                    slot.merge_with(other_component);
                }
                proof {
                    let kept = if filter_accepts(filter, b[oj].value) {
                        merged_entry(a[ai], b[oj])
                    } else {
                        a[ai]
                    };
                    assert(prev_values[value_id as int]@ == a[ai].value);
                    if accepted {
                        assert(self.values@[value_id as int]@ == kept.value);
                        assert(self.entries() =~= prev.update(self_index as int, kept)) by {
                            assert(self.values@.len() == prev_values.len());
                            assert(forall|v: int|
                                0 <= v < self.values@.len() && v != value_id as int
                                    ==> self.values@[v] == prev_values[v]);
                            assert(forall|t: int|
                                0 <= t < prev_keys.len() && t != self_index as int ==> (
                                #[trigger] prev_keys[t]).value_id != value_id);
                            assert(kept.name == prev[self_index as int].name);
                        }
                    } else {
                        assert(kept == prev[self_index as int]);
                        assert(self.entries() =~= prev.update(self_index as int, kept));
                    }
                    assert(entries_sorted(self.entries())) by {
                        assert(forall|t: int|
                            0 <= t < self.entries().len() ==> (#[trigger] self.entries()[t]).name
                                == prev[t].name);
                    }
                    assert(spec_merge(sa, sb, filter) == seq![kept] + spec_merge(
                        sa.drop_first(),
                        sb.drop_first(),
                        filter,
                    ));
                    assert(sa.drop_first() =~= a.skip(ai + 1));
                    assert(sb.drop_first() =~= b.skip(oj + 1));
                    assert(self.entries().take(self_index + 1) =~= prev.take(self_index as int)
                        + seq![kept]);
                    assert(prev.take(self_index as int) + (seq![kept] + spec_merge(
                        a.skip(ai + 1),
                        b.skip(oj + 1),
                        filter,
                    )) =~= self.entries().take(self_index + 1) + spec_merge(
                        a.skip(ai + 1),
                        b.skip(oj + 1),
                        filter,
                    ));
                    assert(self.entries().skip(self_index + 1) =~= prev.skip(self_index + 1));
                    assert(prev.skip(self_index + 1) =~= a.skip(ai + 1));
                    ai = ai + 1;
                }
                self_index = self_index + 1;
                other_index = other_index + 1;
            } else {
                let accepted = filter.accepts(other_component);
                if accepted {
                    let new_value_id = self.values.len();
                    self.values.push(other_component.clone());
                    self.ordered_keys.insert(
                        self_index,
                        Key {
                            key: other.ordered_keys[other_index].key.clone(),
                            value_id: new_value_id,
                        },
                    );
                    proof {
                        assert(storage_lt(b[oj].name, a[ai].name));
                        let spliced = prev.take(self_index as int) + seq![b[oj]] + prev.skip(
                            self_index as int,
                        );
                        assert(self.entries() =~= spliced) by {
                            assert(self.values@.len() == prev_values.len() + 1);
                            assert(forall|v: int|
                                0 <= v < prev_values.len() ==> self.values@[v] == prev_values[v]);
                            assert(self.values@[new_value_id as int]@ == b[oj].value);
                            assert(self.ordered_keys@.len() == prev_keys.len() + 1);
                            assert(forall|t: int|
                                0 <= t < self_index as int ==> self.ordered_keys@[t]
                                    == prev_keys[t]);
                            assert(forall|t: int|
                                (self_index as int) < t < self.ordered_keys@.len()
                                    ==> self.ordered_keys@[t] == prev_keys[t - 1]);
                            assert(self.ordered_keys@[self_index as int].key@ == b[oj].name);
                            assert(self.ordered_keys@[self_index as int].value_id == new_value_id);
                            assert(forall|t: int|
                                0 <= t < prev_keys.len() ==> (#[trigger] prev_keys[t]).value_id
                                    < prev_values.len());
                        }
                        assert(entries_sorted(self.entries())) by {
                            assert forall|x: int, y: int|
                                0 <= x < y < spliced.len() implies storage_lt(
                                spliced[x].name,
                                spliced[y].name,
                            ) by {
                                let j = self_index as int;
                                if x < j {
                                    assert(spliced[x] == prev[x]);
                                } else if x == j {
                                    assert(spliced[x] == b[oj]);
                                } else {
                                    assert(spliced[x] == prev[x - 1]);
                                }
                                if y < j {
                                    assert(spliced[y] == prev[y]);
                                } else if y == j {
                                    assert(spliced[y] == b[oj]);
                                    if x < j {
                                        assert(storage_lt(prev[x].name, b[oj].name));
                                    }
                                } else {
                                    assert(spliced[y] == prev[y - 1]);
                                    if x == j {
                                        assert(prev[y - 1] == a[ai + (y - 1 - j)]);
                                        if y - 1 > j {
                                            assert(storage_lt(a[ai].name, a[ai + (y - 1 - j)].name));
                                        }
                                    }
                                }
                            }
                        }
                        assert(sb.drop_first() =~= b.skip(oj + 1));
                        assert(spec_merge(sa, sb, filter) == seq![b[oj]] + spec_merge(
                            sa,
                            b.skip(oj + 1),
                            filter,
                        ));
                        assert(self.entries().take(self_index + 1) =~= prev.take(self_index as int)
                            + seq![b[oj]]);
                        assert(prev.take(self_index as int) + (seq![b[oj]] + spec_merge(
                            sa,
                            b.skip(oj + 1),
                            filter,
                        )) =~= self.entries().take(self_index + 1) + spec_merge(
                            sa,
                            b.skip(oj + 1),
                            filter,
                        ));
                        assert(self.entries().skip(self_index + 1) =~= prev.skip(
                            self_index as int,
                        ));
                    }
                    self_index = self_index + 1;
                } else {
                    proof {
                        assert(sb.drop_first() =~= b.skip(oj + 1));
                        assert(spec_merge(sa, sb, filter) == spec_merge(sa, b.skip(oj + 1), filter));
                    }
                }
                other_index = other_index + 1;
            }
        }
        proof {
            if other_index as int >= b.len() {
                assert(b.skip(other_index as int).len() == 0);
                assert(spec_merge(a.skip(ai), b.skip(other_index as int), filter) == a.skip(ai));
                assert(self.entries().take(self_index as int) + self.entries().skip(
                    self_index as int,
                ) =~= self.entries());
                assert(self.entries().take(self_index as int) + a.skip(ai) =~= self.entries());
                assert(spec_merge(a, b, filter) == self.entries());
                assert(spec_merge(Seq::<EntryModel>::empty(), b.skip(other_index as int), filter)
                    =~= Seq::<EntryModel>::empty());
                assert(self.entries() + spec_merge(
                    Seq::<EntryModel>::empty(),
                    b.skip(other_index as int),
                    filter,
                ) =~= self.entries());
            } else {
                assert(self_index == self.ordered_keys.len());
                assert(ai == a.len());
                assert(a.skip(ai) =~= Seq::<EntryModel>::empty());
                assert(self.entries().take(self_index as int) =~= self.entries());
            }
        }
        while other_index < other.ordered_keys.len()
            invariant
                self.inv(),
                other.inv(),
                b == other.entries(),
                entries_sorted(b),
                0 <= other_index <= b.len(),
                b.len() == other.ordered_keys.len(),
                spec_merge(a, b, filter) == self.entries() + spec_merge(
                    Seq::<EntryModel>::empty(),
                    b.skip(other_index as int),
                    filter,
                ),
                (other_index as int) < b.len() ==> forall|t: int|
                    0 <= t < self.entries().len() ==> storage_lt(
                        (#[trigger] self.entries()[t]).name,
                        b[other_index as int].name,
                    ),
            decreases other.ordered_keys.len() - other_index,
        {
            let ghost prev = self.entries();
            let ghost prev_keys = self.ordered_keys@;
            let ghost prev_values = self.values@;
            let ghost sb = b.skip(other_index as int);
            let ghost oj = other_index as int;
            let other_value_id = other.ordered_keys[other_index].value_id;
            let other_component = &other.values[other_value_id];
            proof {
                assert(sb[0] == b[oj]);
                assert(other_component@ == b[oj].value);
                assert(b[oj].name == other.ordered_keys[oj].key@);
            }
            let accepted = filter.accepts(other_component);
            if accepted {
                let new_value_id = self.values.len();
                self.values.push(other_component.clone());
                self.ordered_keys.push(
                    Key { key: other.ordered_keys[other_index].key.clone(), value_id: new_value_id },
                );
                proof {
                    assert(self.entries() =~= prev + seq![b[oj]]) by {
                        assert(self.values@.len() == prev_values.len() + 1);
                        assert(forall|v: int|
                            0 <= v < prev_values.len() ==> self.values@[v] == prev_values[v]);
                        assert(self.values@[new_value_id as int]@ == b[oj].value);
                        assert(self.ordered_keys@.len() == prev_keys.len() + 1);
                        assert(forall|t: int|
                            0 <= t < prev_keys.len() ==> self.ordered_keys@[t] == prev_keys[t]);
                        assert(self.ordered_keys@[prev_keys.len() as int].key@ == b[oj].name);
                        assert(self.ordered_keys@[prev_keys.len() as int].value_id == new_value_id);
                        assert(forall|t: int|
                            0 <= t < prev_keys.len() ==> (#[trigger] prev_keys[t]).value_id
                                < prev_values.len());
                    }
                    assert(entries_sorted(self.entries())) by {
                        let merged = prev + seq![b[oj]];
                        assert forall|x: int, y: int|
                            0 <= x < y < merged.len() implies storage_lt(
                            merged[x].name,
                            merged[y].name,
                        ) by {
                            if y < prev.len() {
                                assert(merged[x] == prev[x] && merged[y] == prev[y]);
                            } else {
                                assert(merged[y] == b[oj]);
                                assert(merged[x] == prev[x]);
                                assert(storage_lt(prev[x].name, b[oj].name));
                            }
                        }
                    }
                    assert(sb.drop_first() =~= b.skip(oj + 1));
                    assert(spec_merge(Seq::<EntryModel>::empty(), sb, filter) == seq![b[oj]]
                        + spec_merge(Seq::<EntryModel>::empty(), b.skip(oj + 1), filter));
                    assert(prev + (seq![b[oj]] + spec_merge(
                        Seq::<EntryModel>::empty(),
                        b.skip(oj + 1),
                        filter,
                    )) =~= self.entries() + spec_merge(
                        Seq::<EntryModel>::empty(),
                        b.skip(oj + 1),
                        filter,
                    ));
                }
            } else {
                proof {
                    assert(sb.drop_first() =~= b.skip(oj + 1));
                    assert(spec_merge(Seq::<EntryModel>::empty(), sb, filter) == spec_merge(
                        Seq::<EntryModel>::empty(),
                        b.skip(oj + 1),
                        filter,
                    ));
                }
            }
            other_index = other_index + 1;
        }
        proof {
            assert(b.skip(other_index as int).len() == 0);
            assert(spec_merge(Seq::<EntryModel>::empty(), b.skip(other_index as int), filter)
                =~= Seq::<EntryModel>::empty());
            assert(self.entries() + Seq::<EntryModel>::empty() =~= self.entries());
        }
    }

    /// Returns the component stored under `key`, if any.
    pub fn get(&self, key: &Name) -> (r: Option<&AnyComponent>)
        requires
            self.inv(),
        ensures
            match r {
                Some(c) => Some(c@) == lookup(self.entries(), storage_key(key@)),
                None => lookup(self.entries(), storage_key(key@)) is None,
            },
    {
        match self.find_key(key) {
            Ok(existing) => {
                proof {
                    lemma_lookup_at(self.entries(), existing as int);
                }
                Some(&self.values[self.ordered_keys[existing].value_id])
            },
            Err(insert_at) => {
                proof {
                    lemma_lookup_none(self.entries(), key@, insert_at as int);
                }
                None
            },
        }
    }
}

/// Which incoming components a merge accepts.
#[derive(Debug, Clone, Copy, PartialEq, Eq, Structural)]
pub enum MergeFilter {
    /// Accept every component.
    All,
    /// Accept only components whose inheritance flag is set.
    InheritedOnly,
}

/// Whether `f` accepts the incoming component `c`.
pub open spec fn filter_accepts(f: MergeFilter, c: ComponentModel) -> bool {
    match f {
        MergeFilter::All => true,
        MergeFilter::InheritedOnly => c.inherited,
    }
}

impl MergeFilter {
    /// Returns whether the filter accepts `c`.
    fn accepts(&self, c: &AnyComponent) -> (r: bool)
        ensures
            r == filter_accepts(*self, c@),
    {
        match self {
            MergeFilter::All => true,
            MergeFilter::InheritedOnly => c.inherited(),
        }
    }
}

/// The entry kept when a key exists on both sides and the incoming entry
/// passes the filter: the stored component absorbs the incoming value
/// under its own merge rule, keeping its key, flag and rule.
pub open spec fn merged_entry(a: EntryModel, b: EntryModel) -> EntryModel {
    EntryModel {
        name: a.name,
        value: ComponentModel {
            value: merge_value(a.value.rule, a.value.value, b.value.value),
            ..a.value
        },
    }
}

/// The two-way sorted merge of entry sequences `a` and `b` under filter
/// `f`: keys only in `a` are kept; keys in both are merged in place when
/// the incoming component passes the filter and kept untouched otherwise;
/// keys only in `b` are copied in when they pass the filter.
pub open spec fn spec_merge(a: Seq<EntryModel>, b: Seq<EntryModel>, f: MergeFilter) -> Seq<
    EntryModel,
>
    decreases a.len() + b.len(),
{
    if b.len() == 0 {
        a
    } else if a.len() > 0 && storage_lt(a[0].name, b[0].name) {
        seq![a[0]] + spec_merge(a.drop_first(), b, f)
    } else if a.len() > 0 && storage_key(a[0].name) == storage_key(b[0].name) {
        let kept = if filter_accepts(f, b[0].value) {
            merged_entry(a[0], b[0])
        } else {
            a[0]
        };
        seq![kept] + spec_merge(a.drop_first(), b.drop_first(), f)
    } else {
        let rest = spec_merge(a, b.drop_first(), f);
        if filter_accepts(f, b[0].value) {
            seq![b[0]] + rest
        } else {
            rest
        }
    }
}

impl Clone for Object {
    /// Cloning deep-copies every entry: the clone holds the same entries
    /// and owns its values, so later changes to either store leave the
    /// other untouched.
    fn clone(&self) -> (r: Self)
        ensures
            self.inv() ==> r.entries() == self.entries() && r.inv(),
    {
        let mut values: Vec<AnyComponent> = Vec::new();
        let mut i: usize = 0;
        while i < self.values.len()
            invariant
                0 <= i <= self.values.len(),
                values@.len() == i,
                forall|j: int| 0 <= j < i ==> (#[trigger] values@[j])@ == self.values@[j]@,
            decreases self.values.len() - i,
        {
            values.push(self.values[i].clone());
            i = i + 1;
        }
        let mut ordered_keys: Vec<Key> = Vec::new();
        let mut i: usize = 0;
        while i < self.ordered_keys.len()
            invariant
                0 <= i <= self.ordered_keys.len(),
                ordered_keys@.len() == i,
                forall|j: int|
                    0 <= j < i ==> (#[trigger] ordered_keys@[j]).key@ == self.ordered_keys@[j].key@
                        && ordered_keys@[j].value_id == self.ordered_keys@[j].value_id,
            decreases self.ordered_keys.len() - i,
        {
            let k = &self.ordered_keys[i];
            ordered_keys.push(Key { key: k.key.clone(), value_id: k.value_id });
            i = i + 1;
        }
        let r = Object { values, ordered_keys };
        proof {
            if self.inv() {
                assert(r.entries() =~= self.entries());
            }
        }
        r
    }
}

/// A name strictly below every entry and below the inserted name stays
/// strictly below every entry after the insertion.
proof fn lemma_insert_above(es: Seq<EntryModel>, name: NameModel, value: ComponentModel, head: NameModel)
    requires
        forall|i: int| 0 <= i < es.len() ==> storage_lt(head, (#[trigger] es[i]).name),
        storage_lt(head, name),
    ensures
        forall|i: int|
            0 <= i < spec_insert(es, name, value).len() ==> storage_lt(
                head,
                (#[trigger] spec_insert(es, name, value)[i]).name,
            ),
    decreases es.len(),
{
    let r = spec_insert(es, name, value);
    if es.len() == 0 {
        assert(r[0].name == name);
    } else if storage_key(name) == storage_key(es[0].name) {
        assert forall|i: int| 0 <= i < r.len() implies storage_lt(head, (#[trigger] r[i]).name) by {
            if i > 0 {
                assert(r[i] == es.drop_first()[i - 1]);
                assert(es.drop_first()[i - 1] == es[i]);
            } else {
                assert(r[0].name == es[0].name);
            }
        }
    } else if storage_lt(name, es[0].name) {
        assert forall|i: int| 0 <= i < r.len() implies storage_lt(head, (#[trigger] r[i]).name) by {
            if i == 0 {
                assert(r[0].name == name);
            } else {
                assert(r[i] == es[i - 1]);
            }
        }
    } else {
        let tail = es.drop_first();
        assert(forall|i: int| 0 <= i < tail.len() ==> (#[trigger] tail[i]) == es[i + 1]);
        lemma_insert_above(tail, name, value, head);
        assert forall|i: int| 0 <= i < r.len() implies storage_lt(head, (#[trigger] r[i]).name) by {
            if i == 0 {
                assert(r[0] == es[0]);
            } else {
                assert(r[i] == spec_insert(tail, name, value)[i - 1]);
            }
        }
    }
}

/// Storing a component and reading the same key back yields exactly the
/// stored component; every other key is untouched, and the entries stay
/// sorted. Together with the contracts of `insert` and `get`, this is the
/// insert/get round trip.
pub proof fn lemma_insert_lookup(es: Seq<EntryModel>, name: NameModel, value: ComponentModel)
    requires
        entries_sorted(es),
    ensures
        entries_sorted(spec_insert(es, name, value)),
        lookup(spec_insert(es, name, value), storage_key(name)) == Some(value),
        forall|k: (int, int)|
            k != storage_key(name) ==> #[trigger] lookup(spec_insert(es, name, value), k) == lookup(
                es,
                k,
            ),
    decreases es.len(),
{
    let r = spec_insert(es, name, value);
    if es.len() == 0 {
        assert(r == seq![EntryModel { name, value }]);
        assert(r.drop_first() =~= Seq::<EntryModel>::empty());
        assert forall|k: (int, int)| k != storage_key(name) implies #[trigger] lookup(r, k)
            == lookup(es, k) by {
            assert(r[0] == EntryModel { name, value });
            assert(lookup(Seq::<EntryModel>::empty(), k) is None);
            assert(lookup(r.drop_first(), k) is None);
            assert(lookup(r, k) is None);
        }
    } else if storage_key(name) == storage_key(es[0].name) {
        assert(r == seq![EntryModel { name: es[0].name, value }] + es.drop_first());
        assert(r[0] == EntryModel { name: es[0].name, value });
        assert(r.drop_first() =~= es.drop_first());
        assert forall|k: (int, int)| k != storage_key(name) implies #[trigger] lookup(r, k)
            == lookup(es, k) by {
            assert(lookup(r, k) == lookup(es.drop_first(), k));
            assert(lookup(es, k) == lookup(es.drop_first(), k));
        }
        assert(entries_sorted(r)) by {
            assert(forall|i: int|
                0 <= i < r.len() ==> (#[trigger] r[i]).name == es[i].name);
        }
    } else if storage_lt(name, es[0].name) {
        assert(r == seq![EntryModel { name, value }] + es);
        assert(r[0] == EntryModel { name, value });
        assert(r.drop_first() =~= es);
        assert forall|k: (int, int)| k != storage_key(name) implies #[trigger] lookup(r, k)
            == lookup(es, k) by {
            assert(lookup(r, k) == lookup(es, k));
        }
        assert(entries_sorted(r)) by {
            assert forall|x: int, y: int| 0 <= x < y < r.len() implies storage_lt(
                r[x].name,
                r[y].name,
            ) by {
                if x == 0 {
                    assert(r[y] == es[y - 1]);
                } else {
                    assert(r[x] == es[x - 1] && r[y] == es[y - 1]);
                }
            }
        }
    } else {
        let tail = es.drop_first();
        assert(entries_sorted(tail)) by {
            assert(forall|x: int| 0 <= x < tail.len() ==> #[trigger] tail[x] == es[x + 1]);
        }
        lemma_insert_lookup(tail, name, value);
        assert(r == seq![es[0]] + spec_insert(tail, name, value));
        assert(r[0] == es[0]);
        assert(r.drop_first() =~= spec_insert(tail, name, value));
        assert(storage_key(name) != storage_key(es[0].name));
        assert(lookup(r, storage_key(name)) == lookup(spec_insert(tail, name, value), storage_key(name)));
        assert forall|k: (int, int)| k != storage_key(name) implies #[trigger] lookup(r, k)
            == lookup(es, k) by {
            if k == storage_key(es[0].name) {
                assert(lookup(r, k) == Some(es[0].value));
                assert(lookup(es, k) == Some(es[0].value));
            } else {
                assert(lookup(r, k) == lookup(spec_insert(tail, name, value), k));
                assert(lookup(es, k) == lookup(tail, k));
            }
        }
        assert(entries_sorted(r)) by {
            assert(forall|i: int|
                0 <= i < tail.len() ==> storage_lt(es[0].name, (#[trigger] tail[i]).name));
            assert(storage_lt(es[0].name, name));
            lemma_insert_above(tail, name, value, es[0].name);
            let rt = spec_insert(tail, name, value);
            assert forall|x: int, y: int| 0 <= x < y < r.len() implies storage_lt(
                r[x].name,
                r[y].name,
            ) by {
                if x == 0 {
                    assert(r[y] == rt[y - 1]);
                } else {
                    assert(r[x] == rt[x - 1] && r[y] == rt[y - 1]);
                }
            }
        }
    }
}

/// The merge, read key by key: a key only in `a` keeps `a`'s component; a
/// key on both sides carries `a`'s component with `b`'s merged in when the
/// filter accepts it, untouched otherwise; a key only in `b` appears
/// exactly when the filter accepts it. The merged entries stay sorted.
pub proof fn lemma_spec_merge_lookup(a: Seq<EntryModel>, b: Seq<EntryModel>, f: MergeFilter)
    requires
        entries_sorted(a),
        entries_sorted(b),
    ensures
        entries_sorted(spec_merge(a, b, f)),
        forall|k: (int, int)| #[trigger]
            lookup(spec_merge(a, b, f), k) == (match (lookup(a, k), lookup(b, k)) {
                (Some(x), Some(y)) => if filter_accepts(f, y) {
                    Some(
                        ComponentModel {
                            value: merge_value(x.rule, x.value, y.value),
                            ..x
                        },
                    )
                } else {
                    Some(x)
                },
                (Some(x), None) => Some(x),
                (None, Some(y)) => if filter_accepts(f, y) {
                    Some(y)
                } else {
                    None
                },
                (None, None) => None,
            }),
    decreases a.len() + b.len(),
{
    let m = spec_merge(a, b, f);
    if b.len() == 0 {
        assert(forall|k: (int, int)| lookup(b, k) is None) by {
            assert forall|k: (int, int)| lookup(b, k) is None by {
                lemma_lookup_mem(b, k);
            }
        }
    } else if a.len() > 0 && storage_lt(a[0].name, b[0].name) {
        let ta = a.drop_first();
        assert(entries_sorted(ta)) by {
            assert(forall|x: int| 0 <= x < ta.len() ==> #[trigger] ta[x] == a[x + 1]);
        }
        lemma_spec_merge_lookup(ta, b, f);
        let mt = spec_merge(ta, b, f);
        assert(m == seq![a[0]] + mt);
        assert(m.drop_first() =~= mt);
        assert(m[0] == a[0]);
        let k0 = storage_key(a[0].name);
        assert forall|k: (int, int)| #[trigger] lookup(m, k) == (match (lookup(a, k), lookup(
            b,
            k,
        )) {
            (Some(x), Some(y)) => if filter_accepts(f, y) {
                Some(ComponentModel { value: merge_value(x.rule, x.value, y.value), ..x })
            } else {
                Some(x)
            },
            (Some(x), None) => Some(x),
            (None, Some(y)) => if filter_accepts(f, y) {
                Some(y)
            } else {
                None
            },
            (None, None) => None,
        }) by {
            if k == k0 {
                assert(forall|i: int|
                    0 <= i < b.len() ==> key_lt(k0, storage_key((#[trigger] b[i]).name)));
                lemma_lookup_below(b, k0);
                assert(lookup(b, k0) is None);
                assert(lookup(m, k0) == Some(a[0].value));
                assert(lookup(a, k0) == Some(a[0].value));
            } else {
                assert(lookup(m, k) == lookup(mt, k));
                assert(lookup(a, k) == lookup(ta, k));
            }
        }
        assert(entries_sorted(m)) by {
            assert(forall|i: int|
                0 <= i < ta.len() ==> storage_lt(a[0].name, (#[trigger] ta[i]).name)) by {
                assert(forall|i: int| 0 <= i < ta.len() ==> (#[trigger] ta[i]) == a[i + 1]);
            }
            assert(forall|i: int|
                0 <= i < b.len() ==> storage_lt(a[0].name, (#[trigger] b[i]).name));
            lemma_merge_above(ta, b, f, a[0].name);
            assert forall|x: int, y: int| 0 <= x < y < m.len() implies storage_lt(
                m[x].name,
                m[y].name,
            ) by {
                if x == 0 {
                    assert(m[y] == mt[y - 1]);
                } else {
                    assert(m[x] == mt[x - 1] && m[y] == mt[y - 1]);
                }
            }
        }
    } else if a.len() > 0 && storage_key(a[0].name) == storage_key(b[0].name) {
        let ta = a.drop_first();
        let tb = b.drop_first();
        assert(entries_sorted(ta)) by {
            assert(forall|x: int| 0 <= x < ta.len() ==> #[trigger] ta[x] == a[x + 1]);
        }
        assert(entries_sorted(tb)) by {
            assert(forall|x: int| 0 <= x < tb.len() ==> #[trigger] tb[x] == b[x + 1]);
        }
        lemma_spec_merge_lookup(ta, tb, f);
        let kept = if filter_accepts(f, b[0].value) {
            merged_entry(a[0], b[0])
        } else {
            a[0]
        };
        let mt = spec_merge(ta, tb, f);
        assert(m == seq![kept] + mt);
        assert(m.drop_first() =~= mt);
        assert(m[0] == kept);
        let k0 = storage_key(a[0].name);
        assert forall|k: (int, int)| #[trigger] lookup(m, k) == (match (lookup(a, k), lookup(
            b,
            k,
        )) {
            (Some(x), Some(y)) => if filter_accepts(f, y) {
                Some(ComponentModel { value: merge_value(x.rule, x.value, y.value), ..x })
            } else {
                Some(x)
            },
            (Some(x), None) => Some(x),
            (None, Some(y)) => if filter_accepts(f, y) {
                Some(y)
            } else {
                None
            },
            (None, None) => None,
        }) by {
            if k == k0 {
                assert(lookup(m, k0) == Some(kept.value));
                assert(lookup(a, k0) == Some(a[0].value));
                assert(lookup(b, k0) == Some(b[0].value));
            } else {
                assert(lookup(m, k) == lookup(mt, k));
                assert(lookup(a, k) == lookup(ta, k));
                assert(lookup(b, k) == lookup(tb, k));
            }
        }
        assert(entries_sorted(m)) by {
            assert(forall|i: int|
                0 <= i < ta.len() ==> storage_lt(kept.name, (#[trigger] ta[i]).name)) by {
                assert(forall|i: int| 0 <= i < ta.len() ==> (#[trigger] ta[i]) == a[i + 1]);
            }
            assert(forall|i: int|
                0 <= i < tb.len() ==> storage_lt(kept.name, (#[trigger] tb[i]).name)) by {
                assert(forall|i: int| 0 <= i < tb.len() ==> (#[trigger] tb[i]) == b[i + 1]);
            }
            lemma_merge_above(ta, tb, f, kept.name);
            assert forall|x: int, y: int| 0 <= x < y < m.len() implies storage_lt(
                m[x].name,
                m[y].name,
            ) by {
                if x == 0 {
                    assert(m[y] == mt[y - 1]);
                } else {
                    assert(m[x] == mt[x - 1] && m[y] == mt[y - 1]);
                }
            }
        }
    } else {
        let tb = b.drop_first();
        assert(entries_sorted(tb)) by {
            assert(forall|x: int| 0 <= x < tb.len() ==> #[trigger] tb[x] == b[x + 1]);
        }
        lemma_spec_merge_lookup(a, tb, f);
        let mt = spec_merge(a, tb, f);
        let k0 = storage_key(b[0].name);
        assert(a.len() > 0 ==> storage_lt(b[0].name, a[0].name));
        assert(forall|i: int|
            0 <= i < a.len() ==> key_lt(k0, storage_key((#[trigger] a[i]).name)));
        lemma_lookup_below(a, k0);
        assert(lookup(a, k0) is None);
        assert(lookup(b, k0) == Some(b[0].value));
        if filter_accepts(f, b[0].value) {
            assert(m == seq![b[0]] + mt);
            assert(m.drop_first() =~= mt);
            assert(m[0] == b[0]);
            assert forall|k: (int, int)| #[trigger] lookup(m, k) == (match (lookup(a, k), lookup(
                b,
                k,
            )) {
                (Some(x), Some(y)) => if filter_accepts(f, y) {
                    Some(ComponentModel { value: merge_value(x.rule, x.value, y.value), ..x })
                } else {
                    Some(x)
                },
                (Some(x), None) => Some(x),
                (None, Some(y)) => if filter_accepts(f, y) {
                    Some(y)
                } else {
                    None
                },
                (None, None) => None,
            }) by {
                if k == k0 {
                    assert(lookup(m, k0) == Some(b[0].value));
                } else {
                    assert(lookup(m, k) == lookup(mt, k));
                    assert(lookup(b, k) == lookup(tb, k));
                }
            }
            assert(entries_sorted(m)) by {
                assert(forall|i: int|
                    0 <= i < a.len() ==> storage_lt(b[0].name, (#[trigger] a[i]).name));
                assert(forall|i: int|
                    0 <= i < tb.len() ==> storage_lt(b[0].name, (#[trigger] tb[i]).name)) by {
                    assert(forall|i: int| 0 <= i < tb.len() ==> (#[trigger] tb[i]) == b[i + 1]);
                }
                lemma_merge_above(a, tb, f, b[0].name);
                assert forall|x: int, y: int| 0 <= x < y < m.len() implies storage_lt(
                    m[x].name,
                    m[y].name,
                ) by {
                    if x == 0 {
                        assert(m[y] == mt[y - 1]);
                    } else {
                        assert(m[x] == mt[x - 1] && m[y] == mt[y - 1]);
                    }
                }
            }
        } else {
            assert(m == mt);
            assert forall|k: (int, int)| #[trigger] lookup(m, k) == (match (lookup(a, k), lookup(
                b,
                k,
            )) {
                (Some(x), Some(y)) => if filter_accepts(f, y) {
                    Some(ComponentModel { value: merge_value(x.rule, x.value, y.value), ..x })
                } else {
                    Some(x)
                },
                (Some(x), None) => Some(x),
                (None, Some(y)) => if filter_accepts(f, y) {
                    Some(y)
                } else {
                    None
                },
                (None, None) => None,
            }) by {
                if k == k0 {
                    assert(lookup(m, k0) == lookup(mt, k0));
                    assert(lookup(tb, k0) is None) by {
                        assert(forall|i: int|
                            0 <= i < tb.len() ==> key_lt(
                                k0,
                                storage_key((#[trigger] tb[i]).name),
                            )) by {
                            assert(forall|i: int|
                                0 <= i < tb.len() ==> (#[trigger] tb[i]) == b[i + 1]);
                        }
                        lemma_lookup_below(tb, k0);
                    }
                } else {
                    assert(lookup(b, k) == lookup(tb, k));
                }
            }
        }
    }
}

/// A key strictly below every entry key is not found by [`lookup`].
proof fn lemma_lookup_below(es: Seq<EntryModel>, k: (int, int))
    requires
        forall|i: int| 0 <= i < es.len() ==> key_lt(k, storage_key((#[trigger] es[i]).name)),
    ensures
        lookup(es, k) is None,
{
    lemma_lookup_mem(es, k);
    if lookup(es, k) is Some {
        let i = choose|i: int| 0 <= i < es.len() && storage_key(#[trigger] es[i].name) == k;
        assert(key_lt(k, storage_key(es[i].name)));
        assert(false);
    }
}

/// A name strictly below every entry of both inputs is strictly below
/// every entry of their merge.
proof fn lemma_merge_above(a: Seq<EntryModel>, b: Seq<EntryModel>, f: MergeFilter, head: NameModel)
    requires
        forall|i: int| 0 <= i < a.len() ==> storage_lt(head, (#[trigger] a[i]).name),
        forall|i: int| 0 <= i < b.len() ==> storage_lt(head, (#[trigger] b[i]).name),
    ensures
        forall|i: int|
            0 <= i < spec_merge(a, b, f).len() ==> storage_lt(
                head,
                (#[trigger] spec_merge(a, b, f)[i]).name,
            ),
    decreases a.len() + b.len(),
{
    let m = spec_merge(a, b, f);
    if b.len() == 0 {
    } else if a.len() > 0 && storage_lt(a[0].name, b[0].name) {
        let ta = a.drop_first();
        assert(forall|i: int| 0 <= i < ta.len() ==> (#[trigger] ta[i]) == a[i + 1]);
        lemma_merge_above(ta, b, f, head);
        let mt = spec_merge(ta, b, f);
        assert(m == seq![a[0]] + mt);
        assert forall|i: int| 0 <= i < m.len() implies storage_lt(head, (#[trigger] m[i]).name) by {
            if i > 0 {
                assert(m[i] == mt[i - 1]);
            }
        }
    } else if a.len() > 0 && storage_key(a[0].name) == storage_key(b[0].name) {
        let ta = a.drop_first();
        let tb = b.drop_first();
        assert(forall|i: int| 0 <= i < ta.len() ==> (#[trigger] ta[i]) == a[i + 1]);
        assert(forall|i: int| 0 <= i < tb.len() ==> (#[trigger] tb[i]) == b[i + 1]);
        lemma_merge_above(ta, tb, f, head);
        let kept = if filter_accepts(f, b[0].value) {
            merged_entry(a[0], b[0])
        } else {
            a[0]
        };
        let mt = spec_merge(ta, tb, f);
        assert(m == seq![kept] + mt);
        assert forall|i: int| 0 <= i < m.len() implies storage_lt(head, (#[trigger] m[i]).name) by {
            if i == 0 {
                assert(m[0] == kept);
                assert(storage_lt(head, a[0].name));
            } else {
                assert(m[i] == mt[i - 1]);
            }
        }
    } else {
        let tb = b.drop_first();
        assert(forall|i: int| 0 <= i < tb.len() ==> (#[trigger] tb[i]) == b[i + 1]);
        lemma_merge_above(a, tb, f, head);
        let mt = spec_merge(a, tb, f);
        if filter_accepts(f, b[0].value) {
            assert(m == seq![b[0]] + mt);
            assert forall|i: int| 0 <= i < m.len() implies storage_lt(
                head,
                (#[trigger] m[i]).name,
            ) by {
                if i > 0 {
                    assert(m[i] == mt[i - 1]);
                }
            }
        } else {
            assert(m == mt);
        }
    }
}

/// When every entry key is strictly below or strictly above the target
/// key, no entry holds it.
proof fn lemma_lookup_none(es: Seq<EntryModel>, target: NameModel, j: int)
    requires
        0 <= j <= es.len(),
        forall|i: int| 0 <= i < j ==> storage_lt(es[i].name, target),
        forall|i: int| j <= i < es.len() ==> storage_lt(target, es[i].name),
    ensures
        lookup(es, storage_key(target)) is None,
{
    lemma_lookup_mem(es, storage_key(target));
    if lookup(es, storage_key(target)) is Some {
        let i = choose|i: int|
            0 <= i < es.len() && storage_key(#[trigger] es[i].name) == storage_key(target);
        if i < j {
            assert(storage_lt(es[i].name, target));
        } else {
            assert(storage_lt(target, es[i].name));
        }
        assert(false);
    }
}

/// When sorted entries already hold the target key at index `i`,
/// [`spec_insert`] replaces the value there, keeping the stored key.
proof fn lemma_spec_insert_found(es: Seq<EntryModel>, name: NameModel, value: ComponentModel, i: int)
    requires
        entries_sorted(es),
        0 <= i < es.len(),
        storage_key(es[i].name) == storage_key(name),
    ensures
        spec_insert(es, name, value) == es.update(i, EntryModel { name: es[i].name, value }),
    decreases i,
{
    if i == 0 {
        assert(seq![EntryModel { name: es[0].name, value }] + es.drop_first() =~= es.update(
            0,
            EntryModel { name: es[0].name, value },
        ));
    } else {
        assert(storage_lt(es[0].name, es[i].name));
        let tail = es.drop_first();
        assert(entries_sorted(tail)) by {
            assert(forall|x: int|
                0 <= x < tail.len() ==> #[trigger] tail[x] == es[x + 1]);
        }
        assert(tail[i - 1] == es[i]);
        lemma_spec_insert_found(tail, name, value, i - 1);
        assert(spec_insert(es, name, value) == seq![es[0]] + tail.update(
            i - 1,
            EntryModel { name: es[i].name, value },
        ));
        assert(seq![es[0]] + tail.update(i - 1, EntryModel { name: es[i].name, value }) =~= es.update(
            i,
            EntryModel { name: es[i].name, value },
        ));
    }
}

/// When the target key is absent and `j` is its sorted position,
/// [`spec_insert`] splices the new entry in at `j`.
proof fn lemma_spec_insert_at(es: Seq<EntryModel>, name: NameModel, value: ComponentModel, j: int)
    requires
        entries_sorted(es),
        0 <= j <= es.len(),
        forall|i: int| 0 <= i < j ==> storage_lt(es[i].name, name),
        forall|i: int| j <= i < es.len() ==> storage_lt(name, es[i].name),
    ensures
        spec_insert(es, name, value) == es.take(j) + seq![EntryModel { name, value }] + es.skip(j),
    decreases j,
{
    if es.len() == 0 {
        assert(spec_insert(es, name, value) =~= es.take(j) + seq![EntryModel { name, value }]
            + es.skip(j));
    } else if j == 0 {
        assert(storage_lt(name, es[0].name));
        assert(seq![EntryModel { name, value }] + es =~= es.take(0) + seq![
            EntryModel { name, value },
        ] + es.skip(0));
    } else {
        assert(storage_lt(es[0].name, name));
        let tail = es.drop_first();
        assert(entries_sorted(tail)) by {
            assert(forall|x: int|
                0 <= x < tail.len() ==> #[trigger] tail[x] == es[x + 1]);
        }
        assert(forall|i: int| 0 <= i < j - 1 ==> storage_lt(#[trigger] tail[i].name, name)) by {
            assert(forall|i: int|
                0 <= i < tail.len() ==> #[trigger] tail[i] == es[i + 1]);
        }
        assert(forall|i: int|
            j - 1 <= i < tail.len() ==> storage_lt(name, #[trigger] tail[i].name)) by {
            assert(forall|i: int|
                0 <= i < tail.len() ==> #[trigger] tail[i] == es[i + 1]);
        }
        lemma_spec_insert_at(tail, name, value, j - 1);
        assert(spec_insert(es, name, value) == seq![es[0]] + (tail.take(j - 1) + seq![
            EntryModel { name, value },
        ] + tail.skip(j - 1)));
        assert(seq![es[0]] + (tail.take(j - 1) + seq![EntryModel { name, value }] + tail.skip(j - 1))
            =~= es.take(j) + seq![EntryModel { name, value }] + es.skip(j));
    }
}

} // verus!
