//! The set itself: a map from type identities to value holders, with at
//! most one held value per type.

use vstd::prelude::*;
use indexmap::IndexMap;
use crate::ident::Type;
use crate::holder::{Slot, SlotDefault, AllocationError};
use crate::table::{table_view, table_new, table_with_capacity, table_capacity, table_insert,
    table_get, table_clear, table_reserve, table_try_reserve, table_shrink_to_fit,
    table_shrink_to};

verus! {

/// A map that uses the identity of a value's type as its key.
///
/// The set holds values of one holder type `V`, at most one value for each
/// type token, and can hand a value back under the token it was filed
/// under. Lookups go through a table from token to position; the positions
/// index an insertion-ordered list of `(Type, value)` entries.
#[derive(Debug)]
pub struct SingletonSet<V: Slot> {
    table: IndexMap<u64, usize>,
    entries: Vec<(Type, V)>,
}

impl<V: Slot> Default for SingletonSet<V> {
    /// An empty set, as [`SingletonSet::new`] builds one.
    fn default() -> (s: Self)
        ensures
            s.wf(),
            s@ == Map::<u64, V>::empty(),
            s.type_seq() == Seq::<Type>::empty(),
    {
        Self::new()
    }
}

impl<V: Slot> View for SingletonSet<V> {
    type V = Map<u64, V>;

    /// The slots: each registered token mapped to the value held for it.
    closed spec fn view(&self) -> Map<u64, V> {
        SingletonSet::<V>::slots_of(table_view(self.table), self.entries@)
    }
}

impl<V: Slot> SingletonSet<V> {
    /// The slots described by a lookup table and an entry list.
    spec fn slots_of(tbl: Map<u64, usize>, entries: Seq<(Type, V)>) -> Map<u64, V> {
        Map::new(|k: u64| tbl.contains_key(k), |k: u64| entries[tbl[k] as int].1)
    }

    /// The identities recorded by an entry list, in order.
    spec fn types_of(entries: Seq<(Type, V)>) -> Seq<Type> {
        Seq::new(entries.len(), |i: int| entries[i].0)
    }

    /// The internal consistency of a table and an entry list: the table
    /// knows exactly the entries' tokens, maps each to the position holding
    /// it, and every entry's value carries the token it is filed under.
    spec fn wf_of(tbl: Map<u64, usize>, entries: Seq<(Type, V)>) -> bool {
        &&& tbl.dom().finite()
        &&& tbl.dom().len() == entries.len()
        &&& forall|k: u64| #[trigger] tbl.contains_key(k) ==> {
                &&& tbl[k] < entries.len()
                &&& entries[tbl[k] as int].0.id == k
                &&& entries[tbl[k] as int].1.spec_type().id == k
            }
        &&& forall|i: int| 0 <= i < entries.len() ==> {
                &&& tbl.contains_key(#[trigger] entries[i].0.id)
                &&& tbl[entries[i].0.id] == i
            }
    }

    /// The lookup table, from token to position in the entry list.
    spec fn tbl(&self) -> Map<u64, usize> {
        table_view(self.table)
    }

    /// The identities of the represented types, in insertion order.
    pub closed spec fn type_seq(&self) -> Seq<Type> {
        Self::types_of(self.entries@)
    }

    /// The internal consistency of a set; every operation keeps it, and
    /// every operation that hands out a mutable reference restores it as
    /// long as the caller leaves a value of the slot's own type behind.
    pub closed spec fn wf(&self) -> bool {
        Self::wf_of(self.tbl(), self.entries@)
    }

    /// The domain of the slots is exactly the table's key set.
    proof fn lemma_dom(&self)
        ensures
            self@.dom() =~= self.tbl().dom(),
    {
    }

    /// Replacing the value at an occupied position, while keeping the
    /// recorded identity, updates exactly that token's slot; it keeps the
    /// order of types and, for a value of the slot's own type, consistency.
    proof fn lemma_value_update(tbl: Map<u64, usize>, entries: Seq<(Type, V)>, k: u64)
        requires
            Self::wf_of(tbl, entries),
            tbl.contains_key(k),
        ensures
            forall|w: V| Self::slots_of(tbl, #[trigger] entries.update(tbl[k] as int, (entries[tbl[k] as int].0, w)))
                == Self::slots_of(tbl, entries).insert(k, w),
            forall|w: V| Self::types_of(#[trigger] entries.update(tbl[k] as int, (entries[tbl[k] as int].0, w)))
                == Self::types_of(entries),
            forall|w: V| w.spec_type().id == k
                ==> Self::wf_of(tbl, #[trigger] entries.update(tbl[k] as int, (entries[tbl[k] as int].0, w))),
    {
        let i = tbl[k] as int;
        let ty = entries[i].0;
        assert forall|k2: u64| tbl.contains_key(k2) && k2 != k implies tbl[k2] as int != i by {
            assert(entries[tbl[k2] as int].0.id == k2);
            assert(entries[i].0.id == k);
        }
        assert forall|w: V| Self::slots_of(tbl, #[trigger] entries.update(i, (ty, w)))
                == Self::slots_of(tbl, entries).insert(k, w) by {
            assert(Self::slots_of(tbl, entries.update(i, (ty, w)))
                =~= Self::slots_of(tbl, entries).insert(k, w));
        }
        assert forall|w: V| Self::types_of(#[trigger] entries.update(i, (ty, w)))
                == Self::types_of(entries) by {
            assert(Self::types_of(entries.update(i, (ty, w))) =~= Self::types_of(entries));
        }
        assert forall|w: V| w.spec_type().id == k
                implies Self::wf_of(tbl, #[trigger] entries.update(i, (ty, w))) by {
            let e2 = entries.update(i, (ty, w));
            assert(forall|i2: int| 0 <= i2 < e2.len() ==> (#[trigger] e2[i2]).0 == entries[i2].0);
        }
    }

    /// Filing a fresh token at the end of the entry list adds exactly that
    /// token's slot, appends its identity to the order, and keeps
    /// consistency for a value carrying the token.
    proof fn lemma_append(tbl: Map<u64, usize>, entries: Seq<(Type, V)>, t: Type, w: V, n: usize)
        requires
            Self::wf_of(tbl, entries),
            !tbl.contains_key(t.id),
            w.spec_type().id == t.id,
            n == entries.len(),
        ensures
            Self::wf_of(tbl.insert(t.id, n), entries.push((t, w))),
            Self::slots_of(tbl.insert(t.id, n), entries.push((t, w)))
                == Self::slots_of(tbl, entries).insert(t.id, w),
            Self::types_of(entries.push((t, w))) == Self::types_of(entries).push(t),
            tbl.insert(t.id, n).dom().len() == tbl.dom().len() + 1,
    {
        let tbl2 = tbl.insert(t.id, n);
        let e2 = entries.push((t, w));
        assert(tbl2.dom() =~= tbl.dom().insert(t.id));
        vstd::set::axiom_set_insert_len(tbl.dom(), t.id);
        assert forall|k2: u64| #[trigger] tbl2.contains_key(k2) implies {
            &&& tbl2[k2] < e2.len()
            &&& e2[tbl2[k2] as int].0.id == k2
            &&& e2[tbl2[k2] as int].1.spec_type().id == k2
        } by {
            if k2 != t.id {
                assert(tbl.contains_key(k2));
                assert(e2[tbl[k2] as int] == entries[tbl[k2] as int]);
            }
        }
        assert(Self::slots_of(tbl2, e2) =~= Self::slots_of(tbl, entries).insert(t.id, w));
        assert(Self::types_of(e2) =~= Self::types_of(entries).push(t));
    }

    /// Creates an empty set.
    ///
    /// The set starts with a capacity of zero, so it does not allocate
    /// until a value is inserted.
    pub fn new() -> (s: Self)
        ensures
            s.wf(),
            s@ == Map::<u64, V>::empty(),
            s.type_seq() == Seq::<Type>::empty(),
    {
        let s = SingletonSet { table: table_new(), entries: Vec::new() };
        proof {
            assert(s.tbl().dom() =~= Set::<u64>::empty());
            assert(s@ =~= Map::<u64, V>::empty());
            assert(s.type_seq() =~= Seq::<Type>::empty());
        }
        s
    }

    /// Creates an empty set with room for at least `capacity` values.
    ///
    /// The capacity is a hint: the set may allocate more, and holds no
    /// value until one is inserted.
    pub fn with_capacity(capacity: usize) -> (s: Self)
        ensures
            s.wf(),
            s@ == Map::<u64, V>::empty(),
            s.type_seq() == Seq::<Type>::empty(),
    {
        let s = SingletonSet {
            table: table_with_capacity(capacity),
            entries: Vec::with_capacity(capacity),
        };
        proof {
            assert(s.tbl().dom() =~= Set::<u64>::empty());
            assert(s@ =~= Map::<u64, V>::empty());
            assert(s.type_seq() =~= Seq::<Type>::empty());
        }
        s
    }

    /// Returns the number of values the set can hold without reallocating
    /// its lookup table. A hint, not a guarantee.
    pub fn capacity(&self) -> usize {
        table_capacity(&self.table)
    }

    /// Returns the number of types represented in the set.
    pub fn len(&self) -> (n: usize)
        requires
            self.wf(),
        ensures
            n == self@.len(),
    {
        proof {
            self.lemma_dom();
        }
        self.entries.len()
    }

    /// Returns true if the set holds no value.
    pub fn is_empty(&self) -> (r: bool)
        requires
            self.wf(),
        ensures
            r <==> self@.len() == 0,
    {
        proof {
            self.lemma_dom();
        }
        self.entries.len() == 0
    }

    /// Clears the set, dropping every held value. No single slot can be
    /// emptied on its own: clearing the whole set is the only removal.
    pub fn clear(&mut self)
        requires
            old(self).wf(),
        ensures
            final(self).wf(),
            final(self)@ == Map::<u64, V>::empty(),
            final(self).type_seq() == Seq::<Type>::empty(),
    {
        table_clear(&mut self.table);
        self.entries.clear();
        proof {
            assert(final(self).tbl().dom() =~= Set::<u64>::empty());
            assert(final(self)@ =~= Map::<u64, V>::empty());
            assert(final(self).type_seq() =~= Seq::<Type>::empty());
        }
    }

    /// Makes room for at least `additional` more values; the slots and
    /// their order are untouched.
    pub fn reserve(&mut self, additional: usize)
        requires
            old(self).wf(),
            old(self)@.len() + additional <= usize::MAX,
        ensures
            final(self).wf(),
            final(self)@ == old(self)@,
            final(self).type_seq() == old(self).type_seq(),
    {
        proof {
            self.lemma_dom();
        }
        table_reserve(&mut self.table, additional);
        self.entries.reserve(additional);
    }

    /// Tries to make room for at least `additional` more values. Whether
    /// the reservation succeeds or fails, the slots and their order are
    /// untouched: a failed reservation is reported, never absorbed into
    /// the contents.
    pub fn try_reserve(&mut self, additional: usize) -> (r: Result<(), AllocationError>)
        requires
            old(self).wf(),
        ensures
            final(self).wf(),
            final(self)@ == old(self)@,
            final(self).type_seq() == old(self).type_seq(),
    {
        match table_try_reserve(&mut self.table, additional) {
            Ok(()) => Ok(()),
            Err(_) => Err(AllocationError),
        }
    }

    /// Gives unneeded room back; the slots and their order are untouched.
    pub fn shrink_to_fit(&mut self)
        requires
            old(self).wf(),
        ensures
            final(self).wf(),
            final(self)@ == old(self)@,
            final(self).type_seq() == old(self).type_seq(),
    {
        table_shrink_to_fit(&mut self.table);
    }

    /// Gives unneeded room back, keeping at least `min_capacity`; the
    /// slots and their order are untouched.
    pub fn shrink_to(&mut self, min_capacity: usize)
        requires
            old(self).wf(),
        ensures
            final(self).wf(),
            final(self)@ == old(self)@,
            final(self).type_seq() == old(self).type_seq(),
    {
        table_shrink_to(&mut self.table, min_capacity);
    }

    /// Returns true if the type `t` denotes is represented in the set.
    pub fn contains_type(&self, t: &Type) -> (r: bool)
        requires
            self.wf(),
        ensures
            r == self@.contains_key(t.id),
    {
        table_get(&self.table, t.id).is_some()
    }

    /// Returns true if the type `t` denotes is represented in the set.
    pub fn contains(&self, t: &Type) -> (r: bool)
        requires
            self.wf(),
        ensures
            r == self@.contains_key(t.id),
    {
        self.contains_type(t)
    }

    /// Returns true if the concrete type of `value` is represented in the
    /// set; `value` itself is only asked for its type.
    pub fn contains_type_of(&self, value: &V) -> (r: bool)
        requires
            self.wf(),
        ensures
            r == self@.contains_key(value.spec_type().id),
    {
        let t = value.type_of();
        self.contains_type(&t)
    }

    /// Inserts a value into its type's slot, displacing and returning the
    /// value held there before, if any.
    ///
    /// This is the one unconditional overwrite: afterwards the slot holds
    /// exactly `value`, whatever it held before, and no other slot has
    /// changed.
    pub fn insert(&mut self, value: V) -> (displaced: Option<V>)
        requires
            old(self).wf(),
        ensures
            final(self).wf(),
            final(self)@ == old(self)@.insert(value.spec_type().id, value),
            match displaced {
                Some(v) => old(self)@.contains_key(value.spec_type().id)
                    && v == old(self)@[value.spec_type().id],
                None => !old(self)@.contains_key(value.spec_type().id),
            },
            final(self)@.len() == old(self)@.len()
                + (if old(self)@.contains_key(value.spec_type().id) { 0int } else { 1int }),
            old(self)@.contains_key(value.spec_type().id)
                ==> final(self).type_seq() == old(self).type_seq(),
            !old(self)@.contains_key(value.spec_type().id)
                ==> final(self).type_seq() == old(self).type_seq().push(value.spec_type()),
    {
        let t = value.type_of();
        proof {
            old(self).lemma_dom();
        }
        match table_get(&self.table, t.id) {
            Some(i) => {
                proof {
                    Self::lemma_value_update(old(self).tbl(), old(self).entries@, t.id);
                }
                let mut v = value;
                core::mem::swap(&mut self.entries[i].1, &mut v);
                proof {
                    final(self).lemma_dom();
                    assert(final(self)@.dom() =~= old(self)@.dom());
                }
                Some(v)
            },
            None => {
                let i: usize = self.entries.len();
                proof {
                    Self::lemma_append(old(self).tbl(), old(self).entries@, t, value, i);
                }
                table_insert(&mut self.table, t.id, i);
                self.entries.push((t, value));
                proof {
                    final(self).lemma_dom();
                }
                None
            },
        }
    }

    /// Returns a reference to the value held for the type `t` denotes, if
    /// one exists. Never inserts, and so works on a set held immutably and
    /// with types that have no default.
    ///
    /// The value handed back always carries the token it was looked up
    /// under: recovering the concrete value from the holder cannot go
    /// wrong.
    pub fn try_as_ref(&self, t: &Type) -> (r: Option<&V>)
        requires
            self.wf(),
        ensures
            match r {
                Some(v) => self@.contains_key(t.id) && *v == self@[t.id]
                    && v.spec_type().id == t.id,
                None => !self@.contains_key(t.id),
            },
    {
        proof {
            self.lemma_dom();
        }
        match table_get(&self.table, t.id) {
            Some(i) => Some(&self.entries[i].1),
            None => None,
        }
    }

    /// Returns a reference to the value held for the type `t` denotes, if
    /// one exists. An alias for [`Self::try_as_ref`].
    pub fn try_get(&self, t: &Type) -> (r: Option<&V>)
        requires
            self.wf(),
        ensures
            match r {
                Some(v) => self@.contains_key(t.id) && *v == self@[t.id]
                    && v.spec_type().id == t.id,
                None => !self@.contains_key(t.id),
            },
    {
        self.try_as_ref(t)
    }

    /// Returns a reference to the value held for the type `t` denotes,
    /// which must be represented in the set: absence is a caller error
    /// here, and is ruled out rather than reported. Use [`Self::try_as_ref`]
    /// or a defaulting accessor when absence is expected.
    pub fn as_ref(&self, t: &Type) -> (r: &V)
        requires
            self.wf(),
            self@.contains_key(t.id),
        ensures
            *r == self@[t.id],
            r.spec_type().id == t.id,
    {
        self.try_as_ref(t).unwrap()
    }

    /// Returns a reference to the value held for the type `t` denotes,
    /// which must be represented in the set. An alias for [`Self::as_ref`].
    pub fn get(&self, t: &Type) -> (r: &V)
        requires
            self.wf(),
            self@.contains_key(t.id),
        ensures
            *r == self@[t.id],
            r.spec_type().id == t.id,
    {
        self.as_ref(t)
    }

    /// Returns a mutable reference to the value held for the type `t`
    /// denotes, if one exists. Never inserts.
    ///
    /// The set stays consistent as long as the caller leaves a value of
    /// the slot's own type behind.
    pub fn try_as_mut(&mut self, t: &Type) -> (r: Option<&mut V>)
        requires
            old(self).wf(),
        ensures
            match r {
                Some(m) => old(self)@.contains_key(t.id)
                    && *m == old(self)@[t.id]
                    && m.spec_type().id == t.id
                    && final(self)@ == old(self)@.insert(t.id, *final(m))
                    && final(self).type_seq() == old(self).type_seq()
                    && (final(m).spec_type().id == t.id ==> final(self).wf()),
                None => !old(self)@.contains_key(t.id)
                    && final(self)@ == old(self)@
                    && final(self).type_seq() == old(self).type_seq()
                    && final(self).wf(),
            },
    {
        proof {
            self.lemma_dom();
        }
        match table_get(&self.table, t.id) {
            Some(i) => {
                proof {
                    Self::lemma_value_update(self.tbl(), self.entries@, t.id);
                    assert(self@.insert(t.id, self@[t.id]) =~= self@);
                }
                Some(&mut self.entries[i].1)
            },
            None => None,
        }
    }

    /// Returns a mutable reference to the value held for the type `t`
    /// denotes, if one exists. An alias for [`Self::try_as_mut`].
    pub fn try_get_mut(&mut self, t: &Type) -> (r: Option<&mut V>)
        requires
            old(self).wf(),
        ensures
            match r {
                Some(m) => old(self)@.contains_key(t.id)
                    && *m == old(self)@[t.id]
                    && m.spec_type().id == t.id
                    && final(self)@ == old(self)@.insert(t.id, *final(m))
                    && final(self).type_seq() == old(self).type_seq()
                    && (final(m).spec_type().id == t.id ==> final(self).wf()),
                None => !old(self)@.contains_key(t.id)
                    && final(self)@ == old(self)@
                    && final(self).type_seq() == old(self).type_seq()
                    && final(self).wf(),
            },
    {
        self.try_as_mut(t)
    }

    /// Returns a reference to the value held for the supplied value's
    /// type, first filing `value` there if the type was not represented.
    ///
    /// An occupied slot is left exactly as it was: `value` is then unused.
    pub fn as_ref_or_insert(&mut self, value: V) -> (r: &V)
        requires
            old(self).wf(),
        ensures
            final(self).wf(),
            r.spec_type().id == value.spec_type().id,
            old(self)@.contains_key(value.spec_type().id) ==> *r == old(self)@[value.spec_type().id]
                && final(self)@ == old(self)@
                && final(self).type_seq() == old(self).type_seq(),
            !old(self)@.contains_key(value.spec_type().id) ==> *r == value
                && final(self)@ == old(self)@.insert(value.spec_type().id, value)
                && final(self).type_seq() == old(self).type_seq().push(value.spec_type()),
    {
        let t = value.type_of();
        proof {
            self.lemma_dom();
        }
        let i: usize;
        match table_get(&self.table, t.id) {
            Some(j) => {
                i = j;
            },
            None => {
                i = self.entries.len();
                proof {
                    Self::lemma_append(self.tbl(), self.entries@, t, value, i);
                }
                table_insert(&mut self.table, t.id, i);
                self.entries.push((t, value));
                proof {
                    final(self).lemma_dom();
                }
            },
        }
        &self.entries[i].1
    }

    /// Returns a reference to the value held for the supplied value's
    /// type, first filing `value` there if the type was not represented.
    /// An alias for [`Self::as_ref_or_insert`].
    pub fn get_or_insert(&mut self, value: V) -> (r: &V)
        requires
            old(self).wf(),
        ensures
            final(self).wf(),
            r.spec_type().id == value.spec_type().id,
            old(self)@.contains_key(value.spec_type().id) ==> *r == old(self)@[value.spec_type().id]
                && final(self)@ == old(self)@
                && final(self).type_seq() == old(self).type_seq(),
            !old(self)@.contains_key(value.spec_type().id) ==> *r == value
                && final(self)@ == old(self)@.insert(value.spec_type().id, value)
                && final(self).type_seq() == old(self).type_seq().push(value.spec_type()),
    {
        self.as_ref_or_insert(value)
    }

    /// Returns a mutable reference to the value held for the supplied
    /// value's type, first filing `value` there if the type was not
    /// represented. An occupied slot keeps its value: `value` is then
    /// unused.
    pub fn as_mut_or_insert(&mut self, value: V) -> (r: &mut V)
        requires
            old(self).wf(),
        ensures
            *r == (if old(self)@.contains_key(value.spec_type().id) {
                old(self)@[value.spec_type().id]
            } else {
                value
            }),
            final(self)@ == old(self)@.insert(value.spec_type().id, *final(r)),
            old(self)@.contains_key(value.spec_type().id)
                ==> final(self).type_seq() == old(self).type_seq(),
            !old(self)@.contains_key(value.spec_type().id)
                ==> final(self).type_seq() == old(self).type_seq().push(value.spec_type()),
            final(r).spec_type().id == value.spec_type().id ==> final(self).wf(),
    {
        let t = value.type_of();
        proof {
            self.lemma_dom();
        }
        let i: usize;
        match table_get(&self.table, t.id) {
            Some(j) => {
                i = j;
            },
            None => {
                i = self.entries.len();
                proof {
                    Self::lemma_append(self.tbl(), self.entries@, t, value, i);
                }
                table_insert(&mut self.table, t.id, i);
                self.entries.push((t, value));
                proof {
                    final(self).lemma_dom();
                }
            },
        }
        proof {
            Self::lemma_value_update(self.tbl(), self.entries@, t.id);
            assert(self@.insert(t.id, self@[t.id]) =~= self@);
            if !old(self)@.contains_key(t.id) {
                assert forall|w: V| old(self)@.insert(t.id, value).insert(t.id, w)
                    =~= old(self)@.insert(t.id, w) by {}
            }
        }
        &mut self.entries[i].1
    }

    /// Returns a mutable reference to the value held for the supplied
    /// value's type, first filing `value` there if the type was not
    /// represented. An alias for [`Self::as_mut_or_insert`].
    pub fn get_or_insert_mut(&mut self, value: V) -> (r: &mut V)
        requires
            old(self).wf(),
        ensures
            *r == (if old(self)@.contains_key(value.spec_type().id) {
                old(self)@[value.spec_type().id]
            } else {
                value
            }),
            final(self)@ == old(self)@.insert(value.spec_type().id, *final(r)),
            old(self)@.contains_key(value.spec_type().id)
                ==> final(self).type_seq() == old(self).type_seq(),
            !old(self)@.contains_key(value.spec_type().id)
                ==> final(self).type_seq() == old(self).type_seq().push(value.spec_type()),
            final(r).spec_type().id == value.spec_type().id ==> final(self).wf(),
    {
        self.as_mut_or_insert(value)
    }

    /// Returns a reference to the value held for the type `t` denotes,
    /// first filing the factory's value there if the type was not
    /// represented. The factory runs only on a miss, and exactly once; an
    /// occupied slot is left exactly as it was.
    pub fn as_ref_or_insert_with<F: FnOnce() -> V>(&mut self, t: &Type, default: F) -> (r: &V)
        requires
            old(self).wf(),
            !old(self)@.contains_key(t.id) ==> call_requires(default, ()),
            forall|v: V| call_ensures(default, (), v) ==> v.spec_type().id == t.id,
        ensures
            final(self).wf(),
            r.spec_type().id == t.id,
            old(self)@.contains_key(t.id) ==> *r == old(self)@[t.id]
                && final(self)@ == old(self)@
                && final(self).type_seq() == old(self).type_seq(),
            !old(self)@.contains_key(t.id) ==> call_ensures(default, (), *r)
                && final(self)@ == old(self)@.insert(t.id, *r)
                && final(self).type_seq() == old(self).type_seq().push(*t),
    {
        proof {
            self.lemma_dom();
        }
        let i: usize;
        match table_get(&self.table, t.id) {
            Some(j) => {
                i = j;
            },
            None => {
                let d = default();
                i = self.entries.len();
                proof {
                    Self::lemma_append(self.tbl(), self.entries@, *t, d, i);
                }
                table_insert(&mut self.table, t.id, i);
                self.entries.push((*t, d));
                proof {
                    final(self).lemma_dom();
                }
            },
        }
        &self.entries[i].1
    }

    /// Returns a reference to the value held for the type `t` denotes,
    /// first filing the factory's value there if the type was not
    /// represented. An alias for [`Self::as_ref_or_insert_with`].
    pub fn get_or_insert_with<F: FnOnce() -> V>(&mut self, t: &Type, default: F) -> (r: &V)
        requires
            old(self).wf(),
            !old(self)@.contains_key(t.id) ==> call_requires(default, ()),
            forall|v: V| call_ensures(default, (), v) ==> v.spec_type().id == t.id,
        ensures
            final(self).wf(),
            r.spec_type().id == t.id,
            old(self)@.contains_key(t.id) ==> *r == old(self)@[t.id]
                && final(self)@ == old(self)@
                && final(self).type_seq() == old(self).type_seq(),
            !old(self)@.contains_key(t.id) ==> call_ensures(default, (), *r)
                && final(self)@ == old(self)@.insert(t.id, *r)
                && final(self).type_seq() == old(self).type_seq().push(*t),
    {
        self.as_ref_or_insert_with(t, default)
    }

    /// Returns a mutable reference to the value held for the type `t`
    /// denotes, first filing the factory's value there if the type was not
    /// represented. The factory runs only on a miss, and exactly once; an
    /// occupied slot keeps its value.
    pub fn as_mut_or_insert_with<F: FnOnce() -> V>(&mut self, t: &Type, default: F) -> (r: &mut V)
        requires
            old(self).wf(),
            !old(self)@.contains_key(t.id) ==> call_requires(default, ()),
            forall|v: V| call_ensures(default, (), v) ==> v.spec_type().id == t.id,
        ensures
            old(self)@.contains_key(t.id) ==> *r == old(self)@[t.id]
                && final(self).type_seq() == old(self).type_seq(),
            !old(self)@.contains_key(t.id) ==> call_ensures(default, (), *r)
                && final(self).type_seq() == old(self).type_seq().push(*t),
            final(self)@ == old(self)@.insert(t.id, *final(r)),
            final(r).spec_type().id == t.id ==> final(self).wf(),
    {
        proof {
            self.lemma_dom();
        }
        let i: usize;
        match table_get(&self.table, t.id) {
            Some(j) => {
                i = j;
            },
            None => {
                let d = default();
                i = self.entries.len();
                proof {
                    Self::lemma_append(self.tbl(), self.entries@, *t, d, i);
                }
                table_insert(&mut self.table, t.id, i);
                self.entries.push((*t, d));
                proof {
                    final(self).lemma_dom();
                }
            },
        }
        proof {
            Self::lemma_value_update(self.tbl(), self.entries@, t.id);
            assert(self@.insert(t.id, self@[t.id]) =~= self@);
            if !old(self)@.contains_key(t.id) {
                assert forall|w: V| old(self)@.insert(t.id, self@[t.id]).insert(t.id, w)
                    =~= old(self)@.insert(t.id, w) by {}
            }
        }
        &mut self.entries[i].1
    }

    /// Returns a mutable reference to the value held for the type `t`
    /// denotes, first filing the factory's value there if the type was not
    /// represented. An alias for [`Self::as_mut_or_insert_with`].
    pub fn get_or_insert_with_mut<F: FnOnce() -> V>(&mut self, t: &Type, default: F) -> (r: &mut V)
        requires
            old(self).wf(),
            !old(self)@.contains_key(t.id) ==> call_requires(default, ()),
            forall|v: V| call_ensures(default, (), v) ==> v.spec_type().id == t.id,
        ensures
            old(self)@.contains_key(t.id) ==> *r == old(self)@[t.id]
                && final(self).type_seq() == old(self).type_seq(),
            !old(self)@.contains_key(t.id) ==> call_ensures(default, (), *r)
                && final(self).type_seq() == old(self).type_seq().push(*t),
            final(self)@ == old(self)@.insert(t.id, *final(r)),
            final(r).spec_type().id == t.id ==> final(self).wf(),
    {
        self.as_mut_or_insert_with(t, default)
    }

    /// Inserts the factory's value into its type's slot, displacing and
    /// returning the value held there before, if any. The factory runs
    /// exactly once: this is an overwrite, not an insert-if-absent.
    pub fn insert_with<F: FnOnce() -> V>(&mut self, f: F) -> (displaced: Option<V>)
        requires
            old(self).wf(),
            call_requires(f, ()),
        ensures
            final(self).wf(),
            (exists|v: V| {
                &&& #[trigger] call_ensures(f, (), v)
                &&& final(self)@ == old(self)@.insert(v.spec_type().id, v)
                &&& (match displaced {
                    Some(d) => old(self)@.contains_key(v.spec_type().id)
                        && d == old(self)@[v.spec_type().id],
                    None => !old(self)@.contains_key(v.spec_type().id),
                })
                &&& (old(self)@.contains_key(v.spec_type().id)
                    ==> final(self).type_seq() == old(self).type_seq())
                &&& (!old(self)@.contains_key(v.spec_type().id)
                    ==> final(self).type_seq() == old(self).type_seq().push(v.spec_type()))
            }),
    {
        let v = f();
        self.insert(v)
    }

    /// Calls `f` with the value of the type `t` denotes if one is held,
    /// and with nothing otherwise, returning what `f` returns. Never
    /// initialises an empty slot.
    pub fn try_with_ref<R, F: FnOnce(Option<&V>) -> R>(&self, t: &Type, f: F) -> (r: R)
        requires
            self.wf(),
            self@.contains_key(t.id) ==> (forall|v: &V| *v == self@[t.id]
                && v.spec_type().id == t.id ==> call_requires(f, (Some(v),))),
            !self@.contains_key(t.id) ==> call_requires(f, (None::<&V>,)),
        ensures
            self@.contains_key(t.id) ==> (exists|v: &V| *v == self@[t.id]
                && call_ensures(f, (Some(v),), r)),
            !self@.contains_key(t.id) ==> call_ensures(f, (None::<&V>,), r),
    {
        f(self.try_as_ref(t))
    }

    /// Calls `f` with the value held for the type `t` denotes, returning
    /// what `f` returns. The type must be represented in the set: absence
    /// is ruled out here, as with [`Self::as_ref`].
    pub fn with_ref<R, F: FnOnce(&V) -> R>(&self, t: &Type, f: F) -> (r: R)
        requires
            self.wf(),
            self@.contains_key(t.id),
            forall|v: &V| *v == self@[t.id] && v.spec_type().id == t.id
                ==> call_requires(f, (v,)),
        ensures
            exists|v: &V| *v == self@[t.id] && call_ensures(f, (v,), r),
    {
        f(self.as_ref(t))
    }

    /// Files `default` under its type if that type was not represented,
    /// then calls `f` with the value held there, returning what `f`
    /// returns.
    pub fn with_ref_or<R, F: FnOnce(&V) -> R>(&mut self, default: V, f: F) -> (r: R)
        requires
            old(self).wf(),
            forall|v: &V| *v == (if old(self)@.contains_key(default.spec_type().id) {
                old(self)@[default.spec_type().id]
            } else {
                default
            }) ==> call_requires(f, (v,)),
        ensures
            final(self).wf(),
            (exists|v: &V| *v == (if old(self)@.contains_key(default.spec_type().id) {
                old(self)@[default.spec_type().id]
            } else {
                default
            }) && call_ensures(f, (v,), r)),
            old(self)@.contains_key(default.spec_type().id) ==> final(self)@ == old(self)@
                && final(self).type_seq() == old(self).type_seq(),
            !old(self)@.contains_key(default.spec_type().id)
                ==> final(self)@ == old(self)@.insert(default.spec_type().id, default)
                && final(self).type_seq() == old(self).type_seq().push(default.spec_type()),
    {
        let v = self.as_ref_or_insert(default);
        f(v)
    }

    /// Files the factory's value under the type `t` denotes if that type
    /// was not represented, then calls `f` with the value held there,
    /// returning what `f` returns. The factory runs only on a miss.
    pub fn with_ref_or_else<R, D: FnOnce() -> V, F: FnOnce(&V) -> R>(
        &mut self,
        t: &Type,
        default: D,
        f: F,
    ) -> (r: R)
        requires
            old(self).wf(),
            !old(self)@.contains_key(t.id) ==> call_requires(default, ()),
            forall|v: V| call_ensures(default, (), v) ==> v.spec_type().id == t.id,
            old(self)@.contains_key(t.id) ==> (forall|v: &V| *v == old(self)@[t.id]
                && v.spec_type().id == t.id ==> call_requires(f, (v,))),
            !old(self)@.contains_key(t.id) ==> (forall|v: &V| call_ensures(default, (), *v)
                ==> call_requires(f, (v,))),
        ensures
            final(self).wf(),
            old(self)@.contains_key(t.id) ==> final(self)@ == old(self)@
                && final(self).type_seq() == old(self).type_seq()
                && (exists|v: &V| *v == old(self)@[t.id] && call_ensures(f, (v,), r)),
            !old(self)@.contains_key(t.id)
                ==> final(self).type_seq() == old(self).type_seq().push(*t)
                && (exists|v: &V| call_ensures(default, (), *v)
                    && final(self)@ == old(self)@.insert(t.id, *v)
                    && call_ensures(f, (v,), r)),
    {
        let v = self.as_ref_or_insert_with(t, default);
        f(v)
    }

    /// Calls `f` with the value of the type `t` denotes held mutably if
    /// one is held, and with nothing otherwise, returning what `f`
    /// returns. Never initialises an empty slot.
    pub fn try_with_mut<R, F: FnOnce(Option<&mut V>) -> R>(&mut self, t: &Type, f: F) -> (r: R)
        requires
            old(self).wf(),
            old(self)@.contains_key(t.id) ==> (forall|m: &mut V| *m == old(self)@[t.id]
                ==> call_requires(f, (Some(m),))),
            !old(self)@.contains_key(t.id) ==> call_requires(f, (None::<&mut V>,)),
        ensures
            final(self).type_seq() == old(self).type_seq(),
            old(self)@.contains_key(t.id) ==> (exists|m: &mut V| {
                &&& *m == old(self)@[t.id]
                &&& call_ensures(f, (Some(m),), r)
                &&& final(self)@ == old(self)@.insert(t.id, *final(m))
                &&& (final(m).spec_type().id == t.id ==> final(self).wf())
            }),
            !old(self)@.contains_key(t.id) ==> call_ensures(f, (None::<&mut V>,), r)
                && final(self)@ == old(self)@
                && final(self).wf(),
    {
        match self.try_as_mut(t) {
            Some(m) => f(Some(m)),
            None => f(None),
        }
    }

    /// Files `default` under its type if that type was not represented,
    /// then calls `f` with the value held there, mutably, returning what
    /// `f` returns.
    pub fn with_mut_or<R, F: FnOnce(&mut V) -> R>(&mut self, default: V, f: F) -> (r: R)
        requires
            old(self).wf(),
            forall|m: &mut V| *m == (if old(self)@.contains_key(default.spec_type().id) {
                old(self)@[default.spec_type().id]
            } else {
                default
            }) ==> call_requires(f, (m,)),
        ensures
            (exists|m: &mut V| {
                &&& *m == (if old(self)@.contains_key(default.spec_type().id) {
                    old(self)@[default.spec_type().id]
                } else {
                    default
                })
                &&& call_ensures(f, (m,), r)
                &&& final(self)@ == old(self)@.insert(default.spec_type().id, *final(m))
                &&& (final(m).spec_type().id == default.spec_type().id ==> final(self).wf())
            }),
            old(self)@.contains_key(default.spec_type().id)
                ==> final(self).type_seq() == old(self).type_seq(),
            !old(self)@.contains_key(default.spec_type().id)
                ==> final(self).type_seq() == old(self).type_seq().push(default.spec_type()),
    {
        let m = self.as_mut_or_insert(default);
        f(m)
    }

    /// Files the factory's value under the type `t` denotes if that type
    /// was not represented, then calls `f` with the value held there,
    /// mutably, returning what `f` returns. The factory runs only on a
    /// miss.
    pub fn with_mut_or_else<R, D: FnOnce() -> V, F: FnOnce(&mut V) -> R>(
        &mut self,
        t: &Type,
        default: D,
        f: F,
    ) -> (r: R)
        requires
            old(self).wf(),
            !old(self)@.contains_key(t.id) ==> call_requires(default, ()),
            forall|v: V| call_ensures(default, (), v) ==> v.spec_type().id == t.id,
            old(self)@.contains_key(t.id) ==> (forall|m: &mut V| *m == old(self)@[t.id]
                ==> call_requires(f, (m,))),
            !old(self)@.contains_key(t.id) ==> (forall|m: &mut V| call_ensures(default, (), *m)
                ==> call_requires(f, (m,))),
        ensures
            old(self)@.contains_key(t.id)
                ==> final(self).type_seq() == old(self).type_seq()
                && (exists|m: &mut V| {
                    &&& *m == old(self)@[t.id]
                    &&& call_ensures(f, (m,), r)
                    &&& final(self)@ == old(self)@.insert(t.id, *final(m))
                    &&& (final(m).spec_type().id == t.id ==> final(self).wf())
                }),
            !old(self)@.contains_key(t.id)
                ==> final(self).type_seq() == old(self).type_seq().push(*t)
                && (exists|m: &mut V| {
                    &&& call_ensures(default, (), *m)
                    &&& call_ensures(f, (m,), r)
                    &&& final(self)@ == old(self)@.insert(t.id, *final(m))
                    &&& (final(m).spec_type().id == t.id ==> final(self).wf())
                }),
    {
        let m = self.as_mut_or_insert_with(t, default);
        f(m)
    }

    /// Returns a one-pass walk over the identities of the represented
    /// types, in their insertion order. The walk holds its own copy of the
    /// identities: it stays valid however the set is used afterwards.
    pub fn types(&self) -> (it: Types)
        requires
            self.wf(),
        ensures
            it.wf(),
            it.remaining() == self.type_seq(),
    {
        let mut items: Vec<Type> = Vec::new();
        let n: usize = self.entries.len();
        let mut j: usize = 0;
        while j < n
            invariant
                j <= n,
                n == self.entries@.len(),
                items@.len() == j as int,
                forall|q: int| 0 <= q < j ==> items@[q] == self.entries@[q].0,
            decreases n - j,
        {
            let t = self.entries[j].0;
            items.push(t);
            j = j + 1;
        }
        let it = Types { items, pos: 0 };
        proof {
            assert(it.remaining() =~= self.type_seq());
        }
        it
    }
}

impl<V: SlotDefault> SingletonSet<V> {
    /// Returns a mutable reference to the value held for the type `t`
    /// denotes, first filing that type's default value there if the type
    /// was not represented. The default is built only on that first
    /// access; later accesses see the value as last left, mutations
    /// included.
    pub fn as_mut(&mut self, t: &Type) -> (r: &mut V)
        requires
            old(self).wf(),
            V::has_default(t.id),
        ensures
            old(self)@.contains_key(t.id) ==> *r == old(self)@[t.id]
                && final(self).type_seq() == old(self).type_seq(),
            !old(self)@.contains_key(t.id) ==> V::is_default(t.id, *r)
                && final(self).type_seq() == old(self).type_seq().push(*t),
            final(self)@ == old(self)@.insert(t.id, *final(r)),
            final(r).spec_type().id == t.id ==> final(self).wf(),
    {
        proof {
            self.lemma_dom();
        }
        let i: usize;
        match table_get(&self.table, t.id) {
            Some(j) => {
                i = j;
            },
            None => {
                let d = V::default_for(t);
                i = self.entries.len();
                proof {
                    Self::lemma_append(self.tbl(), self.entries@, *t, d, i);
                }
                table_insert(&mut self.table, t.id, i);
                self.entries.push((*t, d));
                proof {
                    final(self).lemma_dom();
                }
            },
        }
        proof {
            Self::lemma_value_update(self.tbl(), self.entries@, t.id);
            assert(self@.insert(t.id, self@[t.id]) =~= self@);
            if !old(self)@.contains_key(t.id) {
                assert forall|w: V| old(self)@.insert(t.id, self@[t.id]).insert(t.id, w)
                    =~= old(self)@.insert(t.id, w) by {}
            }
        }
        &mut self.entries[i].1
    }

    /// Returns a mutable reference to the value held for the type `t`
    /// denotes, first filing that type's default value there if the type
    /// was not represented. An alias for [`Self::as_mut`].
    pub fn get_mut(&mut self, t: &Type) -> (r: &mut V)
        requires
            old(self).wf(),
            V::has_default(t.id),
        ensures
            old(self)@.contains_key(t.id) ==> *r == old(self)@[t.id]
                && final(self).type_seq() == old(self).type_seq(),
            !old(self)@.contains_key(t.id) ==> V::is_default(t.id, *r)
                && final(self).type_seq() == old(self).type_seq().push(*t),
            final(self)@ == old(self)@.insert(t.id, *final(r)),
            final(r).spec_type().id == t.id ==> final(self).wf(),
    {
        self.as_mut(t)
    }

    /// Inserts the default value of the type `t` denotes into that type's
    /// slot, displacing and returning the value held there before, if any.
    pub fn insert_default(&mut self, t: &Type) -> (displaced: Option<V>)
        requires
            old(self).wf(),
            V::has_default(t.id),
        ensures
            final(self).wf(),
            (exists|d: V| {
                &&& #[trigger] V::is_default(t.id, d)
                &&& d.spec_type().id == t.id
                &&& final(self)@ == old(self)@.insert(t.id, d)
                &&& (!old(self)@.contains_key(t.id)
                    ==> final(self).type_seq() == old(self).type_seq().push(d.spec_type()))
            }),
            match displaced {
                Some(d) => old(self)@.contains_key(t.id) && d == old(self)@[t.id],
                None => !old(self)@.contains_key(t.id),
            },
            old(self)@.contains_key(t.id) ==> final(self).type_seq() == old(self).type_seq(),
    {
        let v = V::default_for(t);
        self.insert(v)
    }

    /// Files the default value of the type `t` denotes under it if that
    /// type was not represented, then calls `f` with the value held there,
    /// returning what `f` returns.
    pub fn with_ref_or_default<R, F: FnOnce(&V) -> R>(&mut self, t: &Type, f: F) -> (r: R)
        requires
            old(self).wf(),
            V::has_default(t.id),
            old(self)@.contains_key(t.id) ==> (forall|v: &V| *v == old(self)@[t.id]
                && v.spec_type().id == t.id ==> call_requires(f, (v,))),
            !old(self)@.contains_key(t.id) ==> (forall|v: &V| V::is_default(t.id, *v)
                && v.spec_type().id == t.id ==> call_requires(f, (v,))),
        ensures
            final(self).wf(),
            old(self)@.contains_key(t.id) ==> final(self)@ == old(self)@
                && final(self).type_seq() == old(self).type_seq()
                && (exists|v: &V| *v == old(self)@[t.id] && call_ensures(f, (v,), r)),
            !old(self)@.contains_key(t.id) ==> (exists|v: &V| {
                &&& V::is_default(t.id, *v)
                &&& v.spec_type().id == t.id
                &&& final(self)@ == old(self)@.insert(t.id, *v)
                &&& final(self).type_seq() == old(self).type_seq().push(v.spec_type())
                &&& call_ensures(f, (v,), r)
            }),
    {
        let d = V::default_for(t);
        let v = self.as_ref_or_insert(d);
        f(v)
    }

    /// Calls `f` with the value held for the type `t` denotes, mutably,
    /// first filing that type's default value there if the type was not
    /// represented, and returns what `f` returns.
    pub fn with_mut<R, F: FnOnce(&mut V) -> R>(&mut self, t: &Type, f: F) -> (r: R)
        requires
            old(self).wf(),
            V::has_default(t.id),
            old(self)@.contains_key(t.id) ==> (forall|m: &mut V| *m == old(self)@[t.id]
                ==> call_requires(f, (m,))),
            !old(self)@.contains_key(t.id) ==> (forall|m: &mut V| V::is_default(t.id, *m)
                ==> call_requires(f, (m,))),
        ensures
            old(self)@.contains_key(t.id)
                ==> final(self).type_seq() == old(self).type_seq()
                && (exists|m: &mut V| {
                    &&& *m == old(self)@[t.id]
                    &&& call_ensures(f, (m,), r)
                    &&& final(self)@ == old(self)@.insert(t.id, *final(m))
                    &&& (final(m).spec_type().id == t.id ==> final(self).wf())
                }),
            !old(self)@.contains_key(t.id)
                ==> final(self).type_seq() == old(self).type_seq().push(*t)
                && (exists|m: &mut V| {
                    &&& V::is_default(t.id, *m)
                    &&& call_ensures(f, (m,), r)
                    &&& final(self)@ == old(self)@.insert(t.id, *final(m))
                    &&& (final(m).spec_type().id == t.id ==> final(self).wf())
                }),
    {
        let m = self.as_mut(t);
        f(m)
    }
}

/// Uniqueness: a set holds at most one value per type. It reports as many
/// identities as it has slots, the reported identities carry pairwise
/// distinct tokens, and every reported token has its slot.
pub proof fn lemma_uniqueness<V: Slot>(s: &SingletonSet<V>)
    requires
        s.wf(),
    ensures
        s@.len() == s.type_seq().len(),
        forall|i: int, j: int| 0 <= i < j < s.type_seq().len()
            ==> s.type_seq()[i].id != s.type_seq()[j].id,
        forall|i: int| 0 <= i < s.type_seq().len()
            ==> s@.contains_key(#[trigger] s.type_seq()[i].id),
{
    s.lemma_dom();
    assert forall|i: int, j: int| 0 <= i < j < s.type_seq().len()
        implies s.type_seq()[i].id != s.type_seq()[j].id by {
        assert(s.tbl()[s.entries@[i].0.id] == i);
        assert(s.tbl()[s.entries@[j].0.id] == j);
    }
}

/// A one-pass walk over the identities of the types in a
/// [`SingletonSet`], in their insertion order.
#[derive(Debug)]
pub struct Types {
    items: Vec<Type>,
    pos: usize,
}

impl Types {
    /// The identities not yet handed out.
    pub closed spec fn remaining(&self) -> Seq<Type> {
        self.items@.skip(self.pos as int)
    }

    /// The walk's position has not run past its items.
    pub closed spec fn wf(&self) -> bool {
        self.pos <= self.items@.len()
    }

    /// Returns the next identity, or nothing once every identity has been
    /// handed out.
    pub fn next(&mut self) -> (r: Option<Type>)
        requires
            old(self).wf(),
        ensures
            final(self).wf(),
            old(self).remaining().len() == 0 ==> r is None
                && final(self).remaining() == old(self).remaining(),
            old(self).remaining().len() > 0 ==> r == Some(old(self).remaining()[0])
                && final(self).remaining() == old(self).remaining().drop_first(),
    {
        if self.pos < self.items.len() {
            let t = self.items[self.pos];
            self.pos = self.pos + 1;
            proof {
                assert(self.remaining() =~= old(self).remaining().drop_first());
            }
            Some(t)
        } else {
            None
        }
    }
}

} // verus!
