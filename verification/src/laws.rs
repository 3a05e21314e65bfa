//! Properties that tie the set's operations together, stated over the
//! model the operations' contracts share: the map from type tokens to
//! held values.

use vstd::prelude::*;
use crate::holder::Slot;

verus! {

/// Isolation: writing one type's slot never changes the observable value
/// of any other type's slot. `slots` is a set's model before a write of
/// `w`; any token other than `w`'s keeps both its presence and its value.
pub proof fn lemma_isolation<V: Slot>(slots: Map<u64, V>, w: V, k2: u64)
    requires
        w.spec_type().id != k2,
    ensures
        slots.insert(w.spec_type().id, w).contains_key(k2) == slots.contains_key(k2),
        slots.contains_key(k2) ==> slots.insert(w.spec_type().id, w)[k2] == slots[k2],
{
}

/// Overwrite: writing `v1` and then `v2` of the same type leaves `v2` in
/// their one slot, and the state met by the second write holds exactly
/// `v1` there: the second write displaces `v1` and nothing else.
pub proof fn lemma_overwrite<V: Slot>(slots: Map<u64, V>, v1: V, v2: V)
    requires
        v1.spec_type().id == v2.spec_type().id,
    ensures
        slots.insert(v1.spec_type().id, v1).contains_key(v2.spec_type().id),
        slots.insert(v1.spec_type().id, v1)[v2.spec_type().id] == v1,
        slots.insert(v1.spec_type().id, v1).insert(v2.spec_type().id, v2)[v2.spec_type().id]
            == v2,
{
}

/// Round trip: after writing `v`, the slot of `v`'s type is present and
/// reads back exactly `v`.
pub proof fn lemma_round_trip<V: Slot>(slots: Map<u64, V>, v: V)
    ensures
        slots.insert(v.spec_type().id, v).contains_key(v.spec_type().id),
        slots.insert(v.spec_type().id, v)[v.spec_type().id] == v,
{
}

} // verus!

