//! The capability traits of a value holder.
//!
//! The set stores values of one concrete holder type chosen by the caller
//! (most often an enum with one variant per storable type). [`Slot`] ties
//! every holder value to the token of the concrete type it carries; it is
//! what lets the set keep, and prove, the pairing of keys and values.
//! [`SlotDefault`] is the separate capability of producing a default value
//! for a type, demanded only by the default-producing operations.

use vstd::prelude::*;
use crate::ident::Type;

verus! {

/// A value that can live in a slot: it knows the identity of its own
/// concrete type.
///
/// An implementation must report identities consistently: the set relies on
/// `type_of` to file each value under the token of its concrete type, and
/// in return proves that a lookup under a token only ever hands back a
/// value carrying that token.
pub trait Slot: Sized {
    /// The identity of the value's concrete type.
    spec fn spec_type(&self) -> Type;

    /// Returns the identity of the value's concrete type.
    fn type_of(&self) -> (t: Type)
        ensures
            t == self.spec_type(),
    ;
}

/// The added capability of producing a type's default value, asked of the
/// holder only by the default-producing operations.
pub trait SlotDefault: Slot {
    /// Whether the type denoted by the token has a default value.
    spec fn has_default(k: u64) -> bool;

    /// Whether `v` is the default value of the type denoted by the token.
    spec fn is_default(k: u64, v: Self) -> bool;

    /// Returns the default value of the type `t` denotes.
    fn default_for(t: &Type) -> (v: Self)
        requires
            Self::has_default(t.id),
        ensures
            Self::is_default(t.id, v),
            v.spec_type().id == t.id,
    ;
}

/// An explicit reservation request could not be honoured; the set's
/// contents are untouched.
#[derive(Clone, Copy, Debug, PartialEq, Eq, Structural)]
pub struct AllocationError;

} // verus!
