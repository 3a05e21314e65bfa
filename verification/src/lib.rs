//! A map that keys each stored value by the identity of its type, holding at
//! most one value per type: a locally-scoped take on the Singleton pattern.
//!
//! A [`Type`] is an explicit per-type token (a unique `u64` plus a display
//! label) that the caller registers for each concrete type it stores. Values
//! enter the set behind a caller-chosen holder type that implements [`Slot`],
//! which ties every value to the token of its concrete type; the set then
//! guarantees that each token owns at most one slot and that the value found
//! under a token always carries that token.

mod holder;
mod ident;
mod laws;
mod prim;
mod set;
mod table;

pub use holder::AllocationError;
pub use holder::Slot;
pub use holder::SlotDefault;
pub use ident::Type;
pub use ident::angle_cut;
pub use ident::segment_start;
pub use ident::short_of;
pub use laws::lemma_isolation;
pub use laws::lemma_overwrite;
pub use laws::lemma_round_trip;
pub use prim::Prim;
pub use prim::BYTE;
pub use prim::STR;
pub use prim::TEXT;
pub use prim::WIDE;
pub use prim::WORD;
pub use set::lemma_uniqueness;
pub use set::SingletonSet;
pub use set::Types;
