//! A ready-made holder for slots of a few primitive types.

use vstd::prelude::*;
use crate::ident::Type;
use crate::holder::{Slot, SlotDefault};

verus! {

/// The token of the byte type, `u8`.
pub const BYTE: u64 = 1;

/// The token of the word type, `u16`.
pub const WORD: u64 = 2;

/// The token of the wide word type, `u32`.
pub const WIDE: u64 = 3;

/// The token of the borrowed string type, `&str`.
pub const STR: u64 = 4;

/// The token of the owned string type, `String`.
pub const TEXT: u64 = 5;

/// A value of one of a few primitive types, each with its own slot.
///
/// This is the crate's own holder: it grounds [`Slot`] and
/// [`SlotDefault`] and serves callers who store primitive values and need
/// no holder of their own. Every type here has a default: zero for the
/// numeric types, emptiness for the string types.
#[derive(Debug, PartialEq, Eq)]
pub enum Prim {
    /// A byte, filed under [`BYTE`].
    Byte(u8),
    /// A word, filed under [`WORD`].
    Word(u16),
    /// A wide word, filed under [`WIDE`].
    Wide(u32),
    /// A borrowed string, filed under [`STR`].
    Str(&'static str),
    /// An owned string, filed under [`TEXT`].
    Text(String),
}

impl Slot for Prim {
    open spec fn spec_type(&self) -> Type {
        match self {
            Prim::Byte(_) => Type { id: BYTE, name: "u8" },
            Prim::Word(_) => Type { id: WORD, name: "u16" },
            Prim::Wide(_) => Type { id: WIDE, name: "u32" },
            Prim::Str(_) => Type { id: STR, name: "&str" },
            Prim::Text(_) => Type { id: TEXT, name: "alloc::string::String" },
        }
    }

    fn type_of(&self) -> (t: Type)
        ensures
            t == self.spec_type(),
    {
        match self {
            Prim::Byte(_) => Type { id: BYTE, name: "u8" },
            Prim::Word(_) => Type { id: WORD, name: "u16" },
            Prim::Wide(_) => Type { id: WIDE, name: "u32" },
            Prim::Str(_) => Type { id: STR, name: "&str" },
            Prim::Text(_) => Type { id: TEXT, name: "alloc::string::String" },
        }
    }
}

impl SlotDefault for Prim {
    open spec fn has_default(k: u64) -> bool {
        k == BYTE || k == WORD || k == WIDE || k == STR || k == TEXT
    }

    open spec fn is_default(k: u64, v: Prim) -> bool {
        match v {
            Prim::Byte(x) => k == BYTE && x == 0,
            Prim::Word(x) => k == WORD && x == 0,
            Prim::Wide(x) => k == WIDE && x == 0,
            Prim::Str(x) => k == STR && x@ == Seq::<char>::empty(),
            Prim::Text(x) => k == TEXT && x@ == Seq::<char>::empty(),
        }
    }

    fn default_for(t: &Type) -> (v: Prim)
    {
        let k = t.to_id();
        if k == BYTE {
            Prim::Byte(0)
        } else if k == WORD {
            Prim::Word(0)
        } else if k == WIDE {
            Prim::Wide(0)
        } else if k == STR {
            let s = "";
            proof {
                reveal_strlit("");
                assert(s@ =~= Seq::<char>::empty());
            }
            Prim::Str(s)
        } else {
            Prim::Text(String::new())
        }
    }
}

} // verus!
