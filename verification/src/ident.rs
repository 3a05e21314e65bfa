use vstd::prelude::*;
use vstd::string::StringSliceAdditionalSpecFns;
use vstd::utf8::{valid_utf8, is_char_boundary, is_continuation_byte, encode_utf8,
    encode_utf8_valid_utf8, is_char_boundary_iff_not_is_continuation_byte,
    is_char_boundary_start_end_of_seq, valid_utf8_split, length_of_first_scalar,
    pop_first_scalar};

verus! {

/// The position in a label where generic arguments begin: the first `<`,
/// or the end of the label when there is none.
pub open spec fn angle_cut(b: Seq<u8>) -> int
    decreases b.len(),
{
    if b.len() == 0 {
        0
    } else if b[0] == 60 {
        0
    } else {
        1 + angle_cut(b.drop_first())
    }
}

/// The position just after the nearest `:` strictly before `cut`, or the
/// start of the label when there is none.
pub open spec fn segment_start(b: Seq<u8>, cut: int) -> int
    decreases cut,
{
    if cut <= 0 {
        0
    } else if b[cut - 1] == 58 {
        cut
    } else {
        segment_start(b, cut - 1)
    }
}

/// The short form of a label: the bytes of its last path segment before
/// any generic arguments, those between the nearest `:` to the left of
/// the first `<` and that `<`.
pub open spec fn short_of(b: Seq<u8>) -> Seq<u8> {
    b.subrange(segment_start(b, angle_cut(b)), angle_cut(b))
}

/// A position before which no `<` occurs, and which is the end or holds a
/// `<`, is the cut.
proof fn lemma_angle_cut_is(b: Seq<u8>, i: int)
    requires
        0 <= i <= b.len(),
        forall|j: int| 0 <= j < i ==> b[j] != 60,
        i == b.len() || b[i] == 60,
    ensures
        angle_cut(b) == i,
    decreases b.len(),
{
    if b.len() == 0 {
    } else if b[0] == 60 {
    } else {
        assert(forall|j: int| 0 <= j < i - 1 ==> b.drop_first()[j] == b[j + 1]);
        lemma_angle_cut_is(b.drop_first(), i - 1);
    }
}

/// A position holding an ASCII byte is a character boundary.
proof fn lemma_boundary_at_ascii(b: Seq<u8>, i: int)
    requires
        valid_utf8(b),
        0 <= i < b.len(),
        b[i] < 128,
    ensures
        is_char_boundary(b, i),
{
    is_char_boundary_iff_not_is_continuation_byte(b, i);
}

/// The position just after an ASCII byte is a character boundary.
proof fn lemma_boundary_after_ascii(b: Seq<u8>, i: int)
    requires
        valid_utf8(b),
        0 < i <= b.len(),
        b[i - 1] < 128,
    ensures
        is_char_boundary(b, i),
{
    if i == b.len() {
        is_char_boundary_start_end_of_seq(b);
    } else {
        lemma_boundary_at_ascii(b, i - 1);
        valid_utf8_split(b, i - 1);
        let suf = b.subrange(i - 1, b.len() as int);
        assert(valid_utf8(suf));
        assert(suf[0] == b[i - 1]);
        assert(length_of_first_scalar(suf) == 1);
        assert(is_char_boundary(suf, 1)) by {
            reveal_with_fuel(is_char_boundary, 2);
            assert(pop_first_scalar(suf) =~= b.subrange(i, b.len() as int));
        }
        is_char_boundary_iff_not_is_continuation_byte(suf, 1);
        assert(suf[1] == b[i]);
        is_char_boundary_iff_not_is_continuation_byte(b, i);
    }
}

/// The identity of one concrete type, usable as the key of a slot.
///
/// An identity is an explicit token: the caller registers one `id` per
/// concrete type it intends to store and uses it consistently. Two `Type`
/// values are equal exactly when their tokens are equal; the label exists
/// for display and diagnostics only and carries no guarantee of uniqueness
/// or stability.
#[derive(Clone, Copy, Debug, Eq)]
pub struct Type {
    /// The token that uniquely denotes a concrete type.
    pub id: u64,
    /// A human-readable label for the type; display only.
    pub name: &'static str,
}

impl Type {
    /// Creates a `Type` from a token and a label.
    pub fn of(id: u64, name: &'static str) -> (t: Type)
        ensures
            t.id == id,
            t.name@ == name@,
    {
        Type { id, name }
    }

    /// Returns a reference to the token that uniquely denotes the type.
    pub fn as_id(&self) -> (r: &u64)
        ensures
            *r == self.id,
    {
        &self.id
    }

    /// Returns the token that uniquely denotes the type.
    pub fn to_id(&self) -> (r: u64)
        ensures
            r == self.id,
    {
        self.id
    }

    /// Returns the label of the type.
    ///
    /// Labels are not unique: several types may share one label, and the
    /// same type may be registered under different labels.
    pub fn as_str(&self) -> (r: &str)
        ensures
            r@ == self.name@,
    {
        self.name
    }

    /// Returns the short form of the label: its last path segment before
    /// any generic arguments. A display heuristic with no promise of
    /// uniqueness, only of where it cuts.
    pub fn as_name(&self) -> (r: &str)
        ensures
            r.spec_bytes() == short_of(self.name.spec_bytes()),
    {
        let b: &[u8] = self.name.as_bytes();
        let n: usize = b.len();
        let mut to: usize = 0;
        while to < n && b[to] != 60
            invariant
                to <= n,
                n == b@.len(),
                forall|j: int| 0 <= j < to ==> b@[j] != 60,
            decreases n - to,
        {
            to = to + 1;
        }
        let mut from: usize = to;
        while from > 0 && b[from - 1] != 58
            invariant
                from <= to <= n,
                n == b@.len(),
                segment_start(b@, to as int) == segment_start(b@, from as int),
            decreases from,
        {
            from = from - 1;
        }
        proof {
            encode_utf8_valid_utf8(self.name@);
            assert(valid_utf8(b@));
            lemma_angle_cut_is(b@, to as int);
            assert(segment_start(b@, to as int) == from as int);
            if to < n {
                lemma_boundary_at_ascii(b@, to as int);
            } else {
                is_char_boundary_start_end_of_seq(b@);
            }
        }
        let (head, _) = self.name.split_at(to);
        proof {
            valid_utf8_split(b@, to as int);
            assert(head.spec_bytes() =~= b@.subrange(0, to as int));
            assert(valid_utf8(head.spec_bytes()));
            if from > 0 {
                assert(head.spec_bytes()[from - 1] == b@[from - 1]);
                lemma_boundary_after_ascii(head.spec_bytes(), from as int);
            } else {
                is_char_boundary_start_end_of_seq(head.spec_bytes());
            }
        }
        let (_, mid) = head.split_at(from);
        proof {
            assert(mid.spec_bytes() =~= short_of(self.name.spec_bytes()));
        }
        mid
    }

    /// Returns the short form of the label as an owned string; see
    /// [`Self::as_name`].
    pub fn to_name(&self) -> (r: String)
        ensures
            encode_utf8(r@) == short_of(self.name.spec_bytes()),
    {
        let short = self.as_name();
        short.to_owned()
    }
}

impl PartialEq for Type {
    /// Two identities are equal exactly when their tokens are; the label
    /// takes no part in the comparison.
    fn eq(&self, other: &Self) -> (r: bool)
    {
        self.id == other.id
    }
}

impl vstd::std_specs::cmp::PartialEqSpecImpl for Type {
    open spec fn obeys_eq_spec() -> bool {
        true
    }

    open spec fn eq_spec(&self, other: &Type) -> bool {
        self.id == other.id
    }
}

} // verus!
