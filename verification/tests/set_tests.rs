use singletonset::{Prim, SingletonSet, Slot, SlotDefault, Type, BYTE, STR, TEXT, WIDE, WORD};

fn byte_t() -> Type {
    Type::of(BYTE, "u8")
}

fn word_t() -> Type {
    Type::of(WORD, "u16")
}

fn wide_t() -> Type {
    Type::of(WIDE, "u32")
}

fn str_t() -> Type {
    Type::of(STR, "&str")
}

fn text_t() -> Type {
    Type::of(TEXT, "alloc::string::String")
}

#[test]
fn test_singletonset_retains_last_element_of_type() {
    let mut set: SingletonSet<Prim> = SingletonSet::new();

    *set.as_mut(&byte_t()) = Prim::Byte(1);
    *set.as_mut(&byte_t()) = Prim::Byte(2);
    *set.as_mut(&byte_t()) = Prim::Byte(3);
    *set.as_mut(&word_t()) = Prim::Word(1);
    *set.as_mut(&word_t()) = Prim::Word(2);
    *set.as_mut(&wide_t()) = Prim::Wide(3);
    *set.as_mut(&wide_t()) = Prim::Wide(2);
    *set.as_mut(&str_t()) = Prim::Str("foo");
    *set.as_mut(&str_t()) = Prim::Str("bar");
    *set.as_mut(&text_t()) = Prim::Text("baz".to_string());

    assert_eq!(set.len(), 5);
    assert_ne!(set.as_ref(&byte_t()), &Prim::Byte(1));
    assert_ne!(set.get(&byte_t()), &Prim::Byte(1));
    assert_eq!(set.as_ref(&byte_t()), &Prim::Byte(3));
    assert_ne!(set.get(&word_t()), &Prim::Word(1));
    assert_eq!(set.as_ref(&word_t()), &Prim::Word(2));
    assert_ne!(set.get(&wide_t()), &Prim::Wide(3));
    assert_eq!(set.get(&wide_t()), &Prim::Wide(2));
    assert_ne!(set.get(&str_t()), &Prim::Str("foo"));
    assert_eq!(set.get(&str_t()), &Prim::Str("bar"));
    assert_eq!(set.get(&text_t()), &Prim::Text("baz".to_string()));
}

#[test]
fn test_singletonset_mutations() {
    let mut set: SingletonSet<Prim> = SingletonSet::new();

    *set.get_mut(&text_t()) = Prim::Text("foo".to_string());
    if let Prim::Text(s) = set.get_mut(&text_t()) {
        s.push_str("bar");
    }

    if let Prim::Byte(b) = set.get_mut(&byte_t()) {
        *b += 2;
    }
    if let Prim::Byte(b) = set.get_mut(&byte_t()) {
        *b *= 2;
    }

    set.with_mut(&wide_t(), |val| {
        if let Prim::Wide(w) = val {
            *w += 2;
        }
    });
    set.with_mut(&wide_t(), |val| {
        if let Prim::Wide(w) = val {
            *w *= 3;
        }
    });
    set.with_mut(&text_t(), |val| {
        if let Prim::Text(s) = val {
            s.push_str("baz");
        }
    });

    assert_ne!(set.get(&text_t()), &Prim::Text("foo".to_string()));
    assert_ne!(set.get(&text_t()), &Prim::Text("foobar".to_string()));
    assert_eq!(set.get(&text_t()), &Prim::Text("foobarbaz".to_string()));
    assert_ne!(set.get(&byte_t()), &Prim::Byte(2));
    assert_eq!(set.get(&byte_t()), &Prim::Byte(4));
    assert_eq!(set.get(&wide_t()), &Prim::Wide(6));
}

#[derive(Debug, PartialEq)]
struct Foo(&'static str);

#[derive(Debug, PartialEq)]
enum Held {
    Foo(Foo),
}

const FOO: u64 = 100;

impl Slot for Held {
    fn spec_type(&self) -> Type {
        Type::of(FOO, "Foo")
    }

    fn type_of(&self) -> Type {
        Type::of(FOO, "Foo")
    }
}

impl SlotDefault for Held {
    fn has_default(_k: u64) -> bool {
        true
    }

    fn is_default(_k: u64, v: Held) -> bool {
        v == Held::Foo(Foo("foo"))
    }

    fn default_for(_t: &Type) -> Held {
        Held::Foo(Foo("foo"))
    }
}

fn foo_t() -> Type {
    Type::of(FOO, "Foo")
}

#[test]
fn singletonset_works_without_default() {
    let mut set: SingletonSet<Held> = SingletonSet::new();

    assert_eq!(set.try_get(&foo_t()), None);

    set.get_or_insert(Held::Foo(Foo("bar")));

    assert_eq!(set.try_get(&foo_t()), Some(&Held::Foo(Foo("bar"))));
}

#[test]
fn singletonset_works_with_custom_defaults() {
    let mut set: SingletonSet<Held> = SingletonSet::new();

    set.get_mut(&foo_t());

    assert_eq!(set.try_get(&foo_t()), Some(&Held::Foo(Foo("foo"))));

    *set.get_mut(&foo_t()) = Held::Foo(Foo("bar"));

    assert_eq!(set.try_get(&foo_t()), Some(&Held::Foo(Foo("bar"))));
}

#[test]
fn singletonset_can_be_iterated() {
    let mut set: SingletonSet<Prim> = SingletonSet::new();

    set.get_mut(&byte_t());
    set.get_mut(&word_t());
    set.get_mut(&wide_t());

    let mut iter = set.types();

    assert!(iter.next().is_some());
    assert!(iter.next().is_some());
    assert!(iter.next().is_some());
    assert_eq!(iter.next(), None);
}

#[test]
fn overwrite_displaces_and_reads_back_latest() {
    let mut set: SingletonSet<Prim> = SingletonSet::new();

    assert_eq!(set.insert(Prim::Byte(7)), None);
    assert_eq!(set.insert(Prim::Byte(9)), Some(Prim::Byte(7)));
    assert_eq!(set.get(&byte_t()), &Prim::Byte(9));
    assert_eq!(set.len(), 1);
}

#[test]
fn insert_if_absent_keeps_existing_value() {
    let mut set: SingletonSet<Prim> = SingletonSet::new();

    set.insert(Prim::Wide(5));
    assert_eq!(set.get_or_insert(Prim::Wide(11)), &Prim::Wide(5));
    assert_eq!(set.as_ref_or_insert(Prim::Wide(12)), &Prim::Wide(5));
    assert_eq!(set.as_mut_or_insert(Prim::Wide(13)), &mut Prim::Wide(5));
    assert_eq!(set.get_or_insert_mut(Prim::Wide(14)), &mut Prim::Wide(5));
    assert_eq!(set.len(), 1);
}

#[test]
fn insert_if_absent_never_runs_factory_on_occupied_slot() {
    let mut set: SingletonSet<Prim> = SingletonSet::new();
    set.insert(Prim::Word(21));

    let called = std::cell::Cell::new(false);
    let v = set.get_or_insert_with(&word_t(), || {
        called.set(true);
        Prim::Word(99)
    });
    assert_eq!(v, &Prim::Word(21));
    assert!(!called.get());

    let called_mut = std::cell::Cell::new(false);
    let v = set.as_mut_or_insert_with(&word_t(), || {
        called_mut.set(true);
        Prim::Word(98)
    });
    assert_eq!(v, &mut Prim::Word(21));
    assert!(!called_mut.get());
}

#[test]
fn factory_insert_fills_an_empty_slot_once() {
    let mut set: SingletonSet<Prim> = SingletonSet::new();

    let v = set.as_ref_or_insert_with(&word_t(), || Prim::Word(33));
    assert_eq!(v, &Prim::Word(33));
    assert_eq!(set.len(), 1);

    let v = set.get_or_insert_with_mut(&byte_t(), || Prim::Byte(5));
    assert_eq!(v, &mut Prim::Byte(5));
    assert_eq!(set.len(), 2);
}

#[test]
fn insert_with_and_insert_default_overwrite() {
    let mut set: SingletonSet<Prim> = SingletonSet::new();

    assert_eq!(set.insert_with(|| Prim::Byte(8)), None);
    assert_eq!(set.insert_with(|| Prim::Byte(9)), Some(Prim::Byte(8)));
    assert_eq!(set.insert_default(&byte_t()), Some(Prim::Byte(9)));
    assert_eq!(set.get(&byte_t()), &Prim::Byte(0));
}

#[test]
fn round_trip_returns_equal_value() {
    let mut set: SingletonSet<Prim> = SingletonSet::new();

    set.insert(Prim::Text("roundtrip".to_string()));
    assert_eq!(set.try_get(&text_t()), Some(&Prim::Text("roundtrip".to_string())));
}

#[test]
fn distinct_types_do_not_disturb_each_other() {
    let mut set: SingletonSet<Prim> = SingletonSet::new();

    set.insert(Prim::Byte(1));
    set.insert(Prim::Word(2));
    set.insert(Prim::Wide(3));
    assert_eq!(set.len(), 3);

    set.insert(Prim::Word(22));

    assert_eq!(set.get(&byte_t()), &Prim::Byte(1));
    assert_eq!(set.get(&word_t()), &Prim::Word(22));
    assert_eq!(set.get(&wide_t()), &Prim::Wide(3));
    assert_eq!(set.len(), 3);
}

#[test]
fn sequential_byte_and_string_writes_leave_two_entries() {
    let mut set: SingletonSet<Prim> = SingletonSet::new();

    set.insert(Prim::Byte(1));
    set.insert(Prim::Byte(2));
    set.insert(Prim::Byte(3));
    assert_eq!(set.len(), 1);
    assert_eq!(set.get(&byte_t()), &Prim::Byte(3));

    set.insert(Prim::Str("foo"));
    set.insert(Prim::Str("bar"));
    assert_eq!(set.get(&str_t()), &Prim::Str("bar"));
    assert_eq!(set.len(), 2);
}

#[test]
fn optional_read_of_absent_type_is_empty_and_harmless() {
    let mut set: SingletonSet<Prim> = SingletonSet::new();

    assert_eq!(set.try_get(&byte_t()), None);
    assert_eq!(set.try_as_ref(&byte_t()), None);
    assert_eq!(set.try_as_mut(&byte_t()), None);
    assert_eq!(set.try_get_mut(&byte_t()), None);
    assert_eq!(set.len(), 0);
    assert!(set.is_empty());
}

#[test]
fn default_access_of_absent_string_type_yields_empty_string() {
    let mut set: SingletonSet<Prim> = SingletonSet::new();

    assert_eq!(set.len(), 0);
    let v = set.as_mut(&text_t());
    assert_eq!(v, &mut Prim::Text(String::new()));
    assert_eq!(set.len(), 1);
}

#[test]
fn default_access_persists_mutations() {
    let mut set: SingletonSet<Prim> = SingletonSet::new();

    let first = set.as_mut(&byte_t());
    assert_eq!(first, &mut Prim::Byte(0));
    *first = Prim::Byte(41);
    if let Prim::Byte(b) = set.as_mut(&byte_t()) {
        *b += 1;
    }
    assert_eq!(set.get(&byte_t()), &Prim::Byte(42));
}

#[test]
fn contains_answers_by_type() {
    let mut set: SingletonSet<Prim> = SingletonSet::new();

    assert!(!set.contains(&byte_t()));
    set.insert(Prim::Byte(1));
    assert!(set.contains(&byte_t()));
    assert!(set.contains_type(&byte_t()));
    assert!(set.contains_type_of(&Prim::Byte(200)));
    assert!(!set.contains_type_of(&Prim::Word(1)));
    assert!(!set.contains_type(&word_t()));
}

#[test]
fn closure_accessors_observe_and_return() {
    let mut set: SingletonSet<Prim> = SingletonSet::new();

    let absent = set.try_with_ref(&byte_t(), |v| v.is_none());
    assert!(absent);

    set.insert(Prim::Byte(10));
    let doubled = set.with_ref(&byte_t(), |v| match v {
        Prim::Byte(b) => *b * 2,
        _ => 0,
    });
    assert_eq!(doubled, 20);

    let seen = set.with_ref_or(Prim::Word(70), |v| match v {
        Prim::Word(w) => *w,
        _ => 0,
    });
    assert_eq!(seen, 70);
    assert_eq!(set.get(&word_t()), &Prim::Word(70));

    let seen = set.with_ref_or(Prim::Word(71), |v| match v {
        Prim::Word(w) => *w,
        _ => 0,
    });
    assert_eq!(seen, 70);

    let seen = set.with_ref_or_else(&wide_t(), || Prim::Wide(7), |v| match v {
        Prim::Wide(w) => *w,
        _ => 0,
    });
    assert_eq!(seen, 7);

    let seen = set.with_ref_or_default(&text_t(), |v| match v {
        Prim::Text(s) => s.len(),
        _ => 99,
    });
    assert_eq!(seen, 0);
    assert_eq!(set.len(), 4);
}

#[test]
fn closure_mut_accessors_mutate_in_place() {
    let mut set: SingletonSet<Prim> = SingletonSet::new();

    let touched = set.try_with_mut(&byte_t(), |v| v.is_some());
    assert!(!touched);

    set.insert(Prim::Byte(1));
    set.try_with_mut(&byte_t(), |v| {
        if let Some(Prim::Byte(b)) = v {
            *b += 1;
        }
    });
    assert_eq!(set.get(&byte_t()), &Prim::Byte(2));

    set.with_mut_or(Prim::Wide(5), |v| {
        if let Prim::Wide(w) = v {
            *w *= 2;
        }
    });
    assert_eq!(set.get(&wide_t()), &Prim::Wide(10));

    set.with_mut_or_else(&word_t(), || Prim::Word(3), |v| {
        if let Prim::Word(w) = v {
            *w += 4;
        }
    });
    assert_eq!(set.get(&word_t()), &Prim::Word(7));
}

#[test]
fn clear_empties_the_set() {
    let mut set: SingletonSet<Prim> = SingletonSet::new();

    set.insert(Prim::Byte(1));
    set.insert(Prim::Word(2));
    assert_eq!(set.len(), 2);

    set.clear();
    assert_eq!(set.len(), 0);
    assert!(set.is_empty());
    assert_eq!(set.try_get(&byte_t()), None);

    set.insert(Prim::Byte(5));
    assert_eq!(set.len(), 1);
    assert_eq!(set.get(&byte_t()), &Prim::Byte(5));
}

#[test]
fn capacity_operations_keep_contents() {
    let mut set: SingletonSet<Prim> = SingletonSet::with_capacity(8);
    assert!(set.is_empty());

    set.insert(Prim::Byte(1));
    set.insert(Prim::Str("kept"));

    set.reserve(16);
    assert_eq!(set.len(), 2);
    assert_eq!(set.get(&str_t()), &Prim::Str("kept"));

    assert_eq!(set.try_reserve(4), Ok(()));
    assert_eq!(set.len(), 2);

    set.shrink_to_fit();
    assert_eq!(set.get(&byte_t()), &Prim::Byte(1));

    set.shrink_to(1);
    assert_eq!(set.len(), 2);
    assert_eq!(set.get(&str_t()), &Prim::Str("kept"));

    let _ = set.capacity();
}

#[test]
fn types_walk_in_insertion_order() {
    let mut set: SingletonSet<Prim> = SingletonSet::new();

    set.insert(Prim::Wide(1));
    set.insert(Prim::Byte(2));
    set.insert(Prim::Str("x"));
    set.insert(Prim::Byte(3));

    let mut iter = set.types();
    assert_eq!(iter.next().map(|t| t.to_id()), Some(WIDE));
    assert_eq!(iter.next().map(|t| t.to_id()), Some(BYTE));
    assert_eq!(iter.next().map(|t| t.to_id()), Some(STR));
    assert_eq!(iter.next(), None);
    assert_eq!(iter.next(), None);
}

#[test]
fn default_set_is_empty() {
    let set: SingletonSet<Prim> = Default::default();
    assert!(set.is_empty());
    assert_eq!(set.len(), 0);
}

#[test]
fn empty_set_walk_ends_immediately() {
    let set: SingletonSet<Prim> = SingletonSet::new();
    let mut iter = set.types();
    assert_eq!(iter.next(), None);
}

#[test]
fn cleared_set_walk_ends_immediately() {
    let mut set: SingletonSet<Prim> = SingletonSet::new();
    set.insert(Prim::Byte(1));
    set.clear();
    let mut iter = set.types();
    assert_eq!(iter.next(), None);
}
