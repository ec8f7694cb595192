use enum_collections::{EnumMap, Enumerated};

enum Letter {
    A,
    B,
}

impl Enumerated for Letter {
    // The ghost members of the trait: nothing calls them at run time.
    fn spec_position(self) -> usize {
        self.position()
    }

    fn spec_len() -> usize {
        Self::len()
    }

    fn lemma_position_in_range(self) {}

    fn lemma_position_injective(_a: Self, _b: Self) {}

    fn lemma_position_surjective(_i: usize) {}

    fn position(self) -> usize {
        match self {
            Letter::A => 0,
            Letter::B => 1,
        }
    }

    fn len() -> usize {
        2
    }
}

#[test]
fn get_insert_index_trait() {
    let mut enum_map = EnumMap::<Letter, i32>::new();
    enum_map[Letter::A] = Some(42);
    assert_eq!(Some(42), enum_map[Letter::A]);
    assert_eq!(Some(&42), enum_map[Letter::A].as_ref());
    assert_eq!(None, enum_map[Letter::B]);
}

#[test]
fn new_all_none() {
    let enum_map = EnumMap::<Letter, i32>::new();
    for index in 0..Letter::len() {
        assert_eq!(None, enum_map.as_slice()[index]);
    }
}

#[test]
fn enummap_inserts() {
    let mut enum_map = EnumMap::<Letter, i32>::new();
    enum_map.insert(Letter::A, 42);
    assert_eq!(Some(&42), enum_map.get(Letter::A));
    assert_eq!(None, enum_map.get(Letter::B));
}

#[test]
fn new_has_one_slot_per_key() {
    let enum_map = EnumMap::<Letter, i32>::new();
    assert_eq!(2, enum_map.as_slice().len());
    assert_eq!(None, enum_map.get(Letter::A));
    assert_eq!(None, enum_map.get(Letter::B));
}

#[test]
fn default_is_empty() {
    let enum_map: EnumMap<Letter, i32> = Default::default();
    assert_eq!(2, enum_map.as_slice().len());
    assert_eq!(None, enum_map.get(Letter::A));
    assert_eq!(None, enum_map.get(Letter::B));
}

#[test]
fn map_insert_lands_in_the_slot_of_its_key() {
    let mut enum_map = EnumMap::<Letter, i32>::new();
    enum_map.insert(Letter::B, 7);
    assert_eq!(&[None, Some(7)], enum_map.as_slice());
    enum_map.insert(Letter::A, 3);
    assert_eq!(&[Some(3), Some(7)], enum_map.as_slice());
}

#[test]
fn insert_leaves_other_keys_alone() {
    let mut enum_map = EnumMap::<Letter, i32>::new();
    enum_map.insert(Letter::B, 7);
    enum_map.insert(Letter::A, 42);
    assert_eq!(Some(&42), enum_map.get(Letter::A));
    assert_eq!(Some(&7), enum_map.get(Letter::B));
}

#[test]
fn remove_makes_the_key_absent() {
    let mut enum_map = EnumMap::<Letter, i32>::new();
    enum_map.insert(Letter::A, 42);
    enum_map.insert(Letter::B, 7);
    enum_map.remove(Letter::A);
    assert_eq!(None, enum_map.get(Letter::A));
    assert_eq!(Some(&7), enum_map.get(Letter::B));
}

#[test]
fn remove_is_idempotent() {
    let mut enum_map = EnumMap::<Letter, i32>::new();
    enum_map.insert(Letter::A, 42);
    enum_map.insert(Letter::B, 7);
    enum_map.remove(Letter::A);
    let once: Vec<Option<i32>> = enum_map.as_slice().to_vec();
    enum_map.remove(Letter::A);
    assert_eq!(once.as_slice(), enum_map.as_slice());
    assert_eq!(&[None, Some(7)], enum_map.as_slice());
}

#[test]
fn remove_of_absent_key_changes_nothing() {
    let mut enum_map = EnumMap::<Letter, i32>::new();
    enum_map.insert(Letter::B, 7);
    enum_map.remove(Letter::A);
    assert_eq!(&[None, Some(7)], enum_map.as_slice());
}

#[test]
fn map_second_insert_overwrites_first() {
    let mut enum_map = EnumMap::<Letter, i32>::new();
    enum_map.insert(Letter::A, 1);
    enum_map.insert(Letter::A, 2);
    assert_eq!(Some(&2), enum_map.get(Letter::A));
    assert_eq!(&[Some(2), None], enum_map.as_slice());
}

#[test]
fn index_reads_what_insert_wrote() {
    let mut enum_map = EnumMap::<Letter, i32>::new();
    enum_map.insert(Letter::B, 7);
    assert_eq!(None, enum_map[Letter::A]);
    assert_eq!(Some(7), enum_map[Letter::B]);
}

#[test]
fn index_write_of_none_removes() {
    let mut enum_map = EnumMap::<Letter, i32>::new();
    enum_map.insert(Letter::A, 42);
    enum_map[Letter::A] = None;
    assert_eq!(None, enum_map.get(Letter::A));
    assert_eq!(&[None, None], enum_map.as_slice());
}

#[test]
fn index_write_leaves_other_keys_alone() {
    let mut enum_map = EnumMap::<Letter, i32>::new();
    enum_map.insert(Letter::B, 7);
    enum_map[Letter::A] = Some(42);
    assert_eq!(Some(&42), enum_map.get(Letter::A));
    assert_eq!(Some(&7), enum_map.get(Letter::B));
}

#[test]
fn overwritten_and_removed_values_are_dropped() {
    let witness = std::rc::Rc::new(());
    let mut enum_map = EnumMap::<Letter, std::rc::Rc<()>>::new();
    enum_map.insert(Letter::A, witness.clone());
    enum_map.insert(Letter::B, witness.clone());
    assert_eq!(3, std::rc::Rc::strong_count(&witness));
    enum_map.insert(Letter::A, std::rc::Rc::new(()));
    assert_eq!(2, std::rc::Rc::strong_count(&witness));
    enum_map.remove(Letter::B);
    assert_eq!(1, std::rc::Rc::strong_count(&witness));
}

#[test]
fn map_bool_keys() {
    let mut enum_map = EnumMap::<bool, i32>::new();
    assert_eq!(2, enum_map.as_slice().len());
    enum_map.insert(true, 42);
    assert_eq!(Some(&42), enum_map.get(true));
    assert_eq!(None, enum_map.get(false));
    assert_eq!(&[None, Some(42)], enum_map.as_slice());
}
