use fold::arena::{Arena, Handle, HandleGenerator, HandleIter, Key};

#[test]
fn push_returns_the_previous_length() {
    let mut arena: Arena<u32> = Arena::new();
    let a = arena.push(7);
    let b = arena.push(9);
    assert_eq!(a.idx(), 0);
    assert_eq!(b.idx(), 1);
    assert_eq!(arena.len(), 2);
    assert_eq!(arena.get(a), Some(&7));
    assert_eq!(arena.get(b), Some(&9));
    assert_eq!(arena.get(Handle::new(2)), None);
}

#[test]
fn every_handle_of_an_enumeration_is_found() {
    let mut arena: Arena<&'static str> = Arena::new();
    arena.push("a");
    arena.push("b");
    arena.push("c");
    let mut it = arena.enumerate();
    let mut seen = 0;
    while let Some((h, item)) = it.next() {
        assert_eq!(h.idx(), seen);
        assert_eq!(arena.get(h), Some(item));
        seen += 1;
    }
    assert_eq!(seen, 3);
    assert!(it.next().is_none());
}

#[test]
fn enumeration_of_an_empty_arena_ends_at_once() {
    let arena: Arena<u8> = Arena::new();
    assert!(arena.enumerate().next().is_none());
    assert_eq!(arena.len(), 0);
}

#[test]
fn generator_goes_past_the_end_and_reaches_new_elements() {
    let mut arena: Arena<u32> = Arena::new();
    arena.push(1);
    let mut gen = arena.handle_generator();
    let first = gen.next().unwrap();
    assert_eq!(arena.get(first), Some(&1));
    let second = gen.next().unwrap();
    assert_eq!(second.idx(), 1);
    assert_eq!(arena.get(second), None);
    arena.push(2);
    assert_eq!(arena.get(second), Some(&2));
    let third = gen.next().unwrap();
    assert_eq!(third.idx(), 2);
}

#[test]
fn generator_starts_at_zero() {
    let mut gen: HandleGenerator<u8> = HandleGenerator::new();
    assert_eq!(gen.next().unwrap().idx(), 0);
    assert_eq!(gen.next().unwrap().idx(), 1);
}

#[test]
fn handles_compare_by_position() {
    let a: Handle<u8> = Handle::new(3);
    let b: Handle<u8> = Handle::new(3);
    let c: Handle<u8> = Handle::new(4);
    assert!(a == b);
    assert!(a != c);
    let copy = a;
    assert!(copy == a);
    assert_eq!(Key::<u8>::idx(a), 3);
}

#[test]
fn invalid_handle_designates_nothing() {
    let mut arena: Arena<u32> = Arena::new();
    arena.push(1);
    let h: Handle<u32> = Handle::invalid();
    assert_eq!(h.idx(), usize::MAX);
    assert_eq!(arena.get(h), None);
    assert!(arena.get_mut(h).is_none());
}

#[test]
fn get_mut_changes_one_element() {
    let mut arena: Arena<u32> = Arena::new();
    let a = arena.push(1);
    let b = arena.push(2);
    *arena.get_mut(a).unwrap() = 10;
    assert_eq!(arena.as_slice(), &[10, 2]);
    *arena.index_mut(b) = 20;
    assert_eq!(*arena.index(a), 10);
    assert_eq!(*arena.index(b), 20);
    assert_eq!(arena.len(), 2);
}

#[test]
fn pushing_keeps_earlier_handles() {
    let mut arena: Arena<u32> = Arena::default();
    let a = arena.push(5);
    for i in 0..100 {
        arena.push(i);
    }
    assert_eq!(arena.get(a), Some(&5));
    assert_eq!(arena.len(), 101);
}

#[test]
fn a_handle_iterator_is_a_generator() {
    let mut it: HandleIter<u8> = HandleIter::new();
    assert_eq!(it.next().unwrap().idx(), 0);
}

#[test]
fn a_walk_for_writing_yields_every_element_with_its_handle() {
    let mut arena: Arena<u32> = Arena::new();
    arena.push(10);
    arena.push(20);
    arena.push(30);
    let mut walk = arena.enumerate_mut();
    let mut seen = Vec::new();
    while let Some((h, x)) = walk.next(&mut arena) {
        seen.push((h.idx(), *x));
        *x += 1;
        if h.idx() == 0 {
            arena.push(40);
        }
        assert!(arena.get(h).is_some());
    }
    assert_eq!(seen, vec![(0, 10), (1, 20), (2, 30), (3, 40)]);
    assert_eq!(arena.as_slice(), &[11, 21, 31, 41]);
    assert!(walk.next(&mut arena).is_none());
    let mut empty: Arena<u32> = Arena::new();
    assert!(empty.enumerate_mut().next(&mut empty).is_none());
}

#[test]
fn two_handles_of_one_position_are_equal() {
    assert_eq!(Handle::<u32>::new(3), Handle::<u32>::new(3));
    assert_ne!(Handle::<u32>::new(3), Handle::<u32>::new(4));
}
