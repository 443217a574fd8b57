use account_history::svec_modulo::{StackVecModulo, StackVecModuloIterator};

#[test]
fn svec_modulo_iteration() {
    let mut vec = StackVecModulo::<u64, 5>::default();
    vec.push(0);
    vec.push(2);
    vec.push(4);
    vec.push(6);
    // len check
    assert_eq!(4, vec.len());

    // Should iterate through 6, 4, 2, 0
    let mut j = 3u64;
    let mut it = StackVecModuloIterator::from(&vec);
    while let Some(i) = it.next() {
        assert_eq!(*i, j * 2);
        if j > 0 {
            j -= 1;
        }
    }
    // Should not iterate through anything
    let vec = StackVecModulo::<u64, 5>::default();
    let mut j = 0u64;
    let mut it = StackVecModuloIterator::from(&vec);
    while it.next().is_some() {
        j += 1;
    }
    assert_eq!(j, 0);
}

#[test]
fn svec_modulo_push() {
    let mut vec = StackVecModulo::<u64, 5>::default();
    // len check
    assert_eq!(0, vec.len());
    assert_eq!(*vec.most_recent_entry(), 0);
    vec.push(0);
    assert_eq!(*vec.most_recent_entry(), 0);
    vec.push(2);
    assert_eq!(*vec.most_recent_entry(), 2);
    vec.push(4);
    vec.push(6);
    vec.push(8);
    assert_eq!(*vec.most_recent_entry(), 8);
    vec.push(10);
    assert_eq!(*vec.most_recent_entry(), 10);
    vec.push(12);
    // len check should now return 5
    assert_eq!(5, vec.len());

    // Should always return last pushed value
    assert_eq!(*vec.most_recent_entry(), 12);
}

#[test]
fn svec_modulo_first_push_skips_slot_zero() {
    let mut vec = StackVecModulo::<u64, 3>::new(7);
    vec.push(1);
    assert_eq!(vec.most_recent_index(), 1);
    assert_eq!(*vec.index(0), 7);
    assert_eq!(*vec.index(1), 1);
    vec.push(2);
    vec.push(3);
    // the third push wraps around to slot zero
    assert_eq!(vec.most_recent_index(), 0);
    assert_eq!(*vec.index(0), 3);
    assert_eq!(*vec.index(4), 1);
    assert_eq!(vec.num_push_calls(), 3);
    assert_eq!(vec.len(), 3);
}

#[test]
fn svec_modulo_iterates_newest_first_after_wrapping() {
    let mut vec = StackVecModulo::<u64, 3>::default();
    for v in 1..=7u64 {
        vec.push(v * 10);
    }
    let mut it = StackVecModuloIterator::from(&vec);
    let mut seen = Vec::new();
    while let Some(v) = it.next() {
        seen.push(*v);
    }
    assert_eq!(seen, vec![70, 60, 50]);
}
