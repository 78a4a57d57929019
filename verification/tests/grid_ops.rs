use grid_array::GridArray;

#[test]
fn capacity_sequence_doubles() {
    let mut g: GridArray<u64> = GridArray::new();
    assert_eq!(g.capacity(), 0);
    assert_eq!(g.len(), 0);
    let expected_caps: [usize; 10] = [1, 2, 4, 4, 8, 8, 8, 8, 16, 16];
    for n in 0..10usize {
        g.push(n as u64);
        assert_eq!(g.len(), n + 1);
        assert_eq!(g.capacity(), expected_caps[n]);
    }
}

#[test]
fn lifo_pop_returns_most_recent_push() {
    let mut g: GridArray<u64> = GridArray::new();
    g.push(1);
    g.push(2);
    g.push(3);
    assert_eq!(g.pop(), Some(3));
    g.push(4);
    assert_eq!(g.pop(), Some(4));
    assert_eq!(g.pop(), Some(2));
    assert_eq!(g.pop(), Some(1));
    assert_eq!(g.pop(), None);
}

#[test]
fn pop_on_empty_is_none_not_fatal() {
    let mut g: GridArray<u64> = GridArray::new();
    assert_eq!(g.pop(), None);
    assert_eq!(g.pop(), None);
    assert_eq!(g.len(), 0);
}

#[test]
fn insert_shifts_right() {
    let mut g: GridArray<u64> = GridArray::new();
    g.push(10);
    g.push(30);
    g.insert(1, 20);
    assert_eq!(g.as_slice(), &[10, 20, 30]);
    g.insert(0, 5);
    assert_eq!(g.as_slice(), &[5, 10, 20, 30]);
    g.insert(4, 40);
    assert_eq!(g.as_slice(), &[5, 10, 20, 30, 40]);
}

#[test]
fn remove_shifts_left() {
    let mut g: GridArray<u64> = GridArray::new();
    g.push(5);
    g.push(10);
    g.push(20);
    g.push(30);
    assert_eq!(g.remove(0), 5);
    assert_eq!(g.as_slice(), &[10, 20, 30]);
    assert_eq!(g.remove(1), 20);
    assert_eq!(g.as_slice(), &[10, 30]);
    assert_eq!(g.remove(1), 30);
    assert_eq!(g.as_slice(), &[10]);
}

#[test]
fn remove_undoes_insert() {
    let mut g: GridArray<u64> = GridArray::new();
    g.push(1);
    g.push(2);
    g.push(3);
    for i in 0..=3usize {
        g.insert(i, 99);
        assert_eq!(g.remove(i), 99);
        assert_eq!(g.len(), 3);
        assert_eq!(g.as_slice(), &[1, 2, 3]);
    }
}

#[test]
fn get_and_set_access_the_initialized_region() {
    let mut g: GridArray<u64> = GridArray::new();
    g.push(7);
    g.push(8);
    assert_eq!(*g.get(0), 7);
    assert_eq!(*g.get(1), 8);
    g.set(1, 80);
    assert_eq!(*g.get(1), 80);
    assert_eq!(g.as_slice(), &[7, 80]);
}

#[test]
fn from_vec_keeps_order() {
    let g: GridArray<u64> = GridArray::from_vec(vec![3, 1, 4, 1, 5]);
    assert_eq!(g.as_slice(), &[3, 1, 4, 1, 5]);
    let e: GridArray<u64> = GridArray::from_vec(vec![]);
    assert_eq!(e.len(), 0);
    assert_eq!(e.as_slice(), &[] as &[u64]);
}
